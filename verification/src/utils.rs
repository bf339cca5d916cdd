//! Aggregation of per-shard generation statistics into a daily summary.
//! Reading the shard statistics files and writing the summary file is I/O
//! and lives with the program around the library.

use vstd::prelude::*;

verus! {

/// What one generation shard produced.
#[derive(Debug, Clone, Copy, PartialEq, Eq, Structural)]
pub struct ShardStats {
    pub shard: usize,
    pub calls: usize,
    pub sms: usize,
    pub data: usize,
}

/// The totals of one generated day.
#[derive(Debug, Clone, Copy, PartialEq, Eq, Structural)]
pub struct DailySummary {
    pub total_calls: usize,
    pub total_sms: usize,
    pub total_data: usize,
    pub shards: usize,
}

/// The sum of the shards' call counts.
pub open spec fn sum_calls(s: Seq<ShardStats>) -> int
    decreases s.len(),
{
    if s.len() == 0 {
        0
    } else {
        sum_calls(s.drop_last()) + s.last().calls
    }
}

/// The sum of the shards' SMS counts.
pub open spec fn sum_sms(s: Seq<ShardStats>) -> int
    decreases s.len(),
{
    if s.len() == 0 {
        0
    } else {
        sum_sms(s.drop_last()) + s.last().sms
    }
}

/// The sum of the shards' data-session counts.
pub open spec fn sum_data(s: Seq<ShardStats>) -> int
    decreases s.len(),
{
    if s.len() == 0 {
        0
    } else {
        sum_data(s.drop_last()) + s.last().data
    }
}

/// Totals the statistics of all shards of one day.
pub fn summarize_shards(stats: &Vec<ShardStats>) -> (r: DailySummary)
    requires
        sum_calls(stats@) <= usize::MAX,
        sum_sms(stats@) <= usize::MAX,
        sum_data(stats@) <= usize::MAX,
    ensures
        r.total_calls == sum_calls(stats@),
        r.total_sms == sum_sms(stats@),
        r.total_data == sum_data(stats@),
        r.shards == stats@.len(),
{
    let n = stats.len();
    let mut calls: usize = 0;
    let mut sms: usize = 0;
    let mut data: usize = 0;
    let mut i: usize = 0;
    while i < n
        invariant
            0 <= i <= n,
            n == stats@.len(),
            calls == sum_calls(stats@.take(i as int)),
            sms == sum_sms(stats@.take(i as int)),
            data == sum_data(stats@.take(i as int)),
            sum_calls(stats@) <= usize::MAX,
            sum_sms(stats@) <= usize::MAX,
            sum_data(stats@) <= usize::MAX,
        decreases n - i,
    {
        proof {
            assert(stats@.take(i + 1).drop_last() =~= stats@.take(i as int));
            assert(stats@.take(i + 1).last() == stats@[i as int]);
            lemma_sum_prefix_le(stats@, i + 1);
        }
        calls = calls + stats[i].calls;
        sms = sms + stats[i].sms;
        data = data + stats[i].data;
        i = i + 1;
    }
    proof {
        assert(stats@.take(n as int) =~= stats@);
    }
    DailySummary { total_calls: calls, total_sms: sms, total_data: data, shards: n }
}

/// Prefix sums never exceed the full sums.
proof fn lemma_sum_prefix_le(s: Seq<ShardStats>, i: int)
    requires
        0 <= i <= s.len(),
    ensures
        sum_calls(s.take(i)) <= sum_calls(s),
        sum_sms(s.take(i)) <= sum_sms(s),
        sum_data(s.take(i)) <= sum_data(s),
    decreases s.len() - i,
{
    if i == s.len() {
        assert(s.take(i) =~= s);
    } else {
        assert(s.take(i + 1).drop_last() =~= s.take(i));
        assert(s.take(i + 1).last() == s[i]);
        lemma_sum_prefix_le(s, i + 1);
    }
}

} // verus!
