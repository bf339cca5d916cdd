//! K-way merge of per-partition event streams into one global chronological
//! stream, with a deterministic tie-break: among the streams whose next
//! event is earliest, the lowest-numbered stream goes first.

use vstd::prelude::*;
use vstd::multiset::Multiset;
use crate::subscriber_db::{SubscriberEvent, SubscriberEventView, chronological};

verus! {

/// The views of the events of every stream.
pub open spec fn stream_views(streams: Seq<Vec<SubscriberEvent>>) -> Seq<Seq<SubscriberEventView>> {
    streams.map_values(|v: Vec<SubscriberEvent>| v@.map_values(|e: SubscriberEvent| e@))
}

/// The total number of events across the streams.
pub open spec fn total_len(svs: Seq<Seq<SubscriberEventView>>) -> int
    decreases svs.len(),
{
    if svs.len() == 0 {
        0
    } else {
        total_len(svs.drop_last()) + svs.last().len()
    }
}

/// The sum of a sequence of cursor positions.
pub open spec fn sum_pos(pos: Seq<usize>) -> int
    decreases pos.len(),
{
    if pos.len() == 0 {
        0
    } else {
        sum_pos(pos.drop_last()) + pos.last()
    }
}

/// Advancing one cursor grows the sum by one.
proof fn lemma_sum_pos_update(pos: Seq<usize>, k: int)
    requires
        0 <= k < pos.len(),
        pos[k] < usize::MAX,
    ensures
        sum_pos(pos.update(k, (pos[k] + 1) as usize)) == sum_pos(pos) + 1,
    decreases pos.len(),
{
    if k == pos.len() - 1 {
        assert(pos.update(k, (pos[k] + 1) as usize).drop_last() =~= pos.drop_last());
    } else {
        assert(pos.update(k, (pos[k] + 1) as usize).drop_last() =~= pos.drop_last().update(
            k,
            (pos[k] + 1) as usize,
        ));
        assert(pos.drop_last()[k] == pos[k]);
        lemma_sum_pos_update(pos.drop_last(), k);
    }
}

/// Cursors at the stream ends sum to the total length.
proof fn lemma_sum_pos_full(pos: Seq<usize>, svs: Seq<Seq<SubscriberEventView>>)
    requires
        pos.len() == svs.len(),
        forall|k: int| 0 <= k < pos.len() ==> #[trigger] pos[k] == svs[k].len(),
    ensures
        sum_pos(pos) == total_len(svs),
    decreases pos.len(),
{
    if pos.len() > 0 {
        assert(forall|k: int| 0 <= k < pos.drop_last().len()
            ==> #[trigger] pos.drop_last()[k] == svs.drop_last()[k].len());
        lemma_sum_pos_full(pos.drop_last(), svs.drop_last());
    }
}

/// Cursor sums never exceed the total length when cursors stay in bounds.
proof fn lemma_sum_pos_le(pos: Seq<usize>, svs: Seq<Seq<SubscriberEventView>>)
    requires
        pos.len() == svs.len(),
        forall|k: int| 0 <= k < pos.len() ==> #[trigger] pos[k] <= svs[k].len(),
    ensures
        sum_pos(pos) <= total_len(svs),
    decreases pos.len(),
{
    if pos.len() > 0 {
        assert(forall|k: int| 0 <= k < pos.drop_last().len()
            ==> #[trigger] pos.drop_last()[k] <= svs.drop_last()[k].len());
        lemma_sum_pos_le(pos.drop_last(), svs.drop_last());
    }
}

/// The events of all streams, as one multiset.
pub open spec fn streams_multiset(svs: Seq<Seq<SubscriberEventView>>) -> Multiset<
    SubscriberEventView,
>
    decreases svs.len(),
{
    if svs.len() == 0 {
        Multiset::empty()
    } else {
        streams_multiset(svs.drop_last()).add(svs.last().to_multiset())
    }
}

/// The events taken so far: each stream's prefix up to its cursor.
spec fn taken_multiset(svs: Seq<Seq<SubscriberEventView>>, pos: Seq<usize>) -> Multiset<
    SubscriberEventView,
>
    recommends
        svs.len() == pos.len(),
    decreases pos.len(),
{
    if pos.len() == 0 {
        Multiset::empty()
    } else {
        taken_multiset(svs.drop_last(), pos.drop_last()).add(
            svs.last().take(pos.last() as int).to_multiset(),
        )
    }
}

/// Cursors at zero have taken nothing.
proof fn lemma_taken_zero(svs: Seq<Seq<SubscriberEventView>>, pos: Seq<usize>)
    requires
        svs.len() == pos.len(),
        forall|k: int| 0 <= k < pos.len() ==> #[trigger] pos[k] == 0,
    ensures
        taken_multiset(svs, pos) =~= Multiset::empty(),
    decreases pos.len(),
{
    broadcast use vstd::seq_lib::group_to_multiset_ensures;

    if pos.len() > 0 {
        assert(forall|k: int| 0 <= k < pos.drop_last().len()
            ==> #[trigger] pos.drop_last()[k] == 0);
        lemma_taken_zero(svs.drop_last(), pos.drop_last());
        assert(svs.last().take(0) =~= Seq::<SubscriberEventView>::empty());
        assert(Seq::<SubscriberEventView>::empty().to_multiset() =~= Multiset::empty());
    }
}

/// Advancing one cursor takes exactly that stream's next event.
proof fn lemma_taken_update(svs: Seq<Seq<SubscriberEventView>>, pos: Seq<usize>, k: int)
    requires
        svs.len() == pos.len(),
        0 <= k < pos.len(),
        pos[k] < usize::MAX,
        pos[k] < svs[k].len(),
    ensures
        taken_multiset(svs, pos.update(k, (pos[k] + 1) as usize)) =~= taken_multiset(
            svs,
            pos,
        ).insert(svs[k][pos[k] as int]),
    decreases pos.len(),
{
    broadcast use vstd::seq_lib::group_to_multiset_ensures;

    let pos2 = pos.update(k, (pos[k] + 1) as usize);
    if k == pos.len() - 1 {
        assert(pos2.drop_last() =~= pos.drop_last());
        assert(pos2.last() == pos[k] + 1);
        assert(svs.last().take(pos[k] + 1) =~= svs.last().take(pos[k] as int).push(
            svs[k][pos[k] as int]));
    } else {
        assert(pos2.drop_last() =~= pos.drop_last().update(k, (pos[k] + 1) as usize));
        assert(pos.drop_last()[k] == pos[k]);
        assert(svs.drop_last()[k] == svs[k]);
        lemma_taken_update(svs.drop_last(), pos.drop_last(), k);
        assert(pos2.last() == pos.last());
    }
}

/// Cursors at the stream ends have taken everything.
proof fn lemma_taken_full(svs: Seq<Seq<SubscriberEventView>>, pos: Seq<usize>)
    requires
        svs.len() == pos.len(),
        forall|k: int| 0 <= k < pos.len() ==> #[trigger] pos[k] == svs[k].len(),
    ensures
        taken_multiset(svs, pos) =~= streams_multiset(svs),
    decreases pos.len(),
{
    if pos.len() > 0 {
        assert(forall|k: int| 0 <= k < pos.drop_last().len()
            ==> #[trigger] pos.drop_last()[k] == svs.drop_last()[k].len());
        lemma_taken_full(svs.drop_last(), pos.drop_last());
        assert(svs.last().take(pos.last() as int) =~= svs.last());
    }
}

/// In a chronological stream, timestamps grow with the index.
pub proof fn lemma_chronological_mono(s: Seq<SubscriberEventView>, i: int, j: int)
    requires
        chronological(s),
        0 <= i <= j < s.len(),
    ensures
        s[i].timestamp_ms <= s[j].timestamp_ms,
    decreases j - i,
{
    if i < j {
        lemma_chronological_mono(s, i, j - 1);
    }
}

/// Merges per-partition streams, each already in non-decreasing timestamp
/// order, into one stream in non-decreasing timestamp order holding all the
/// events: earliest timestamp first, ties resolved toward the
/// lowest-numbered stream.
#[verifier::rlimit(100)]
pub fn merge_events(streams: &Vec<Vec<SubscriberEvent>>) -> (r: Vec<SubscriberEvent>)
    requires
        forall|k: int| 0 <= k < streams@.len() ==> chronological(
            #[trigger] stream_views(streams@)[k],
        ),
    ensures
        chronological(r@.map_values(|e: SubscriberEvent| e@)),
        r@.len() == total_len(stream_views(streams@)),
        r@.map_values(|e: SubscriberEvent| e@).to_multiset() == streams_multiset(
            stream_views(streams@),
        ),
{
    let ghost svs = stream_views(streams@);
    let kn = streams.len();
    let mut pos: Vec<usize> = Vec::new();
    let mut k0: usize = 0;
    while k0 < kn
        invariant
            0 <= k0 <= kn,
            pos@.len() == k0,
            forall|k: int| 0 <= k < k0 ==> #[trigger] pos@[k] == 0,
        decreases kn - k0,
    {
        pos.push(0);
        k0 = k0 + 1;
    }
    proof {
        lemma_sum_pos_zero(pos@);
        lemma_taken_zero(svs, pos@);
        assert(Seq::<SubscriberEvent>::empty().map_values(|e: SubscriberEvent| e@)
            =~= Seq::<SubscriberEventView>::empty());
        broadcast use vstd::seq_lib::group_to_multiset_ensures;

        assert(Seq::<SubscriberEventView>::empty().to_multiset() =~= Multiset::empty());
    }
    let mut out: Vec<SubscriberEvent> = Vec::new();
    loop
        invariant
            pos@.len() == kn,
            kn == streams@.len(),
            svs == stream_views(streams@),
            forall|k: int| 0 <= k < kn ==> #[trigger] pos@[k] <= svs[k].len(),
            forall|k: int| 0 <= k < kn ==> chronological(#[trigger] svs[k]),
            out@.len() == sum_pos(pos@),
            chronological(out@.map_values(|e: SubscriberEvent| e@)),
            out@.map_values(|e: SubscriberEvent| e@).to_multiset() == taken_multiset(svs, pos@),
            out@.len() > 0 ==> forall|k: int| 0 <= k < kn && pos@[k] < svs[k].len()
                ==> out@.last()@.timestamp_ms <= (#[trigger] svs[k])[pos@[k] as int].timestamp_ms,
        ensures
            chronological(out@.map_values(|e: SubscriberEvent| e@)),
            out@.len() == total_len(svs),
            out@.map_values(|e: SubscriberEvent| e@).to_multiset() == streams_multiset(svs),
        decreases total_len(svs) - sum_pos(pos@),
    {
        // Choose the stream whose next event is earliest; lowest index wins
        // ties.
        let mut best: usize = kn;
        let mut k: usize = 0;
        while k < kn
            invariant
                0 <= k <= kn,
                pos@.len() == kn,
                kn == streams@.len(),
                svs == stream_views(streams@),
                forall|l: int| 0 <= l < kn ==> #[trigger] pos@[l] <= svs[l].len(),
                best <= kn,
                best < kn ==> pos@[best as int] < svs[best as int].len(),
                best == kn ==> forall|l: int| 0 <= l < k ==> #[trigger] pos@[l] == svs[l].len(),
                best < kn ==> forall|l: int| 0 <= l < k && pos@[l] < svs[l].len()
                    ==> svs[best as int][pos@[best as int] as int].timestamp_ms
                        <= (#[trigger] svs[l])[pos@[l] as int].timestamp_ms,
            decreases kn - k,
        {
            proof {
                assert(svs[k as int] == streams@[k as int]@.map_values(
                    |e: SubscriberEvent| e@));
            }
            if pos[k] < streams[k].len() {
                proof {
                    assert(svs[k as int][pos@[k as int] as int] == streams@[k as int]@[pos@[
                        k as int] as int]@);
                }
                if best == kn {
                    best = k;
                } else {
                    proof {
                        assert(svs[best as int][pos@[best as int] as int] == streams@[
                            best as int]@[pos@[best as int] as int]@);
                    }
                    if streams[k][pos[k]].timestamp_ms
                        < streams[best][pos[best]].timestamp_ms {
                        best = k;
                    }
                }
            }
            k = k + 1;
        }
        if best == kn {
            // Every stream is exhausted.
            proof {
                lemma_sum_pos_full(pos@, svs);
                lemma_taken_full(svs, pos@);
            }
            break;
        }
        let ghost old_pos = pos@;
        let ghost old_out = out@;
        proof {
            assert(svs[best as int] == streams@[best as int]@.map_values(
                |e: SubscriberEvent| e@));
            assert(svs[best as int][pos@[best as int] as int] == streams@[best as int]@[pos@[
                best as int] as int]@);
        }
        let sl = streams[best].len();
        assert(pos@[best as int] < sl);
        let picked = crate::subscriber_db::event_clone(&streams[best][pos[best]]);
        out.push(picked);
        let next = pos[best] + 1;
        pos.set(best, next);
        proof {
            lemma_sum_pos_update(old_pos, best as int);
            lemma_taken_update(svs, old_pos, best as int);
            broadcast use vstd::seq_lib::group_to_multiset_ensures;

            let outv = out@.map_values(|e: SubscriberEvent| e@);
            let oldv = old_out.map_values(|e: SubscriberEvent| e@);
            assert(outv =~= oldv.push(picked@));
            assert(picked@ == svs[best as int][old_pos[best as int] as int]);
            assert(outv.to_multiset() =~= oldv.to_multiset().insert(picked@));
            assert forall|i: int| 1 <= i < outv.len()
                implies outv[i - 1].timestamp_ms <= #[trigger] outv[i].timestamp_ms by {
                if i < outv.len() - 1 {
                    assert(outv[i - 1] == oldv[i - 1] && outv[i] == oldv[i]);
                } else {
                    if oldv.len() > 0 {
                        assert(oldv.last().timestamp_ms <= picked@.timestamp_ms);
                    }
                }
            }
            assert(chronological(outv));
            assert forall|l: int| 0 <= l < kn && pos@[l] < svs[l].len()
                implies out@.last()@.timestamp_ms <= (#[trigger] svs[l])[pos@[
                l] as int].timestamp_ms by {
                if l == best as int {
                    lemma_chronological_mono(
                        svs[l],
                        old_pos[l] as int,
                        pos@[l] as int,
                    );
                } else {
                    assert(pos@[l] == old_pos[l]);
                }
            }
            lemma_sum_pos_le(pos@, svs);
        }
    }
    out
}

/// An empty cursor set sums to zero; all-zero cursors sum to zero.
proof fn lemma_sum_pos_zero(pos: Seq<usize>)
    requires
        forall|k: int| 0 <= k < pos.len() ==> #[trigger] pos[k] == 0,
    ensures
        sum_pos(pos) == 0,
    decreases pos.len(),
{
    if pos.len() > 0 {
        assert(forall|k: int| 0 <= k < pos.drop_last().len()
            ==> #[trigger] pos.drop_last()[k] == 0);
        lemma_sum_pos_zero(pos.drop_last());
    }
}

} // verus!
