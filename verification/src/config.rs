//! The verifiable part of the configuration surface: phone-number prefix
//! parsing and the call-duration quantile record.

use vstd::prelude::*;
use crate::ids::all_digits;
use crate::text::split_commas;

verus! {

/// Call-duration quantiles in seconds.
#[derive(Debug, Clone, Copy, PartialEq, Eq, Structural)]
pub struct CallDurationQuantiles {
    pub p50: u32,
    pub p90: u32,
    pub p99: u32,
}

/// A character the prefix parser strips at segment ends.
pub open spec fn is_space_char(c: char) -> bool {
    c == ' ' || c == '\t' || c == '\r' || c == '\n'
}

/// The text with spaces stripped from both ends.
pub open spec fn spec_trim(s: Seq<char>) -> Seq<char>
    decreases s.len(),
{
    if s.len() > 0 && is_space_char(s.first()) {
        spec_trim(s.drop_first())
    } else if s.len() > 0 && is_space_char(s.last()) {
        spec_trim(s.drop_last())
    } else {
        s
    }
}

/// A valid phone-number prefix: three to six decimal digits.
pub open spec fn valid_prefix(s: Seq<char>) -> bool {
    3 <= s.len() <= 6 && all_digits(s)
}

/// Why a prefix list was rejected.
#[derive(Debug, Clone, Copy, PartialEq, Eq, Structural)]
pub enum PrefixError {
    /// The comma-separated segment at `index`, trimmed, is not three to six
    /// digits.
    BadPrefix { index: usize },
}

/// The built-in prefix pool used when none is configured.
pub fn default_prefixes() -> (r: Vec<String>)
    ensures
        r@.map_values(|p: String| p@) == seq!["31612"@, "31613"@, "31620"@, "31621"@],
{
    let mut r: Vec<String> = Vec::new();
    r.push("31612".to_owned());
    r.push("31613".to_owned());
    r.push("31620".to_owned());
    r.push("31621".to_owned());
    proof {
        assert(r@.map_values(|p: String| p@) =~= seq!["31612"@, "31613"@, "31620"@, "31621"@]);
    }
    r
}

/// Whether the character at `i` is a space the trimmer strips.
fn char_is_space(s: &str, i: usize) -> (r: bool)
    requires
        i < s@.len(),
    ensures
        r == is_space_char(s@[i as int]),
{
    let c = s.get_char(i) as u32;
    c == 32 || c == 9 || c == 13 || c == 10
}

/// Strips spaces from both ends of the text.
fn trim_spaces(s: &str) -> (r: String)
    ensures
        r@ == spec_trim(s@),
{
    let n = s.unicode_len();
    let mut lo: usize = 0;
    let mut hi: usize = n;
    proof {
        assert(s@.subrange(0, n as int) =~= s@);
    }
    while lo < hi && char_is_space(s, lo)
        invariant
            0 <= lo <= hi <= n,
            n == s@.len(),
            spec_trim(s@) == spec_trim(s@.subrange(lo as int, hi as int)),
        decreases hi - lo,
    {
        proof {
            let sub = s@.subrange(lo as int, hi as int);
            assert(sub.first() == s@[lo as int]);
            assert(is_space_char(sub.first()));
            assert(sub.drop_first() =~= s@.subrange(lo + 1, hi as int));
        }
        lo = lo + 1;
    }
    while lo < hi && char_is_space(s, hi - 1)
        invariant
            0 <= lo <= hi <= n,
            n == s@.len(),
            spec_trim(s@) == spec_trim(s@.subrange(lo as int, hi as int)),
            lo < hi ==> !is_space_char(s@[lo as int]),
        decreases hi - lo,
    {
        proof {
            let sub = s@.subrange(lo as int, hi as int);
            assert(sub.first() == s@[lo as int]);
            assert(sub.last() == s@[hi - 1]);
            assert(is_space_char(sub.last()));
            assert(!is_space_char(sub.first()));
            assert(sub.drop_last() =~= s@.subrange(lo as int, hi - 1));
        }
        hi = hi - 1;
    }
    proof {
        let sub = s@.subrange(lo as int, hi as int);
        if lo < hi {
            assert(sub.first() == s@[lo as int]);
            assert(sub.last() == s@[hi - 1]);
            assert(!is_space_char(sub.first()));
            assert(!is_space_char(sub.last()));
        }
        assert(spec_trim(sub) == sub);
    }
    let piece = s.substring_char(lo, hi);
    piece.to_owned()
}

/// Parses a comma-separated list of phone-number prefixes.
///
/// An empty input yields the built-in pool. Otherwise every segment,
/// trimmed, must be three to six digits; the first bad segment is reported.
pub fn parse_prefixes(prefixes_str: &str) -> (r: Result<Vec<String>, PrefixError>)
    ensures
        match r {
            Ok(v) => {
                if prefixes_str@.len() == 0 {
                    v@.map_values(|p: String| p@) == seq!["31612"@, "31613"@, "31620"@, "31621"@]
                } else {
                    let parts = split_commas(prefixes_str@);
                    &&& v@.map_values(|p: String| p@) == parts.map_values(|p: Seq<char>| spec_trim(p))
                    &&& forall|i: int| 0 <= i < parts.len()
                        ==> valid_prefix(spec_trim(#[trigger] parts[i]))
                }
            },
            Err(PrefixError::BadPrefix { index }) => {
                let parts = split_commas(prefixes_str@);
                &&& prefixes_str@.len() > 0
                &&& 0 <= index < parts.len()
                &&& !valid_prefix(spec_trim(parts[index as int]))
                &&& forall|j: int| 0 <= j < index ==> valid_prefix(spec_trim(#[trigger] parts[j]))
            },
        },
{
    if prefixes_str.unicode_len() == 0 {
        return Ok(default_prefixes());
    }
    let parts = crate::text::split_at_commas(prefixes_str);
    let ghost pseq = split_commas(prefixes_str@);
    proof {
        assert(parts@.map_values(|t: String| t@) == pseq);
    }
    let n = parts.len();
    let mut out: Vec<String> = Vec::new();
    let mut i: usize = 0;
    while i < n
        invariant
            0 <= i <= n,
            n == parts@.len(),
            prefixes_str@.len() > 0,
            pseq == split_commas(prefixes_str@),
            parts@.map_values(|t: String| t@) == pseq,
            out@.len() == i,
            forall|j: int| 0 <= j < i ==> (#[trigger] out@[j])@ == spec_trim(pseq[j]),
            forall|j: int| 0 <= j < i ==> valid_prefix(spec_trim(#[trigger] pseq[j])),
        decreases n - i,
    {
        proof {
            assert(parts@.map_values(|t: String| t@)[i as int] == pseq[i as int]);
        }
        let trimmed = trim_spaces(parts[i].as_str());
        if !crate::subscriber_db::check_digits_len(trimmed.as_str(), 3, 6) {
            return Err(PrefixError::BadPrefix { index: i });
        }
        out.push(trimmed);
        i = i + 1;
    }
    proof {
        assert(out@.map_values(|p: String| p@) =~= pseq.map_values(|p: Seq<char>| spec_trim(p)));
    }
    Ok(out)
}

} // verus!
