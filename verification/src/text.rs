//! Small verified text utilities: string equality, ASCII case-insensitive
//! matching, and splitting a line at commas.

use vstd::prelude::*;

verus! {

/// `d` is `c` with an ASCII upper-case letter folded to lower case.
pub open spec fn is_lower_of(d: char, c: char) -> bool {
    if 'A' as int <= c as int <= 'Z' as int {
        d as int == c as int + 32
    } else {
        d == c
    }
}

/// `s` equals the (already lower-case) text `lit` up to ASCII case.
pub open spec fn matches_ignore_ascii_case(s: Seq<char>, lit: Seq<char>) -> bool {
    s.len() == lit.len() && forall|i: int|
        0 <= i < s.len() ==> is_lower_of(#[trigger] lit[i], s[i])
}

/// Character-wise string equality.
pub fn str_eq(a: &str, b: &str) -> (r: bool)
    ensures
        r == (a@ == b@),
{
    let n = a.unicode_len();
    if n != b.unicode_len() {
        return false;
    }
    let mut i: usize = 0;
    while i < n
        invariant
            0 <= i <= n,
            n == a@.len(),
            n == b@.len(),
            forall|j: int| 0 <= j < i ==> a@[j] == #[trigger] b@[j],
        decreases n - i,
    {
        let ca = a.get_char(i);
        let cb = b.get_char(i);
        if ca as u32 != cb as u32 {
            assert(a@[i as int] != b@[i as int]);
            return false;
        }
        i = i + 1;
    }
    proof {
        assert(a@ =~= b@);
    }
    true
}

/// Whether `s` equals the lower-case text `lit` up to ASCII case.
pub fn eq_ignore_ascii_case(s: &str, lit: &str) -> (r: bool)
    ensures
        r == matches_ignore_ascii_case(s@, lit@),
{
    let n = s.unicode_len();
    if n != lit.unicode_len() {
        return false;
    }
    let mut i: usize = 0;
    while i < n
        invariant
            0 <= i <= n,
            n == s@.len(),
            n == lit@.len(),
            forall|j: int| 0 <= j < i ==> is_lower_of(#[trigger] lit@[j], s@[j]),
        decreases n - i,
    {
        let cs = s.get_char(i);
        let cl = lit.get_char(i);
        let d = cs as u32;
        let low = if 65 <= d && d <= 90 {
            d + 32
        } else {
            d
        };
        if low != cl as u32 {
            assert(!is_lower_of(lit@[i as int], s@[i as int]));
            return false;
        }
        assert(is_lower_of(lit@[i as int], s@[i as int]));
        i = i + 1;
    }
    true
}

/// The segments of `s` between commas, in order. A sequence without a comma
/// is a single segment; every comma separates two (possibly empty) segments.
pub open spec fn split_commas(s: Seq<char>) -> Seq<Seq<char>>
    decreases s.len(),
{
    if s.len() == 0 {
        seq![Seq::<char>::empty()]
    } else if s.last() == ',' {
        split_commas(s.drop_last()).push(Seq::<char>::empty())
    } else {
        let r = split_commas(s.drop_last());
        r.update(r.len() - 1, r.last().push(s.last()))
    }
}

/// Splitting yields at least one segment.
pub proof fn lemma_split_commas_len(s: Seq<char>)
    ensures
        split_commas(s).len() >= 1,
    decreases s.len(),
{
    if s.len() > 0 {
        lemma_split_commas_len(s.drop_last());
    }
}

/// Splits a line at commas.
pub fn split_at_commas(s: &str) -> (r: Vec<String>)
    ensures
        r@.map_values(|t: String| t@) == split_commas(s@),
{
    let n = s.unicode_len();
    let mut segs: Vec<String> = Vec::new();
    let mut cur = String::new();
    let mut i: usize = 0;
    while i < n
        invariant
            0 <= i <= n,
            n == s@.len(),
            split_commas(s@.take(i as int)) =~~= segs@.map_values(|t: String| t@).push(cur@),
        decreases n - i,
    {
        let c = s.get_char(i);
        proof {
            assert(s@.take(i + 1).drop_last() =~= s@.take(i as int));
            assert(s@.take(i + 1).last() == s@[i as int]);
            lemma_split_commas_len(s@.take(i as int));
        }
        if c as u32 == 44 {
            assert(c == ',');
            segs.push(cur);
            cur = String::new();
            proof {
                assert(split_commas(s@.take(i + 1)) =~~= segs@.map_values(|t: String| t@).push(
                    cur@));
            }
        } else {
            assert(c != ',');
            crate::ids::push_char(&mut cur, c);
            proof {
                let prev = split_commas(s@.take(i as int));
                assert(split_commas(s@.take(i + 1)) =~~= prev.update(
                    prev.len() - 1,
                    prev.last().push(s@[i as int]),
                ));
                assert(split_commas(s@.take(i + 1)) =~~= segs@.map_values(|t: String| t@).push(
                    cur@));
            }
        }
        i = i + 1;
    }
    segs.push(cur);
    proof {
        assert(s@.take(n as int) =~= s@);
        assert(segs@.map_values(|t: String| t@) =~~= split_commas(s@));
    }
    segs
}

} // verus!
