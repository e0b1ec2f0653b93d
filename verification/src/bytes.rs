//! Searching byte strings.

use vstd::prelude::*;

verus! {

/// Index of the first occurrence of `b` in `s`, or `s.len()` when absent.
pub open spec fn find_byte(s: Seq<u8>, b: u8) -> nat
    decreases s.len(),
{
    if s.len() == 0 {
        0
    } else if s[0] == b {
        0
    } else {
        1 + find_byte(s.drop_first(), b)
    }
}

pub proof fn find_byte_facts(s: Seq<u8>, b: u8)
    ensures
        find_byte(s, b) <= s.len(),
        forall|j: int| 0 <= j < find_byte(s, b) ==> s[j] != b,
        find_byte(s, b) < s.len() ==> s[find_byte(s, b) as int] == b,
    decreases s.len(),
{
    if s.len() > 0 && s[0] != b {
        find_byte_facts(s.drop_first(), b);
        assert forall|j: int| 0 <= j < find_byte(s, b) implies s[j] != b by {
            if j > 0 {
                assert(s[j] == s.drop_first()[j - 1]);
            }
        }
    }
}

/// Finds the first `b` in `s[from..to]`; `to` when there is none.
pub fn find_in(s: &[u8], from: usize, to: usize, b: u8) -> (r: usize)
    requires
        from <= to <= s@.len(),
    ensures
        from <= r <= to,
        r as int - from == find_byte(s@.subrange(from as int, to as int), b),
{
    let ghost sub = s@.subrange(from as int, to as int);
    proof {
        find_byte_facts(sub, b);
    }
    let mut i = from;
    while i < to && s[i] != b
        invariant
            from <= i <= to <= s@.len(),
            sub == s@.subrange(from as int, to as int),
            forall|j: int| from <= j < i ==> s@[j] != b,
            find_byte(sub, b) >= i - from,
        decreases to - i,
    {
        proof {
            find_byte_facts(sub, b);
            if find_byte(sub, b) == i - from {
                assert(sub[i - from] == s@[i as int]);
            }
        }
        i = i + 1;
    }
    proof {
        if find_byte(sub, b) > i - from {
            if i < to {
                assert(sub[i - from] == s@[i as int]);
            }
        }
    }
    i
}


/// Whether `p` occurs in `s` at index `i`.
pub open spec fn occurs_at(s: Seq<u8>, p: Seq<u8>, i: int) -> bool {
    0 <= i && i + p.len() <= s.len() && s.subrange(i, i + p.len()) == p
}

/// Whether `p` occurs anywhere in `s`.
pub open spec fn contains_bytes(s: Seq<u8>, p: Seq<u8>) -> bool {
    exists|i: int| occurs_at(s, p, i)
}

/// The last index `<= i` at which `p` occurs in `s`, or -1.
pub open spec fn last_occurrence_upto(s: Seq<u8>, p: Seq<u8>, i: int) -> int
    decreases i + 1,
{
    if i < 0 {
        -1
    } else if occurs_at(s, p, i) {
        i
    } else {
        last_occurrence_upto(s, p, i - 1)
    }
}

/// The last index at which `p` occurs in `s`, or -1.
pub open spec fn last_occurrence(s: Seq<u8>, p: Seq<u8>) -> int {
    last_occurrence_upto(s, p, s.len() - p.len())
}

/// What follows the last occurrence of `p` in `s`; all of `s` when `p`
/// does not occur.
pub open spec fn after_last(s: Seq<u8>, p: Seq<u8>) -> Seq<u8> {
    let k = last_occurrence(s, p);
    if k >= 0 {
        s.skip(k + p.len())
    } else {
        s
    }
}

/// Whether `p` occurs in `s[lo..hi]` at offset `i` (relative to `lo`).
fn occurs_in(s: &[u8], lo: usize, hi: usize, p: &[u8], i: usize) -> (r: bool)
    requires
        lo <= hi <= s@.len(),
    ensures
        r == occurs_at(s@.subrange(lo as int, hi as int), p@, i as int),
{
    let ghost sub = s@.subrange(lo as int, hi as int);
    if i > hi - lo || p.len() > hi - lo - i {
        return false;
    }
    let mut j: usize = 0;
    while j < p.len()
        invariant
            lo <= hi <= s@.len(),
            sub == s@.subrange(lo as int, hi as int),
            i + p@.len() <= hi - lo,
            j <= p@.len(),
            forall|k: int| 0 <= k < j ==> sub[i + k] == p@[k],
        decreases p@.len() - j,
    {
        if s[lo + i + j] != p[j] {
            assert(sub.subrange(i as int, i + p@.len())[j as int] != p@[j as int]);
            return false;
        }
        j = j + 1;
    }
    assert(sub.subrange(i as int, i + p@.len()) =~= p@);
    true
}

/// Whether `p` occurs in `s[lo..hi]`.
pub fn contains_in(s: &[u8], lo: usize, hi: usize, p: &[u8]) -> (r: bool)
    requires
        lo <= hi <= s@.len(),
    ensures
        r == contains_bytes(s@.subrange(lo as int, hi as int), p@),
{
    let ghost sub = s@.subrange(lo as int, hi as int);
    if p.len() > hi - lo {
        return false;
    }
    let last = hi - lo - p.len();
    let mut i: usize = 0;
    loop
        invariant
            lo <= hi <= s@.len(),
            sub == s@.subrange(lo as int, hi as int),
            p@.len() <= hi - lo,
            last == hi - lo - p@.len(),
            i <= last,
            forall|k: int| 0 <= k < i ==> !occurs_at(sub, p@, k),
        decreases last - i,
    {
        if occurs_in(s, lo, hi, p, i) {
            return true;
        }
        if i == last {
            assert forall|k: int| !occurs_at(sub, p@, k) by {
                if 0 <= k && k + p@.len() <= sub.len() {
                    assert(k <= last);
                }
            }
            return false;
        }
        i = i + 1;
    }
}

/// The offset in `s[lo..hi]` of the last occurrence of `p`, if any.
pub fn last_occurrence_in(s: &[u8], lo: usize, hi: usize, p: &[u8]) -> (r: Option<usize>)
    requires
        lo <= hi <= s@.len(),
    ensures
        match r {
            Some(k) => k as int == last_occurrence(s@.subrange(lo as int, hi as int), p@),
            None => last_occurrence(s@.subrange(lo as int, hi as int), p@) == -1,
        },
{
    let ghost sub = s@.subrange(lo as int, hi as int);
    if p.len() > hi - lo {
        proof {
            lemma_last_none_below(sub, p@, sub.len() - p@.len());
        }
        return None;
    }
    let last = hi - lo - p.len();
    let mut i: usize = last;
    loop
        invariant
            lo <= hi <= s@.len(),
            sub == s@.subrange(lo as int, hi as int),
            p@.len() <= hi - lo,
            i <= last,
            last_occurrence(sub, p@) == last_occurrence_upto(sub, p@, i as int),
        decreases i,
    {
        if occurs_in(s, lo, hi, p, i) {
            return Some(i);
        }
        if i == 0 {
            assert(last_occurrence_upto(sub, p@, -1) == -1);
            assert(last_occurrence_upto(sub, p@, 0) == last_occurrence_upto(sub, p@, -1));
            return None;
        }
        i = i - 1;
    }
}

proof fn lemma_last_none_below(s: Seq<u8>, p: Seq<u8>, i: int)
    requires
        i < 0,
    ensures
        last_occurrence_upto(s, p, i) == -1,
{
}


/// The last occurrence, when there is one, is an occurrence.
pub proof fn last_occurrence_facts(s: Seq<u8>, p: Seq<u8>, i: int)
    ensures
        last_occurrence_upto(s, p, i) == -1 || (0 <= last_occurrence_upto(s, p, i) <= i
            && occurs_at(s, p, last_occurrence_upto(s, p, i))),
    decreases i + 1,
{
    if i >= 0 && !occurs_at(s, p, i) {
        last_occurrence_facts(s, p, i - 1);
    }
}

} // verus!
