//! Byte-level scanning helpers shared by the datagram and statistics parsers.

use vstd::prelude::*;

verus! {

/// Index of the first occurrence of `b` in `s` within `[from, to)`, if any.
pub open spec fn find_in(s: Seq<u8>, from: int, to: int, b: u8) -> Option<int>
    decreases to - from,
{
    if from < 0 || from >= to || to > s.len() {
        None
    } else if s[from] == b {
        Some(from)
    } else {
        find_in(s, from + 1, to, b)
    }
}

/// `find_in` returns the first occurrence: the hit carries `b`, everything
/// before it does not, and a miss means `b` is absent from the range.
pub proof fn lemma_find_in(s: Seq<u8>, from: int, to: int, b: u8)
    requires
        0 <= from <= to <= s.len(),
    ensures
        match find_in(s, from, to, b) {
            Some(j) => from <= j < to && s[j] == b && forall|k: int|
                from <= k < j ==> s[k] != b,
            None => forall|k: int| from <= k < to ==> s[k] != b,
        },
    decreases to - from,
{
    if from < to {
        lemma_find_in(s, from + 1, to, b);
    }
}

/// Finds the first occurrence of `b` in `s[from..to]`.
pub fn find_byte_in(s: &[u8], from: usize, to: usize, b: u8) -> (r: Option<usize>)
    requires
        from <= to <= s@.len(),
    ensures
        match r {
            Some(j) => find_in(s@, from as int, to as int, b) == Some(j as int),
            None => find_in(s@, from as int, to as int, b) is None,
        },
{
    let mut i: usize = from;
    while i < to
        invariant
            from <= i <= to <= s@.len(),
            find_in(s@, from as int, to as int, b) == find_in(s@, i as int, to as int, b),
        decreases to - i,
    {
        if s[i] == b {
            return Some(i);
        }
        assert(find_in(s@, i as int, to as int, b) == find_in(s@, i + 1, to as int, b));
        i = i + 1;
    }
    None
}

/// Compares two byte slices for equality.
pub fn bytes_eq(a: &[u8], b: &[u8]) -> (r: bool)
    ensures
        r == (a@ == b@),
{
    if a.len() != b.len() {
        assert(a@ != b@) by {
            assert(a@.len() != b@.len());
        }
        return false;
    }
    let n: usize = a.len();
    let mut i: usize = 0;
    while i < n
        invariant
            i <= n,
            n == a@.len() == b@.len(),
            forall|k: int| 0 <= k < i ==> a@[k] == b@[k],
        decreases n - i,
    {
        if a[i] != b[i] {
            return false;
        }
        i = i + 1;
    }
    assert(a@ =~= b@);
    true
}

/// Copies `s[from..to]` into a fresh vector.
pub fn subrange_vec(s: &[u8], from: usize, to: usize) -> (r: Vec<u8>)
    requires
        from <= to <= s@.len(),
    ensures
        r@ == s@.subrange(from as int, to as int),
{
    let mut r: Vec<u8> = Vec::new();
    let mut i: usize = from;
    while i < to
        invariant
            from <= i <= to <= s@.len(),
            r@ == s@.subrange(from as int, i as int),
        decreases to - i,
    {
        r.push(s[i]);
        assert(r@ =~= s@.subrange(from as int, i + 1));
        i = i + 1;
    }
    r
}

/// A position holding `b` with nothing but other bytes before it is exactly
/// what `find_in` returns.
pub proof fn lemma_find_in_unique(s: Seq<u8>, from: int, to: int, b: u8, j: int)
    requires
        0 <= from <= j < to <= s.len(),
        s[j] == b,
        forall|k: int| from <= k < j ==> s[k] != b,
    ensures
        find_in(s, from, to, b) == Some(j),
{
    lemma_find_in(s, from, to, b);
    match find_in(s, from, to, b) {
        Some(r) => {
            if r < j {
                assert(s[r] != b);
            }
            if r > j {
                assert(s[j] != b);
            }
        },
        None => {
            assert(s[j] != b);
        },
    }
}

} // verus!
