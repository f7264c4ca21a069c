use vstd::prelude::*;

verus! {

/// Whether two byte slices hold the same bytes.
pub fn bytes_equal(a: &[u8], b: &[u8]) -> (r: bool)
    ensures
        r == (a@ == b@),
{
    if a.len() != b.len() {
        return false;
    }
    let mut i: usize = 0;
    while i < a.len()
        invariant
            i <= a.len(),
            a.len() == b.len(),
            a@.subrange(0, i as int) == b@.subrange(0, i as int),
        decreases a.len() - i,
    {
        if a[i] != b[i] {
            assert(a@[i as int] != b@[i as int]);
            return false;
        }
        assert(a@.subrange(0, i + 1) == a@.subrange(0, i as int).push(a@[i as int]));
        assert(b@.subrange(0, i + 1) == b@.subrange(0, i as int).push(b@[i as int]));
        i = i + 1;
    }
    assert(a@ == a@.subrange(0, i as int));
    assert(b@ == b@.subrange(0, i as int));
    true
}

/// Appends the bytes of `s` to `v`.
pub fn push_all(v: &mut Vec<u8>, s: &[u8])
    ensures
        final(v)@ == old(v)@ + s@,
{
    let mut i: usize = 0;
    while i < s.len()
        invariant
            i <= s.len(),
            v@ == old(v)@ + s@.subrange(0, i as int),
        decreases s.len() - i,
    {
        v.push(s[i]);
        assert(s@.subrange(0, i + 1) == s@.subrange(0, i as int).push(s@[i as int]));
        i = i + 1;
    }
    assert(s@ == s@.subrange(0, i as int));
}

/// A fresh vector holding `b[lo..hi]`.
pub fn copy_range(b: &[u8], lo: usize, hi: usize) -> (r: Vec<u8>)
    requires
        lo <= hi <= b@.len(),
    ensures
        r@ == b@.subrange(lo as int, hi as int),
{
    let mut v: Vec<u8> = Vec::new();
    let mut i: usize = lo;
    while i < hi
        invariant
            lo <= i <= hi <= b@.len(),
            v@ == b@.subrange(lo as int, i as int),
        decreases hi - i,
    {
        v.push(b[i]);
        assert(b@.subrange(lo as int, i + 1) == b@.subrange(lo as int, i as int).push(b@[i as int]));
        i = i + 1;
    }
    v
}

/// Whether `a` begins with the bytes of `p`.
pub fn starts_with(a: &[u8], p: &[u8]) -> (r: bool)
    ensures
        r == (p@.len() <= a@.len() && a@.take(p@.len() as int) == p@),
{
    if p.len() > a.len() {
        return false;
    }
    let head = copy_range(a, 0, p.len());
    bytes_equal(head.as_slice(), p)
}

/// Position of the first occurrence of `x` in `b` at or after `from`.
pub open spec fn find_from(b: Seq<u8>, x: u8, from: int) -> Option<int>
    decreases b.len() - from,
{
    if from < 0 || from >= b.len() {
        None
    } else if b[from] == x {
        Some(from)
    } else {
        find_from(b, x, from + 1)
    }
}

/// Finds the first `x` in `b` at or after `from`.
pub fn find_byte(b: &[u8], x: u8, from: usize) -> (r: Option<usize>)
    ensures
        match r {
            Some(i) => find_from(b@, x, from as int) == Some(i as int) && from <= i < b@.len()
                && b@[i as int] == x,
            None => find_from(b@, x, from as int) is None,
        },
{
    let mut i: usize = from;
    while i < b.len()
        invariant
            from <= i,
            find_from(b@, x, from as int) == find_from(b@, x, i as int),
        decreases b.len() - i,
    {
        if b[i] == x {
            return Some(i);
        }
        i = i + 1;
    }
    None
}

/// The first `x` at or after `k` is at `i` where `s[i] == x` and no byte
/// between `k` and `i` is `x`.
pub proof fn lemma_find_first(s: Seq<u8>, x: u8, k: int, i: int)
    requires
        0 <= k <= i < s.len(),
        s[i] == x,
        forall|j: int| k <= j < i ==> s[j] != x,
    ensures
        find_from(s, x, k) == Some(i),
    decreases i - k,
{
    if k < i {
        lemma_find_first(s, x, k + 1, i);
    }
}

/// A found position lies in range and holds the byte looked for.
pub proof fn lemma_find_from_bounds(b: Seq<u8>, x: u8, from: int)
    ensures
        match find_from(b, x, from) {
            Some(i) => from <= i < b.len() && b[i] == x,
            None => true,
        },
    decreases b.len() - from,
{
    if from < 0 || from >= b.len() {
    } else if b[from] == x {
    } else {
        lemma_find_from_bounds(b, x, from + 1);
    }
}

/// Searching past a prefix is searching in what follows it.
pub proof fn lemma_find_shift(pre: Seq<u8>, r: Seq<u8>, x: u8, k: int)
    requires
        0 <= k,
    ensures
        find_from(pre + r, x, pre.len() + k) == match find_from(r, x, k) {
            Some(i) => Some(pre.len() + i),
            None => None::<int>,
        },
    decreases r.len() - k,
{
    if k >= r.len() {
    } else {
        assert((pre + r)[pre.len() + k] == r[k]);
        if r[k] != x {
            lemma_find_shift(pre, r, x, k + 1);
        }
    }
}

} // verus!
