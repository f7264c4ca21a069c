use vstd::prelude::*;
use crate::bytes::{copy_range, find_byte, find_from, lemma_find_first, push_all};
use crate::hash::HASH_LEN;

verus! {

/// The three kinds of stored objects.
#[derive(Clone, Copy, Debug, PartialEq, Eq)]
pub enum ObjectKind {
    Blob,
    Tree,
    Commit,
}

impl ObjectKind {
    /// The type tag written at the start of a framed object.
    pub open spec fn tag(self) -> Seq<u8> {
        match self {
            ObjectKind::Blob => seq![98u8, 108, 111, 98],
            ObjectKind::Tree => seq![116u8, 114, 101, 101],
            ObjectKind::Commit => seq![99u8, 111, 109, 109, 105, 116],
        }
    }

    /// The type tag as bytes.
    pub fn tag_bytes(self) -> (r: Vec<u8>)
        ensures
            r@ == self.tag(),
    {
        let r = match self {
            ObjectKind::Blob => vec![98u8, 108, 111, 98],
            ObjectKind::Tree => vec![116u8, 114, 101, 101],
            ObjectKind::Commit => vec![99u8, 111, 109, 109, 105, 116],
        };
        assert(r@ == self.tag());
        r
    }
}

/// The decimal digits of `n`, most significant first, without leading zeros.
pub open spec fn decimal(n: nat) -> Seq<u8>
    decreases n,
{
    if n < 10 {
        seq![(48 + n) as u8]
    } else {
        decimal(n / 10).push((48 + n % 10) as u8)
    }
}

/// Appends the decimal digits of `n` to `v`.
pub fn push_decimal(v: &mut Vec<u8>, n: u64)
    ensures
        final(v)@ == old(v)@ + decimal(n as nat),
    decreases n,
{
    if n >= 10 {
        push_decimal(v, n / 10);
    }
    v.push((48 + n % 10) as u8);
}

/// The framed form of an object: `<tag> <length>\0<payload>`.
pub open spec fn frame(kind: ObjectKind, payload: Seq<u8>) -> Seq<u8> {
    kind.tag() + seq![32u8] + decimal(payload.len()) + seq![0u8] + payload
}

/// Builds the framed form of an object.
pub fn encode_frame(kind: ObjectKind, payload: &[u8]) -> (r: Vec<u8>)
    ensures
        r@ == frame(kind, payload@),
{
    let mut v = kind.tag_bytes();
    v.push(32u8);
    push_decimal(&mut v, payload.len() as u64);
    v.push(0u8);
    push_all(&mut v, payload);
    v
}

/// How reading a framed object can fail.
#[derive(Clone, Copy, Debug, PartialEq, Eq)]
pub enum FrameError {
    /// The frame carries another type tag.
    WrongType,
    /// No NUL separates the header from the payload.
    NoSeparator,
}

/// The payload of a framed object expected to be of the given kind.
pub open spec fn unframe(kind: ObjectKind, f: Seq<u8>) -> Result<Seq<u8>, FrameError> {
    let prefix = kind.tag() + seq![32u8];
    if !(prefix.len() <= f.len() && f.take(prefix.len() as int) == prefix) {
        Err(FrameError::WrongType)
    } else {
        match find_from(f, 0, 0) {
            Some(n) => Ok(f.skip(n + 1)),
            None => Err(FrameError::NoSeparator),
        }
    }
}

/// Checks the type tag of a framed object and returns its payload.
pub fn decode_frame(kind: ObjectKind, f: &[u8]) -> (r: Result<Vec<u8>, FrameError>)
    ensures
        match r {
            Ok(p) => unframe(kind, f@) == Ok::<Seq<u8>, FrameError>(p@),
            Err(e) => unframe(kind, f@) == Err::<Seq<u8>, FrameError>(e),
        },
{
    let mut prefix = kind.tag_bytes();
    prefix.push(32u8);
    assert(prefix@ == kind.tag() + seq![32u8]);
    if prefix.len() > f.len() {
        return Err(FrameError::WrongType);
    }
    let head = copy_range(f, 0, prefix.len());
    if !crate::bytes::bytes_equal(head.as_slice(), prefix.as_slice()) {
        assert(head@ == f@.take(prefix@.len() as int));
        return Err(FrameError::WrongType);
    }
    assert(head@ == f@.take(prefix@.len() as int));
    match find_byte(f, 0u8, 0) {
        Some(n) => Ok(copy_range(f, n + 1, f.len())),
        None => Err(FrameError::NoSeparator),
    }
}

/// Every byte of `decimal(n)` is an ASCII digit, and there is at least one.
pub proof fn lemma_decimal_digits(n: nat)
    ensures
        decimal(n).len() >= 1,
        forall|i: int| 0 <= i < decimal(n).len() ==> 48 <= #[trigger] decimal(n)[i] <= 57,
    decreases n,
{
    if n >= 10 {
        lemma_decimal_digits(n / 10);
    }
}

/// Unframing a framed object with its own kind gives back its payload.
pub proof fn lemma_unframe_frame(kind: ObjectKind, p: Seq<u8>)
    ensures
        unframe(kind, frame(kind, p)) == Ok::<Seq<u8>, FrameError>(p),
{
    let f = frame(kind, p);
    let t = kind.tag();
    let d = decimal(p.len());
    lemma_decimal_digits(p.len());
    let n: int = t.len() + 1 + d.len() as int;
    assert(f.take(t.len() as int + 1) =~= t + seq![32u8]);
    assert(f[n] == 0u8);
    assert forall|j: int| 0 <= j < n implies f[j] != 0u8 by {
        if j < t.len() {
            assert(f[j] == t[j]);
        } else if j > t.len() {
            assert(f[j] == d[j - t.len() - 1]);
        }
    }
    lemma_find_first(f, 0u8, 0, n);
    assert(f.skip(n + 1) =~= p);
}

/// Unframing a framed object with another kind fails on its type tag.
pub proof fn lemma_unframe_other_kind(kind: ObjectKind, other: ObjectKind, p: Seq<u8>)
    requires
        kind != other,
    ensures
        unframe(other, frame(kind, p)) == Err::<Seq<u8>, FrameError>(FrameError::WrongType),
{
    let f = frame(kind, p);
    let pre = other.tag() + seq![32u8];
    if pre.len() <= f.len() && f.take(pre.len() as int) == pre {
        assert(f[0] == kind.tag()[0]);
        assert(f.take(pre.len() as int)[0] == pre[0]);
    }
}

} // verus!
