use sha1::Digest;
use vstd::prelude::*;
use crate::bytes::{bytes_equal, copy_range};
use vstd::string::StringSliceAdditionalSpecFns;

verus! {

/// Number of bytes in an object hash.
pub const HASH_LEN: usize = 20;

/// The lowercase hexadecimal digits, indexed by their value.
pub open spec fn hex_alphabet() -> Seq<char> {
    seq!['0', '1', '2', '3', '4', '5', '6', '7', '8', '9', 'a', 'b', 'c', 'd', 'e', 'f']
}

/// The value of the `i`-th hex digit of `b`: high nibble first.
pub open spec fn nibble(b: Seq<u8>, i: int) -> u8 {
    if i % 2 == 0 {
        b[i / 2] / 16
    } else {
        b[i / 2] % 16
    }
}

/// Two lowercase hex digits per byte, high nibble first.
pub open spec fn hex_text(b: Seq<u8>) -> Seq<char> {
    Seq::new((2 * b.len()) as nat, |i: int| hex_alphabet()[nibble(b, i) as int])
}

/// The ASCII code of the lowercase hex digit for `n`.
pub open spec fn hex_digit_byte(n: u8) -> u8 {
    if n < 10 {
        (48 + n) as u8
    } else {
        (87 + n) as u8
    }
}

/// Value of one hex digit, upper or lower case.
pub open spec fn hex_val(c: u8) -> Option<u8> {
    if 48 <= c <= 57 {
        Some((c - 48) as u8)
    } else if 97 <= c <= 102 {
        Some((c - 87) as u8)
    } else if 65 <= c <= 70 {
        Some((c - 55) as u8)
    } else {
        None
    }
}

/// Bytes written as pairs of hex digits; `None` on an odd length or a non-digit.
pub open spec fn unhex(s: Seq<u8>) -> Option<Seq<u8>>
    decreases s.len(),
{
    if s.len() == 0 {
        Some(seq![])
    } else if s.len() == 1 {
        None
    } else {
        match (hex_val(s[0]), hex_val(s[1]), unhex(s.subrange(2, s.len() as int))) {
            (Some(hi), Some(lo), Some(rest)) => Some(seq![(hi * 16 + lo) as u8] + rest),
            _ => None,
        }
    }
}

/// The hash written in a text of hex digits, if the text is exactly that.
pub open spec fn parse_hash(s: Seq<u8>) -> Option<Seq<u8>> {
    match unhex(s) {
        Some(b) => if b.len() == HASH_LEN {
            Some(b)
        } else {
            None
        },
        None => None,
    }
}

/// The SHA-1 digest of a byte sequence.
pub uninterp spec fn sha1_of(b: Seq<u8>) -> Seq<u8>;

/// Relies on hex::encode: two lowercase digits for each byte, in order.
#[verifier::external_body]
fn hex_encode(b: &[u8]) -> (r: String)
    ensures
        r@ == hex_text(b@),
{
    hex::encode(b)
}

/// Relies on hex::decode: fails on an odd length or a byte that is no hex digit
/// of either case, and otherwise returns one byte for each pair of digits.
#[verifier::external_body]
fn hex_decode(s: &[u8]) -> (r: Option<Vec<u8>>)
    ensures
        match r {
            Some(v) => unhex(s@) == Some(v@),
            None => unhex(s@) is None,
        },
{
    hex::decode(s).ok()
}

/// Relies on sha1::Sha1: the digest of the input, 20 bytes long.
#[verifier::external_body]
pub(crate) fn sha1_sum(b: &[u8]) -> (r: Vec<u8>)
    ensures
        r@ == sha1_of(b@),
        r@.len() == HASH_LEN,
{
    sha1::Sha1::digest(b).to_vec()
}

proof fn lemma_alphabet(n: u8)
    requires
        n < 16,
    ensures
        hex_alphabet()[n as int] as u8 == hex_digit_byte(n),
        '\0' <= hex_alphabet()[n as int] <= '\u{7f}',
        hex_val(hex_digit_byte(n)) == Some(n),
{
    if n == 0 {} else if n == 1 {} else if n == 2 {} else if n == 3 {} else if n == 4 {}
    else if n == 5 {} else if n == 6 {} else if n == 7 {} else if n == 8 {} else if n == 9 {}
    else if n == 10 {} else if n == 11 {} else if n == 12 {} else if n == 13 {} else if n == 14 {}
    else {}
}

/// The hex digits of `b` as ASCII bytes.
pub open spec fn hex_ascii(b: Seq<u8>) -> Seq<u8> {
    Seq::new((2 * b.len()) as nat, |i: int| hex_digit_byte(nibble(b, i)))
}

proof fn lemma_unhex_ascii(b: Seq<u8>)
    ensures
        unhex(hex_ascii(b)) == Some(b),
    decreases b.len(),
{
    let s = hex_ascii(b);
    if b.len() > 0 {
        let r = b.drop_first();
        assert(s.subrange(2, s.len() as int) =~= hex_ascii(r)) by {
            assert forall|i: int| 0 <= i < 2 * r.len() implies #[trigger] nibble(b, i + 2) == nibble(r, i) by {
                assert((i + 2) % 2 == i % 2);
                assert((i + 2) / 2 == i / 2 + 1);
            }
        }
        lemma_unhex_ascii(r);
        assert(nibble(b, 0) == b[0] / 16);
        assert(nibble(b, 1) == b[0] % 16);
        lemma_alphabet(b[0] / 16);
        lemma_alphabet(b[0] % 16);
        assert(((b[0] / 16) * 16 + b[0] % 16) as u8 == b[0]);
        assert(seq![b[0]] + r =~= b);
    } else {
        assert(s.len() == 0);
    }
}

/// The UTF-8 bytes of a hex text are its ASCII digits, none a newline or a
/// space.
pub proof fn lemma_hex_bytes(b: Seq<u8>)
    ensures
        vstd::utf8::encode_utf8(hex_text(b)) == hex_ascii(b),
        hex_ascii(b).len() == 2 * b.len(),
        forall|i: int| 0 <= i < hex_ascii(b).len() ==> #[trigger] hex_ascii(b)[i] != 10u8
            && hex_ascii(b)[i] != 32u8,
{
    let t = hex_text(b);
    assert forall|i: int| 0 <= i < t.len() implies '\0' <= #[trigger] t[i] <= '\u{7f}' by {
        lemma_alphabet(nibble(b, i));
    }
    vstd::utf8::is_ascii_chars_encode_utf8(t);
    assert(vstd::utf8::encode_utf8(t) =~= hex_ascii(b)) by {
        assert forall|i: int| 0 <= i < t.len() implies vstd::utf8::encode_utf8(t)[i] == #[trigger] hex_ascii(b)[i] by {
            lemma_alphabet(nibble(b, i));
            assert(t[i] as u8 == vstd::utf8::encode_utf8(t)[i]);
        }
    }
}

/// Writing a hash in hex and parsing the text back gives the same hash.
pub proof fn lemma_hex_round_trip(b: Seq<u8>)
    requires
        b.len() == HASH_LEN,
    ensures
        parse_hash(vstd::utf8::encode_utf8(hex_text(b))) == Some(b),
{
    lemma_hex_bytes(b);
    lemma_unhex_ascii(b);
}

/// A 20-byte object hash.
#[derive(Clone, Debug)]
pub struct Hash(pub Vec<u8>);

impl View for Hash {
    type V = Seq<u8>;

    open spec fn view(&self) -> Seq<u8> {
        self.0@
    }
}

impl PartialEq for Hash {
    fn eq(&self, o: &Hash) -> (r: bool) {
        bytes_equal(self.0.as_slice(), o.0.as_slice())
    }
}

impl vstd::std_specs::cmp::PartialEqSpecImpl for Hash {
    open spec fn obeys_eq_spec() -> bool {
        true
    }

    open spec fn eq_spec(&self, o: &Hash) -> bool {
        self@ == o@
    }
}

impl Eq for Hash {
}

impl Hash {
    /// A hash has exactly twenty bytes.
    pub open spec fn wf(&self) -> bool {
        self@.len() == HASH_LEN
    }

    /// Builds a hash from exactly twenty bytes.
    pub fn from_bytes(b: &[u8]) -> (r: Option<Hash>)
        ensures
            match r {
                Some(h) => b@.len() == HASH_LEN && h@ == b@,
                None => b@.len() != HASH_LEN,
            },
    {
        if b.len() == HASH_LEN {
            Some(Hash(copy_range(b, 0, b.len())))
        } else {
            None
        }
    }

    /// A copy of this hash.
    pub fn duplicate(&self) -> (r: Hash)
        ensures
            r@ == self@,
    {
        Hash(self.0.clone())
    }

    /// The hash as 40 lowercase hex digits.
    pub fn to_hex(&self) -> (r: String)
        ensures
            r@ == hex_text(self@),
    {
        hex_encode(self.0.as_slice())
    }

    /// Same as `to_hex`.
    pub fn to_string(&self) -> (r: String)
        ensures
            r@ == hex_text(self@),
    {
        self.to_hex()
    }

    /// Parses a hash from hex digits given as bytes.
    pub fn from_hex_bytes(s: &[u8]) -> (r: Option<Hash>)
        ensures
            match r {
                Some(h) => parse_hash(s@) == Some(h@),
                None => parse_hash(s@) is None,
            },
    {
        match hex_decode(s) {
            Some(v) => if v.len() == HASH_LEN {
                Some(Hash(v))
            } else {
                None
            },
            None => None,
        }
    }

    /// Parses a hash from exactly 40 hex digits (either case).
    pub fn from_hex(s: &str) -> (r: Option<Hash>)
        ensures
            match r {
                Some(h) => parse_hash(s.spec_bytes()) == Some(h@),
                None => parse_hash(s.spec_bytes()) is None,
            },
    {
        Hash::from_hex_bytes(s.as_bytes())
    }
}

} // verus!
