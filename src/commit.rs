use vstd::prelude::*;
use vstd::string::StringSliceAdditionalSpecFns;
use vstd::utf8::encode_utf8;
use crate::bytes::{bytes_equal, copy_range, find_byte, find_from, lemma_find_first, lemma_find_from_bounds, lemma_find_shift, push_all};
use crate::codec::{decimal, lemma_decimal_digits, push_decimal};
use crate::hash::{hex_text, lemma_hex_bytes, lemma_hex_round_trip, parse_hash, HASH_LEN};

verus! {

/// The key of the header line naming the tree.
pub open spec fn key_tree() -> Seq<u8> {
    seq![116u8, 114, 101, 101]
}

/// The key of the header line naming the parent.
pub open spec fn key_parent() -> Seq<u8> {
    seq![112u8, 97, 114, 101, 110, 116]
}

/// The key of the author line.
pub open spec fn key_author() -> Seq<u8> {
    seq![97u8, 117, 116, 104, 111, 114]
}

/// The key of the committer line.
pub open spec fn key_committer() -> Seq<u8> {
    seq![99u8, 111, 109, 109, 105, 116, 116, 101, 114]
}

/// A hash as the bytes of its hex text.
pub open spec fn hex_bytes(h: Seq<u8>) -> Seq<u8> {
    encode_utf8(hex_text(h))
}

/// A header line `<key> <hex>\n` naming a hash.
pub open spec fn hash_line(key: Seq<u8>, h: Seq<u8>) -> Seq<u8> {
    key + seq![32u8] + hex_bytes(h) + seq![10u8]
}

/// An identity line `<key> <user> <<email>> <time> +0000\n`.
pub open spec fn person_line(key: Seq<u8>, user: Seq<u8>, email: Seq<u8>, t: nat) -> Seq<u8> {
    key + seq![32u8] + user + seq![32u8, 60] + email + seq![62u8, 32] + decimal(t) + seq![
        32u8,
        43,
        48,
        48,
        48,
        48,
        10,
    ]
}

/// The payload of a commit: tree line, optional parent line, author and
/// committer lines, a blank line, the message and a final newline.
pub open spec fn commit_payload(
    tree: Seq<u8>,
    parent: Option<Seq<u8>>,
    user: Seq<u8>,
    email: Seq<u8>,
    t: nat,
    msg: Seq<u8>,
) -> Seq<u8> {
    hash_line(key_tree(), tree) + match parent {
        Some(p) => hash_line(key_parent(), p),
        None => Seq::<u8>::empty(),
    } + person_line(key_author(), user, email, t) + person_line(key_committer(), user, email, t)
        + seq![10u8] + msg + seq![10u8]
}

fn push_hash_line(v: &mut Vec<u8>, key: Vec<u8>, h: &crate::hash::Hash)
    ensures
        final(v)@ == old(v)@ + hash_line(key@, h@),
{
    push_all(v, key.as_slice());
    v.push(32u8);
    let text = h.to_hex();
    push_all(v, text.as_str().as_bytes());
    v.push(10u8);
    assert(final(v)@ =~= old(v)@ + hash_line(key@, h@));
}

fn push_person_line(v: &mut Vec<u8>, key: Vec<u8>, user: &str, email: &str, t: u64)
    ensures
        final(v)@ == old(v)@ + person_line(key@, user.spec_bytes(), email.spec_bytes(), t as nat),
{
    let ghost v0 = v@;
    push_all(v, key.as_slice());
    v.push(32u8);
    push_all(v, user.as_bytes());
    v.push(32u8);
    v.push(60u8);
    push_all(v, email.as_bytes());
    v.push(62u8);
    v.push(32u8);
    let ghost v1 = v@;
    push_decimal(v, t);
    let ghost v2 = v@;
    let tail = vec![32u8, 43, 48, 48, 48, 48, 10];
    push_all(v, tail.as_slice());
    assert(v@ =~= v0 + person_line(key@, user.spec_bytes(), email.spec_bytes(), t as nat));
}

/// Encodes a commit's payload.
pub fn encode_commit(
    tree: &crate::hash::Hash,
    parent: &Option<crate::hash::Hash>,
    user: &str,
    email: &str,
    timestamp: u64,
    msg: &str,
) -> (r: Vec<u8>)
    ensures
        r@ == commit_payload(
            tree@,
            opt_view(parent),
            user.spec_bytes(),
            email.spec_bytes(),
            timestamp as nat,
            msg.spec_bytes(),
        ),
{
    let mut v: Vec<u8> = Vec::new();
    push_hash_line(&mut v, vec![116u8, 114, 101, 101], tree);
    let ghost v1 = v@;
    match parent {
        Some(p) => push_hash_line(&mut v, vec![112u8, 97, 114, 101, 110, 116], p),
        None => {},
    }
    let ghost v2 = v@;
    push_person_line(&mut v, vec![97u8, 117, 116, 104, 111, 114], user, email, timestamp);
    push_person_line(
        &mut v,
        vec![99u8, 111, 109, 109, 105, 116, 116, 101, 114],
        user,
        email,
        timestamp,
    );
    v.push(10u8);
    push_all(&mut v, msg.as_bytes());
    v.push(10u8);
    assert(v@ =~= commit_payload(
        tree@,
        opt_view(parent),
        user.spec_bytes(),
        email.spec_bytes(),
        timestamp as nat,
        msg.spec_bytes(),
    ));
    v
}

/// The view of an optional hash.
pub open spec fn opt_view(o: &Option<crate::hash::Hash>) -> Option<Seq<u8>> {
    match o {
        Some(h) => Some(h@),
        None => None,
    }
}

/// A header line split at its first space into key and value; a line
/// without a space is all key.
pub open spec fn split_key(line: Seq<u8>) -> (Seq<u8>, Seq<u8>) {
    match find_from(line, 32, 0) {
        Some(s) => (line.take(s), line.skip(s + 1)),
        None => (line, seq![]),
    }
}

/// What a commit payload names: its tree, its parent and its message.
pub type CommitFields = (Option<Seq<u8>>, Option<Seq<u8>>, Seq<u8>);

/// Reads the header lines from `pos` on, up to the first empty line, and
/// returns the tree and parent found (the last of each wins) and every byte
/// after that empty line as the message. `None` where no empty line comes or
/// a tree or parent value is not a 40-digit hex hash. Other keys are skipped.
pub open spec fn parse_commit_from(
    b: Seq<u8>,
    pos: int,
    tree: Option<Seq<u8>>,
    parent: Option<Seq<u8>>,
) -> Option<CommitFields>
    decreases b.len() - pos,
{
    if pos < 0 || pos > b.len() {
        None
    } else {
        match find_from(b, 10, pos) {
            None => None,
            Some(j) => if j < pos || j >= b.len() {
                None
            } else if j == pos {
                Some((tree, parent, b.skip(j + 1)))
            } else {
                let kv = split_key(b.subrange(pos, j));
                if kv.0 == key_tree() {
                    match parse_hash(kv.1) {
                        Some(h) => parse_commit_from(b, j + 1, Some(h), parent),
                        None => None,
                    }
                } else if kv.0 == key_parent() {
                    match parse_hash(kv.1) {
                        Some(h) => parse_commit_from(b, j + 1, tree, Some(h)),
                        None => None,
                    }
                } else {
                    parse_commit_from(b, j + 1, tree, parent)
                }
            },
        }
    }
}

/// The fields of a commit payload.
pub open spec fn parse_commit(b: Seq<u8>) -> Option<CommitFields> {
    parse_commit_from(b, 0, None, None)
}

/// The decoded header of a commit: its tree, its parent and its message bytes.
pub struct CommitHeader {
    pub tree: Option<crate::hash::Hash>,
    pub parent: Option<crate::hash::Hash>,
    pub msg: Vec<u8>,
}

/// Decodes a commit payload; `None` where it is malformed.
pub fn decode_commit(b: &[u8]) -> (r: Option<CommitHeader>)
    ensures
        match r {
            Some(c) => parse_commit(b@) == Some((opt_view(&c.tree), opt_view(&c.parent), c.msg@)),
            None => parse_commit(b@) is None,
        },
{
    let mut tree: Option<crate::hash::Hash> = None;
    let mut parent: Option<crate::hash::Hash> = None;
    let mut pos: usize = 0;
    let blen = b.len();
    let key_t = vec![116u8, 114, 101, 101];
    let key_p = vec![112u8, 97, 114, 101, 110, 116];
    loop
        invariant
            pos <= b@.len(),
            blen == b@.len(),
            key_t@ == key_tree(),
            key_p@ == key_parent(),
            parse_commit(b@) == parse_commit_from(b@, pos as int, opt_view(&tree), opt_view(&parent)),
        decreases b@.len() - pos,
    {
        let j = match find_byte(b, 10u8, pos) {
            Some(j) => j,
            None => return None,
        };
        if j == pos {
            return Some(CommitHeader { tree, parent, msg: copy_range(b, j + 1, b.len()) });
        }
        let line = copy_range(b, pos, j);
        let (key, value) = match find_byte(line.as_slice(), 32u8, 0) {
            Some(s) => (copy_range(line.as_slice(), 0, s), copy_range(line.as_slice(), s + 1, line.len())),
            None => (line, Vec::new()),
        };
        assert(key@ == split_key(b@.subrange(pos as int, j as int)).0);
        assert(value@ =~= split_key(b@.subrange(pos as int, j as int)).1);
        if bytes_equal(key.as_slice(), key_t.as_slice()) {
            match crate::hash::Hash::from_hex_bytes(value.as_slice()) {
                Some(h) => tree = Some(h),
                None => return None,
            }
        } else if bytes_equal(key.as_slice(), key_p.as_slice()) {
            match crate::hash::Hash::from_hex_bytes(value.as_slice()) {
                Some(h) => parent = Some(h),
                None => return None,
            }
        }
        pos = j + 1;
    }
}

proof fn lemma_parse_shift(pre: Seq<u8>, r: Seq<u8>, k: int, tree: Option<Seq<u8>>, parent: Option<Seq<u8>>)
    requires
        0 <= k <= r.len(),
    ensures
        parse_commit_from(pre + r, pre.len() + k, tree, parent) == parse_commit_from(r, k, tree, parent),
    decreases r.len() - k,
{
    let b = pre + r;
    let pos = pre.len() + k;
    lemma_find_shift(pre, r, 10, k);
    lemma_find_from_bounds(r, 10, k);
    match find_from(r, 10, k) {
        None => {},
        Some(j) => {
            assert(b.subrange(pos, pre.len() + j) =~= r.subrange(k, j));
            assert(b.skip(pre.len() + j + 1) =~= r.skip(j + 1));
            if j > k {
                let kv = split_key(r.subrange(k, j));
                if kv.0 == key_tree() {
                    match parse_hash(kv.1) {
                        Some(h) => lemma_parse_shift(pre, r, j + 1, Some(h), parent),
                        None => {},
                    }
                } else if kv.0 == key_parent() {
                    match parse_hash(kv.1) {
                        Some(h) => lemma_parse_shift(pre, r, j + 1, tree, Some(h)),
                        None => {},
                    }
                } else {
                    lemma_parse_shift(pre, r, j + 1, tree, parent);
                }
            }
        },
    }
}

/// Whether `s` holds no byte `x`.
pub open spec fn lacks_byte(s: Seq<u8>, x: u8) -> bool {
    forall|i: int| 0 <= i < s.len() ==> s[i] != x
}

proof fn lemma_parse_line(line: Seq<u8>, rest: Seq<u8>, tree: Option<Seq<u8>>, parent: Option<Seq<u8>>)
    requires
        line.len() > 0,
        lacks_byte(line, 10),
    ensures
        ({
            let kv = split_key(line);
            parse_commit_from(line + seq![10u8] + rest, 0, tree, parent) == if kv.0 == key_tree() {
                match parse_hash(kv.1) {
                    Some(h) => parse_commit_from(rest, 0, Some(h), parent),
                    None => None,
                }
            } else if kv.0 == key_parent() {
                match parse_hash(kv.1) {
                    Some(h) => parse_commit_from(rest, 0, tree, Some(h)),
                    None => None,
                }
            } else {
                parse_commit_from(rest, 0, tree, parent)
            }
        }),
{
    let pre = line + seq![10u8];
    let b = pre + rest;
    assert forall|j: int| 0 <= j < line.len() implies b[j] != 10u8 by {
        assert(b[j] == line[j]);
    }
    lemma_find_first(b, 10, 0, line.len() as int);
    assert(b.subrange(0, line.len() as int) =~= line);
    let kv = split_key(line);
    match parse_hash(kv.1) {
        Some(h) => {
            lemma_parse_shift(pre, rest, 0, Some(h), parent);
            lemma_parse_shift(pre, rest, 0, tree, Some(h));
        },
        None => {},
    }
    lemma_parse_shift(pre, rest, 0, tree, parent);
}

proof fn lemma_lacks_concat(a: Seq<u8>, b: Seq<u8>, x: u8)
    requires
        lacks_byte(a, x),
        lacks_byte(b, x),
    ensures
        lacks_byte(a + b, x),
{
    assert forall|i: int| 0 <= i < (a + b).len() implies (a + b)[i] != x by {
        if i < a.len() {
            assert((a + b)[i] == a[i]);
        } else {
            assert((a + b)[i] == b[i - a.len()]);
        }
    }
}

proof fn lemma_hash_line_parts(key: Seq<u8>, h: Seq<u8>)
    requires
        lacks_byte(key, 10),
        lacks_byte(key, 32),
        h.len() == HASH_LEN,
    ensures
        lacks_byte(key + seq![32u8] + hex_bytes(h), 10),
        split_key(key + seq![32u8] + hex_bytes(h)) == (key, hex_bytes(h)),
        parse_hash(hex_bytes(h)) == Some(h),
        hash_line(key, h) == key + seq![32u8] + hex_bytes(h) + seq![10u8],
{
    lemma_hex_bytes(h);
    lemma_hex_round_trip(h);
    assert(lacks_byte(hex_bytes(h), 10));
    lemma_lacks_concat(key, seq![32u8], 10);
    lemma_lacks_concat(key + seq![32u8], hex_bytes(h), 10);
    lemma_split_key(key, hex_bytes(h));
}

proof fn lemma_person_line_parts(key: Seq<u8>, user: Seq<u8>, email: Seq<u8>, t: nat)
    requires
        lacks_byte(key, 10),
        lacks_byte(key, 32),
        lacks_byte(user, 10),
        lacks_byte(email, 10),
    ensures
        person_line(key, user, email, t) == person_line(key, user, email, t).drop_last() + seq![10u8],
        lacks_byte(person_line(key, user, email, t).drop_last(), 10),
        split_key(person_line(key, user, email, t).drop_last()).0 == key,
        person_line(key, user, email, t).drop_last().len() > 0,
{
    let tail = user + seq![32u8, 60] + email + seq![62u8, 32] + decimal(t) + seq![32u8, 43, 48, 48, 48, 48];
    let line = key + seq![32u8] + tail;
    assert(person_line(key, user, email, t) =~= line + seq![10u8]);
    assert(person_line(key, user, email, t).drop_last() =~= line);
    lemma_decimal_digits(t);
    assert(lacks_byte(decimal(t), 10));
    assert(lacks_byte(seq![32u8, 60], 10));
    assert(lacks_byte(seq![62u8, 32], 10));
    assert(lacks_byte(seq![32u8, 43, 48, 48, 48, 48], 10));
    assert(lacks_byte(seq![32u8], 10));
    lemma_lacks_concat(user, seq![32u8, 60], 10);
    lemma_lacks_concat(user + seq![32u8, 60], email, 10);
    lemma_lacks_concat(user + seq![32u8, 60] + email, seq![62u8, 32], 10);
    lemma_lacks_concat(user + seq![32u8, 60] + email + seq![62u8, 32], decimal(t), 10);
    lemma_lacks_concat(user + seq![32u8, 60] + email + seq![62u8, 32] + decimal(t), seq![32u8, 43, 48, 48, 48, 48], 10);
    lemma_lacks_concat(key, seq![32u8], 10);
    lemma_lacks_concat(key + seq![32u8], tail, 10);
    lemma_split_key(key, tail);
}

/// Parsing an encoded commit gives back its tree, its parent, and its
/// message followed by a newline, where the identity holds no newline.
pub proof fn lemma_commit_round_trip(
    tree: Seq<u8>,
    parent: Option<Seq<u8>>,
    user: Seq<u8>,
    email: Seq<u8>,
    t: nat,
    msg: Seq<u8>,
)
    requires
        tree.len() == HASH_LEN,
        parent matches Some(p) ==> p.len() == HASH_LEN,
        lacks_byte(user, 10),
        lacks_byte(email, 10),
    ensures
        parse_commit(commit_payload(tree, parent, user, email, t, msg)) == Some(
            (Some(tree), parent, msg + seq![10u8]),
        ),
{
    assert(lacks_byte(key_tree(), 10) && lacks_byte(key_tree(), 32));
    assert(lacks_byte(key_parent(), 10) && lacks_byte(key_parent(), 32));
    assert(lacks_byte(key_author(), 10) && lacks_byte(key_author(), 32));
    assert(lacks_byte(key_committer(), 10) && lacks_byte(key_committer(), 32));
    assert(key_author() != key_tree());
    assert(key_author()[0] != key_parent()[0]);
    assert(key_author() != key_parent());
    assert(key_committer() != key_tree());
    assert(key_committer() != key_parent());
    lemma_hash_line_parts(key_tree(), tree);
    lemma_person_line_parts(key_author(), user, email, t);
    lemma_person_line_parts(key_committer(), user, email, t);
    let a = person_line(key_author(), user, email, t);
    let c = person_line(key_committer(), user, email, t);
    let tail = seq![10u8] + msg + seq![10u8];
    let after = a + c + tail;
    let pl = match parent {
        Some(p) => hash_line(key_parent(), p),
        None => Seq::<u8>::empty(),
    };
    let line1 = key_tree() + seq![32u8] + hex_bytes(tree);
    assert(commit_payload(tree, parent, user, email, t, msg) =~= line1 + seq![10u8] + (pl + after));
    lemma_parse_line(line1, pl + after, None, None);
    // Blank line and message.
    assert(find_from(tail, 10, 0) == Some(0int));
    assert(tail.skip(1) =~= msg + seq![10u8]);
    assert(parse_commit_from(tail, 0, Some(tree), parent) == Some((Some(tree), parent, msg + seq![10u8])));
    // Committer and author lines.
    assert(c + tail =~= c.drop_last() + seq![10u8] + tail);
    lemma_parse_line(c.drop_last(), tail, Some(tree), parent);
    assert(after =~= a.drop_last() + seq![10u8] + (c + tail));
    lemma_parse_line(a.drop_last(), c + tail, Some(tree), parent);
    match parent {
        Some(p) => {
            lemma_hash_line_parts(key_parent(), p);
            let line2 = key_parent() + seq![32u8] + hex_bytes(p);
            assert(pl + after =~= line2 + seq![10u8] + after);
            lemma_parse_line(line2, after, Some(tree), None);
        },
        None => {
            assert(pl + after =~= after);
        },
    }
}

proof fn lemma_split_key(key: Seq<u8>, rest: Seq<u8>)
    requires
        lacks_byte(key, 32),
    ensures
        split_key(key + seq![32u8] + rest) == (key, rest),
{
    let line = key + seq![32u8] + rest;
    assert forall|j: int| 0 <= j < key.len() implies line[j] != 32u8 by {
        assert(line[j] == key[j]);
    }
    lemma_find_first(line, 32, 0, key.len() as int);
    assert(line.take(key.len() as int) =~= key);
    assert(line.skip(key.len() as int + 1) =~= rest);
}

} // verus!
