use vstd::prelude::*;
use crate::bytes::{copy_range, find_byte, find_from, lemma_find_first, push_all};
use crate::hash::HASH_LEN;

verus! {

/// A tree entry as bytes: mode, name and raw hash.
pub type EntryView = (Seq<u8>, Seq<u8>, Seq<u8>);

/// One entry of a tree: a mode, a name and the raw hash of a blob.
#[derive(Clone, Debug)]
pub struct TreeEntry {
    pub mode: Vec<u8>,
    pub name: Vec<u8>,
    pub hash: crate::hash::Hash,
}

impl View for TreeEntry {
    type V = EntryView;

    open spec fn view(&self) -> EntryView {
        (self.mode@, self.name@, self.hash@)
    }
}

/// The views of a sequence of entries.
pub open spec fn entries_view(s: Seq<TreeEntry>) -> Seq<EntryView> {
    s.map_values(|e: TreeEntry| e@)
}

/// The encoding of one entry: `<mode> <name>\0` and the raw hash.
pub open spec fn entry_bytes(e: EntryView) -> Seq<u8> {
    e.0 + seq![32u8] + e.1 + seq![0u8] + e.2
}

/// The payload of a tree: its entries' encodings, in order, with no separator.
pub open spec fn tree_payload(es: Seq<EntryView>) -> Seq<u8>
    decreases es.len(),
{
    if es.len() == 0 {
        seq![]
    } else {
        entry_bytes(es[0]) + tree_payload(es.drop_first())
    }
}

/// The entries that a tree payload holds, or `None` where it is malformed:
/// a NUL or the space before the name is missing, or fewer than 20 bytes
/// follow a NUL.
pub open spec fn parse_tree(b: Seq<u8>) -> Option<Seq<EntryView>>
    decreases b.len(),
{
    if b.len() == 0 {
        Some(seq![])
    } else {
        match find_from(b, 0, 0) {
            None => None,
            Some(n) => if n < 0 || n + 1 + HASH_LEN > b.len() {
                None
            } else {
                let head = b.take(n);
                match find_from(head, 32, 0) {
                    None => None,
                    Some(s) => match parse_tree(b.skip(n + 1 + HASH_LEN)) {
                        None => None,
                        Some(rest) => Some(
                            seq![(head.take(s), head.skip(s + 1), b.subrange(n + 1, n + 1 + HASH_LEN))]
                                + rest,
                        ),
                    },
                }
            },
        }
    }
}

/// `Some(a + r)` where `o` is `Some(r)`.
pub open spec fn prepend(a: Seq<EntryView>, o: Option<Seq<EntryView>>) -> Option<Seq<EntryView>> {
    match o {
        Some(r) => Some(a + r),
        None => None,
    }
}

proof fn lemma_tree_payload_push(es: Seq<EntryView>, e: EntryView)
    ensures
        tree_payload(es.push(e)) == tree_payload(es) + entry_bytes(e),
    decreases es.len(),
{
    if es.len() == 0 {
        assert(es.push(e).drop_first() =~= Seq::<EntryView>::empty());
        assert(tree_payload(es.push(e).drop_first()) == Seq::<u8>::empty());
        assert(es.push(e)[0] == e);
        assert(tree_payload(es.push(e)) =~= entry_bytes(e));
    } else {
        assert(es.push(e).drop_first() =~= es.drop_first().push(e));
        lemma_tree_payload_push(es.drop_first(), e);
        assert(tree_payload(es.push(e)) =~= tree_payload(es) + entry_bytes(e));
    }
}

/// Encodes the entries of a tree as its payload.
pub fn encode_tree(entries: &[TreeEntry]) -> (r: Vec<u8>)
    ensures
        r@ == tree_payload(entries_view(entries@)),
{
    let mut v: Vec<u8> = Vec::new();
    let mut i: usize = 0;
    while i < entries.len()
        invariant
            i <= entries@.len(),
            v@ == tree_payload(entries_view(entries@.take(i as int))),
        decreases entries.len() - i,
    {
        let e = &entries[i];
        push_all(&mut v, e.mode.as_slice());
        v.push(32u8);
        push_all(&mut v, e.name.as_slice());
        v.push(0u8);
        push_all(&mut v, e.hash.0.as_slice());
        proof {
            assert(entries_view(entries@.take(i + 1)) =~= entries_view(entries@.take(i as int)).push(
                entries@[i as int]@,
            ));
            lemma_tree_payload_push(entries_view(entries@.take(i as int)), entries@[i as int]@);
        }
        i = i + 1;
    }
    assert(entries@.take(i as int) =~= entries@);
    v
}

/// Decodes a tree payload into its entries; `None` where it is malformed.
pub fn decode_tree(b: &[u8]) -> (r: Option<Vec<TreeEntry>>)
    ensures
        match r {
            Some(es) => parse_tree(b@) == Some(entries_view(es@)),
            None => parse_tree(b@) is None,
        },
{
    let mut acc: Vec<TreeEntry> = Vec::new();
    let mut cur: Vec<u8> = copy_range(b, 0, b.len());
    assert(cur@ =~= b@);
    while cur.len() > 0
        invariant
            parse_tree(b@) == prepend(entries_view(acc@), parse_tree(cur@)),
        decreases cur.len(),
    {
        let n = match find_byte(cur.as_slice(), 0u8, 0) {
            Some(n) => n,
            None => return None,
        };
        if cur.len() - n < 1 + HASH_LEN {
            return None;
        }
        let head = copy_range(cur.as_slice(), 0, n);
        let s = match find_byte(head.as_slice(), 32u8, 0) {
            Some(s) => s,
            None => {
                assert(head@ == cur@.take(n as int));
                return None;
            },
        };
        assert(head@ == cur@.take(n as int));
        let e = TreeEntry {
            mode: copy_range(head.as_slice(), 0, s),
            name: copy_range(head.as_slice(), s + 1, n),
            hash: crate::hash::Hash(copy_range(cur.as_slice(), n + 1, n + 1 + HASH_LEN)),
        };
        let next = copy_range(cur.as_slice(), n + 1 + HASH_LEN, cur.len());
        proof {
            assert(head@.skip(s + 1) =~= head@.subrange(s + 1, n as int));
            assert(next@ =~= cur@.skip(n + 1 + HASH_LEN));
            assert(entries_view(acc@.push(e)) =~= entries_view(acc@).push(e@));
            assert(seq![e@] =~= seq![
                (head@.take(s as int), head@.skip(s + 1), cur@.subrange(n + 1, n + 1 + HASH_LEN)),
            ]);
            match parse_tree(next@) {
                Some(rest) => {
                    assert(entries_view(acc@) + (seq![e@] + rest) =~= entries_view(acc@).push(e@)
                        + rest);
                },
                None => {},
            }
        }
        acc.push(e);
        cur = next;
    }
    assert(entries_view(acc@) + seq![] =~= entries_view(acc@));
    Some(acc)
}

/// An entry that decodes as it was written: its mode holds no space and no NUL,
/// its name no NUL, and its hash has twenty bytes.
pub open spec fn entry_encodable(e: EntryView) -> bool {
    &&& forall|i: int| 0 <= i < e.0.len() ==> e.0[i] != 32u8 && e.0[i] != 0u8
    &&& forall|i: int| 0 <= i < e.1.len() ==> e.1[i] != 0u8
    &&& e.2.len() == HASH_LEN
}

/// Decoding the encoding of a sequence of tree entries gives back the same
/// entries, in the same order, where each entry's mode holds no space or NUL,
/// its name no NUL, and its hash twenty bytes.
pub proof fn lemma_tree_round_trip(es: Seq<EntryView>)
    requires
        forall|i: int| 0 <= i < es.len() ==> entry_encodable(#[trigger] es[i]),
    ensures
        parse_tree(tree_payload(es)) == Some(es),
    decreases es.len(),
{
    if es.len() > 0 {
        let e = es[0];
        let rest = es.drop_first();
        assert(forall|i: int| 0 <= i < rest.len() ==> rest[i] == es[i + 1]);
        lemma_tree_round_trip(rest);
        let b = tree_payload(es);
        let eb = entry_bytes(e);
        assert(b == eb + tree_payload(rest));
        assert(entry_encodable(es[0]));
        let m = e.0.len() as int;
        let n = m + 1 + e.1.len();
        assert(b[n] == 0u8);
        assert forall|j: int| 0 <= j < n implies b[j] != 0u8 by {
            if j < m {
                assert(b[j] == e.0[j]);
            } else if j > m {
                assert(b[j] == e.1[j - m - 1]);
            }
        }
        lemma_find_first(b, 0u8, 0, n);
        let head = b.take(n);
        assert(head[m] == 32u8);
        assert forall|j: int| 0 <= j < m implies head[j] != 32u8 by {
            assert(head[j] == e.0[j]);
        }
        lemma_find_first(head, 32u8, 0, m);
        assert(head.take(m) =~= e.0);
        assert(head.skip(m + 1) =~= e.1);
        assert(b.subrange(n + 1, n + 1 + HASH_LEN) =~= e.2);
        assert(b.skip(n + 1 + HASH_LEN) =~= tree_payload(rest));
        assert(seq![e] + rest =~= es);
    }
}

} // verus!
