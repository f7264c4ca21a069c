use vstd::prelude::*;
use crate::bytes::bytes_equal;

verus! {

/// A stored entry as bytes: the object's hash and its compressed frame.
pub type StoredView = (Seq<u8>, Seq<u8>);

/// One object file: its hash and its compressed framed bytes.
#[derive(Clone, Debug)]
pub struct StoredObject {
    pub hash: crate::hash::Hash,
    pub data: Vec<u8>,
}

/// The objects of a repository, in the order they were written. A later
/// object under the same hash replaces an earlier one.
#[derive(Clone, Debug)]
pub struct ObjectStore {
    pub objects: Vec<StoredObject>,
}

/// The data stored under `h`: that of the last entry with that hash.
pub open spec fn lookup(s: Seq<StoredView>, h: Seq<u8>) -> Option<Seq<u8>>
    decreases s.len(),
{
    if s.len() == 0 {
        None
    } else if s.last().0 == h {
        Some(s.last().1)
    } else {
        lookup(s.drop_last(), h)
    }
}

impl View for ObjectStore {
    type V = Seq<StoredView>;

    open spec fn view(&self) -> Seq<StoredView> {
        self.objects@.map_values(|o: StoredObject| (o.hash@, o.data@))
    }
}

impl ObjectStore {
    /// An empty store.
    pub fn new() -> (r: ObjectStore)
        ensures
            r@ == Seq::<StoredView>::empty(),
    {
        let r = ObjectStore { objects: Vec::new() };
        assert(r@ =~= Seq::<StoredView>::empty());
        r
    }

    /// Number of entries held.
    pub fn len(&self) -> (r: usize)
        ensures
            r == self@.len(),
    {
        self.objects.len()
    }

    /// Adds an entry; it replaces any earlier one under the same hash.
    pub fn insert(&mut self, hash: crate::hash::Hash, data: Vec<u8>)
        ensures
            final(self)@ == old(self)@.push((hash@, data@)),
    {
        self.objects.push(StoredObject { hash, data });
        assert(self@ =~= old(self)@.push((hash@, data@)));
    }

    /// The data stored under `h`.
    pub fn get(&self, h: &crate::hash::Hash) -> (r: Option<&Vec<u8>>)
        ensures
            match r {
                Some(d) => lookup(self@, h@) == Some(d@),
                None => lookup(self@, h@) is None,
            },
    {
        let mut i: usize = self.objects.len();
        assert(self@.take(i as int) =~= self@);
        while i > 0
            invariant
                i <= self@.len(),
                self@.len() == self.objects@.len(),
                lookup(self@, h@) == lookup(self@.take(i as int), h@),
            decreases i,
        {
            let o = &self.objects[i - 1];
            assert(self@.take(i as int).drop_last() =~= self@.take(i - 1));
            if bytes_equal(o.hash.0.as_slice(), h.0.as_slice()) {
                return Some(&o.data);
            }
            i = i - 1;
        }
        None
    }
}

} // verus!
