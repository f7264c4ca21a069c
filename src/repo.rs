use vstd::prelude::*;
use vstd::string::StringSliceAdditionalSpecFns;
use vstd::utf8::{decode_utf8, encode_utf8, valid_utf8};
use crate::codec::{decode_frame, encode_frame, frame, lemma_unframe_frame, lemma_unframe_other_kind, unframe, FrameError, ObjectKind};
use crate::commit::{commit_payload, decode_commit, encode_commit, hex_bytes, opt_view, parse_commit};
use crate::compress::{inflate_of, unzip, zip, zlib_of};
use crate::hash::{sha1_of, sha1_sum};
use crate::store::{lookup, ObjectStore, StoredView};
use crate::tree::{decode_tree, encode_tree, parse_tree, tree_payload, EntryView, TreeEntry};

verus! {

/// Why an operation on a repository failed.
#[derive(Clone, Copy, Debug, PartialEq, Eq)]
pub enum GitError {
    /// No object is stored under the hash.
    ObjectNotFound,
    /// The stored bytes do not decompress, or the frame has no separator.
    CorruptObject,
    /// The object is of another kind than the one asked for.
    WrongObjectType,
    /// A tree payload does not parse.
    MalformedTree,
    /// A commit payload does not parse.
    MalformedCommit,
    /// The branch names no commit yet.
    NoCommitsYet,
    /// No commit of the history matches the prefix.
    UnknownCommit,
    /// Following parents leads back to a commit already seen.
    CyclicHistory,
    /// The system clock lies before the Unix epoch.
    Clock,
}

/// The hash of an object of the given kind and payload.
pub open spec fn object_hash(kind: ObjectKind, payload: Seq<u8>) -> Seq<u8> {
    sha1_of(frame(kind, payload))
}

/// The store entry written for an object of the given kind and payload.
pub open spec fn object_entry(kind: ObjectKind, payload: Seq<u8>) -> StoredView {
    (object_hash(kind, payload), zlib_of(frame(kind, payload)))
}

/// The payload of the object stored under `h`, read as an object of `kind`.
pub open spec fn read_spec(s: Seq<StoredView>, kind: ObjectKind, h: Seq<u8>) -> Result<Seq<u8>, GitError> {
    match lookup(s, h) {
        None => Err(GitError::ObjectNotFound),
        Some(z) => match inflate_of(z) {
            None => Err(GitError::CorruptObject),
            Some(f) => match unframe(kind, f) {
                Ok(p) => Ok(p),
                Err(FrameError::WrongType) => Err(GitError::WrongObjectType),
                Err(FrameError::NoSeparator) => Err(GitError::CorruptObject),
            },
        },
    }
}

/// The mode of a regular file, `100644`.
pub open spec fn file_mode() -> Seq<u8> {
    seq![49u8, 48, 48, 54, 52, 52]
}

/// The payload of the one-entry tree naming a file's blob.
pub open spec fn file_tree_payload(name: Seq<u8>, blob: Seq<u8>) -> Seq<u8> {
    tree_payload(seq![(file_mode(), name, blob)])
}

/// The payload of the one-entry tree naming the blob of `data` as `name`.
pub open spec fn file_tree_of(name: Seq<u8>, data: Seq<u8>) -> Seq<u8> {
    file_tree_payload(name, object_hash(ObjectKind::Blob, data))
}

/// The payload of the commit of one file `name` holding `data`.
pub open spec fn file_commit_of(
    name: Seq<u8>,
    data: Seq<u8>,
    parent: Option<Seq<u8>>,
    user: Seq<u8>,
    email: Seq<u8>,
    t: nat,
    msg: Seq<u8>,
) -> Seq<u8> {
    commit_payload(object_hash(ObjectKind::Tree, file_tree_of(name, data)), parent, user, email, t, msg)
}

/// What holds of the entry stored for an object: its hash has twenty bytes
/// and its data decompresses to the object's frame.
pub open spec fn entry_sound(kind: ObjectKind, payload: Seq<u8>) -> bool {
    &&& object_hash(kind, payload).len() == crate::hash::HASH_LEN
    &&& inflate_of(object_entry(kind, payload).1) == Some(frame(kind, payload))
}

/// Reading the object's hash as its own kind gives its payload, and as any
/// other kind fails with `WrongObjectType`.
pub open spec fn reads_as(s: Seq<StoredView>, kind: ObjectKind, payload: Seq<u8>) -> bool {
    &&& read_spec(s, kind, object_hash(kind, payload)) == Ok::<Seq<u8>, GitError>(payload)
    &&& forall|o: ObjectKind| o != kind ==> #[trigger] read_spec(s, o, object_hash(kind, payload))
        == Err::<Seq<u8>, GitError>(GitError::WrongObjectType)
}

/// `s2` is `s` with a file's blob and one-entry tree added; both entries are
/// sound, the tree reads back, and the blob reads back unless the tree's hash
/// equals it.
pub open spec fn tree_written(s: Seq<StoredView>, s2: Seq<StoredView>, name: Seq<u8>, data: Seq<u8>) -> bool {
    let tp = file_tree_of(name, data);
    let hb = object_hash(ObjectKind::Blob, data);
    let ht = object_hash(ObjectKind::Tree, tp);
    &&& s2 == s.push(object_entry(ObjectKind::Blob, data)).push(object_entry(ObjectKind::Tree, tp))
    &&& entry_sound(ObjectKind::Blob, data)
    &&& entry_sound(ObjectKind::Tree, tp)
    &&& reads_as(s2, ObjectKind::Tree, tp)
    &&& (hb != ht ==> reads_as(s2, ObjectKind::Blob, data))
}

/// `s2` is `s` with a file's blob, its one-entry tree and a commit of that
/// tree added, `h` being the commit's hash; all three entries are sound, the
/// commit reads back, and the tree and blob read back unless a later entry's
/// hash equals theirs.
pub open spec fn commit_written(
    s: Seq<StoredView>,
    s2: Seq<StoredView>,
    name: Seq<u8>,
    data: Seq<u8>,
    parent: Option<Seq<u8>>,
    user: Seq<u8>,
    email: Seq<u8>,
    t: nat,
    msg: Seq<u8>,
    h: Seq<u8>,
) -> bool {
    let tp = file_tree_of(name, data);
    let cp = file_commit_of(name, data, parent, user, email, t, msg);
    let hb = object_hash(ObjectKind::Blob, data);
    let ht = object_hash(ObjectKind::Tree, tp);
    &&& h == object_hash(ObjectKind::Commit, cp)
    &&& s2 == s.push(object_entry(ObjectKind::Blob, data)).push(object_entry(ObjectKind::Tree, tp)).push(
        object_entry(ObjectKind::Commit, cp),
    )
    &&& entry_sound(ObjectKind::Blob, data)
    &&& entry_sound(ObjectKind::Tree, tp)
    &&& entry_sound(ObjectKind::Commit, cp)
    &&& reads_as(s2, ObjectKind::Commit, cp)
    &&& (ht != h ==> reads_as(s2, ObjectKind::Tree, tp))
    &&& (hb != ht && hb != h ==> reads_as(s2, ObjectKind::Blob, data))
}

/// A sound entry, once stored, reads back as its object.
pub proof fn lemma_reads_as_push(s: Seq<StoredView>, kind: ObjectKind, payload: Seq<u8>)
    requires
        entry_sound(kind, payload),
    ensures
        reads_as(s.push(object_entry(kind, payload)), kind, payload),
{
    lemma_unframe_frame(kind, payload);
    assert forall|o: ObjectKind| o != kind implies #[trigger] read_spec(
        s.push(object_entry(kind, payload)),
        o,
        object_hash(kind, payload),
    ) == Err::<Seq<u8>, GitError>(GitError::WrongObjectType) by {
        lemma_unframe_other_kind(kind, o, payload);
    }
}

/// Storing an entry under another hash leaves what an object reads as.
pub proof fn lemma_reads_as_keep(s: Seq<StoredView>, e: StoredView, kind: ObjectKind, payload: Seq<u8>)
    requires
        reads_as(s, kind, payload),
        e.0 != object_hash(kind, payload),
    ensures
        reads_as(s.push(e), kind, payload),
{
    let h = object_hash(kind, payload);
    assert(s.push(e).drop_last() =~= s);
    assert(lookup(s.push(e), h) == lookup(s, h));
    assert forall|o: ObjectKind| #[trigger] read_spec(s.push(e), o, h) == read_spec(s, o, h) by {}
}

/// A commit as values: its hash, tree, parent and message.
pub type CommitView = (Seq<u8>, Option<Seq<u8>>, Option<Seq<u8>>, Seq<char>);

/// The commit stored under `h`.
pub open spec fn commit_spec(s: Seq<StoredView>, h: Seq<u8>) -> Result<CommitView, GitError> {
    match read_spec(s, ObjectKind::Commit, h) {
        Err(e) => Err(e),
        Ok(p) => match parse_commit(p) {
            None => Err(GitError::MalformedCommit),
            Some(c) => if valid_utf8(c.2) {
                Ok((h, c.0, c.1, decode_utf8(c.2)))
            } else {
                Err(GitError::MalformedCommit)
            },
        },
    }
}

/// The names (as text) and blob hashes of the tree stored under `h`.
pub open spec fn tree_spec(s: Seq<StoredView>, h: Seq<u8>) -> Result<Seq<(Seq<char>, Seq<u8>)>, GitError> {
    match read_spec(s, ObjectKind::Tree, h) {
        Err(e) => Err(e),
        Ok(p) => match parse_tree(p) {
            None => Err(GitError::MalformedTree),
            Some(es) => if forall|i: int| 0 <= i < es.len() ==> valid_utf8(#[trigger] es[i].1) {
                Ok(named_entries(es))
            } else {
                Err(GitError::MalformedTree)
            },
        },
    }
}

/// Tree entries with their names decoded as UTF-8 text.
pub open spec fn named_entries(es: Seq<EntryView>) -> Seq<(Seq<char>, Seq<u8>)> {
    es.map_values(|e: EntryView| (decode_utf8(e.1), e.2))
}

/// The names and hashes of a sequence of blobs.
pub open spec fn blobs_view(bs: Seq<Blob>) -> Seq<(Seq<char>, Seq<u8>)> {
    bs.map_values(|b: Blob| (b.name@, b.hash@))
}

/// The history from the commit `h` back to the first commit, newest first,
/// reading at most `fuel` commits.
pub open spec fn history(s: Seq<StoredView>, h: Seq<u8>, fuel: nat) -> Result<Seq<CommitView>, GitError>
    decreases fuel,
{
    if fuel == 0 {
        Err(GitError::CyclicHistory)
    } else {
        match commit_spec(s, h) {
            Err(e) => Err(e),
            Ok(c) => match c.2 {
                None => Ok(seq![c]),
                Some(p) => match history(s, p, (fuel - 1) as nat) {
                    Ok(rest) => Ok(seq![c] + rest),
                    Err(e) => Err(e),
                },
            },
        }
    }
}

/// The history that starts at `h` in store `s`. A chain of distinct commits
/// cannot be longer than the store, so a longer one runs in a cycle.
pub open spec fn log_spec(s: Seq<StoredView>, h: Seq<u8>) -> Result<Seq<CommitView>, GitError> {
    history(s, h, s.len())
}

/// A commit read back from the store.
#[derive(Clone, Debug)]
pub struct Commit {
    pub msg: String,
    pub hash: crate::hash::Hash,
    pub parent: Option<crate::hash::Hash>,
    pub tree: Option<crate::hash::Hash>,
}

impl View for Commit {
    type V = CommitView;

    open spec fn view(&self) -> CommitView {
        (self.hash@, opt_view(&self.tree), opt_view(&self.parent), self.msg@)
    }
}

/// One named entry of a tree.
#[derive(Clone, Debug)]
pub struct Blob {
    pub name: String,
    pub hash: crate::hash::Hash,
}

/// A tree read back from the store.
#[derive(Clone, Debug)]
pub struct Tree {
    pub blobs: Vec<Blob>,
    pub hash: crate::hash::Hash,
}

/// The views of a sequence of commits.
pub open spec fn commits_view(s: Seq<Commit>) -> Seq<CommitView> {
    s.map_values(|c: Commit| c@)
}

/// Relies on String::from_utf8: the text that valid UTF-8 bytes encode, and
/// nothing for other bytes.
#[verifier::external_body]
fn utf8_string(b: Vec<u8>) -> (r: Option<String>)
    ensures
        match r {
            Some(s) => valid_utf8(b@) && s@ == decode_utf8(b@),
            None => !valid_utf8(b@),
        },
{
    String::from_utf8(b).ok()
}

/// Relies on SystemTime::elapsed from UNIX_EPOCH: the whole seconds since the
/// epoch, nothing where the clock lies before it.
#[verifier::external_body]
fn unix_seconds() -> (r: Option<u64>) {
    match std::time::UNIX_EPOCH.elapsed() {
        Ok(d) => Some(d.as_secs()),
        Err(_) => None,
    }
}

/// A repository: its objects, the commit its branch points at, and the
/// identity that new commits carry.
pub struct Git {
    pub dir: String,
    pub branch: String,
    pub user: String,
    pub email: String,
    pub store: ObjectStore,
    pub branch_head: Option<crate::hash::Hash>,
}

impl Git {
    /// A repository with no objects and no commit on its branch.
    pub fn new(dir: String, branch: String, user: String, email: String) -> (r: Git)
        ensures
            r.dir@ == dir@,
            r.branch@ == branch@,
            r.user@ == user@,
            r.email@ == email@,
            r.store@ == Seq::<StoredView>::empty(),
            r.branch_head is None,
    {
        Git { dir, branch, user, email, store: ObjectStore::new(), branch_head: None }
    }

    /// Frames, hashes, compresses and stores an object; returns its hash.
    fn write(&mut self, kind: ObjectKind, payload: &[u8]) -> (r: Result<crate::hash::Hash, GitError>)
        ensures
            final(self).branch_head == old(self).branch_head,
            final(self).user == old(self).user,
            final(self).email == old(self).email,
            r matches Ok(h) && h@ == object_hash(kind, payload@),
            final(self).store@ == old(self).store@.push(object_entry(kind, payload@)),
            entry_sound(kind, payload@),
            reads_as(final(self).store@, kind, payload@),
    {
        let f = encode_frame(kind, payload);
        let sum = sha1_sum(f.as_slice());
        let z = zip(f.as_slice());
        let h = crate::hash::Hash(sum);
        self.store.insert(h.duplicate(), z);
        proof {
            lemma_reads_as_push(old(self).store@, kind, payload@);
        }
        Ok(h)
    }

    /// Reads the payload of the object stored under `hash`, which must be of
    /// the given kind.
    pub fn read(&self, kind: ObjectKind, hash: &crate::hash::Hash) -> (r: Result<Vec<u8>, GitError>)
        ensures
            match r {
                Ok(p) => read_spec(self.store@, kind, hash@) == Ok::<Seq<u8>, GitError>(p@),
                Err(e) => read_spec(self.store@, kind, hash@) == Err::<Seq<u8>, GitError>(e),
            },
    {
        let z = match self.store.get(hash) {
            Some(z) => z,
            None => return Err(GitError::ObjectNotFound),
        };
        let f = match unzip(z.as_slice()) {
            Some(f) => f,
            None => return Err(GitError::CorruptObject),
        };
        match decode_frame(kind, f.as_slice()) {
            Ok(p) => Ok(p),
            Err(FrameError::WrongType) => Err(GitError::WrongObjectType),
            Err(FrameError::NoSeparator) => Err(GitError::CorruptObject),
        }
    }

    /// Stores a blob; returns its hash.
    pub fn add_blob(&mut self, data: &[u8]) -> (r: Result<crate::hash::Hash, GitError>)
        ensures
            final(self).branch_head == old(self).branch_head,
            final(self).user == old(self).user,
            final(self).email == old(self).email,
            r matches Ok(h) && h@ == object_hash(ObjectKind::Blob, data@),
            final(self).store@ == old(self).store@.push(object_entry(ObjectKind::Blob, data@)),
            entry_sound(ObjectKind::Blob, data@),
            reads_as(final(self).store@, ObjectKind::Blob, data@),
    {
        self.write(ObjectKind::Blob, data)
    }

    /// Stores a file's content as a blob and a tree with one entry naming it;
    /// returns the tree's hash.
    pub fn add_tree(&mut self, filename: &str, filedata: &[u8]) -> (r: Result<crate::hash::Hash, GitError>)
        ensures
            final(self).branch_head == old(self).branch_head,
            final(self).user == old(self).user,
            final(self).email == old(self).email,
            tree_written(
                old(self).store@,
                final(self).store@,
                filename.spec_bytes(),
                filedata@,
            ),
            r matches Ok(h) && h@ == object_hash(
                ObjectKind::Tree,
                file_tree_of(filename.spec_bytes(), filedata@),
            ),
    {
        let hash = match self.add_blob(filedata) {
            Ok(h) => h,
            Err(e) => return Err(e),
        };
        let ghost s1 = self.store@;
        let entry = TreeEntry {
            mode: vec![49u8, 48, 48, 54, 52, 52],
            name: crate::bytes::copy_range(filename.as_bytes(), 0, filename.as_bytes().len()),
            hash,
        };
        assert(entry.name@ =~= filename.spec_bytes());
        assert(entry.mode@ == file_mode());
        let entries = vec![entry];
        let content = encode_tree(entries.as_slice());
        proof {
            assert(crate::tree::entries_view(entries@) =~= seq![
                (file_mode(), filename.spec_bytes(), object_hash(ObjectKind::Blob, filedata@)),
            ]);
        }
        let r = self.write(ObjectKind::Tree, content.as_slice());
        proof {
            let tp = file_tree_of(filename.spec_bytes(), filedata@);
            if object_hash(ObjectKind::Tree, tp) != object_hash(ObjectKind::Blob, filedata@) {
                lemma_reads_as_keep(s1, object_entry(ObjectKind::Tree, tp), ObjectKind::Blob, filedata@);
            }
        }
        r
    }

    /// Stores a commit of one file, made at `timestamp`, and points the
    /// branch at it; returns the commit's hash.
    pub fn add_commit_at(
        &mut self,
        filename: &str,
        data: &[u8],
        parent_hash: Option<crate::hash::Hash>,
        msg: &str,
        timestamp: u64,
    ) -> (r: Result<crate::hash::Hash, GitError>)
        ensures
            final(self).user == old(self).user,
            final(self).email == old(self).email,
            r matches Ok(h) && commit_written(
                old(self).store@,
                final(self).store@,
                filename.spec_bytes(),
                data@,
                opt_view(&parent_hash),
                encode_utf8(old(self).user@),
                encode_utf8(old(self).email@),
                timestamp as nat,
                msg.spec_bytes(),
                h@,
            ) && (final(self).branch_head matches Some(x) && x@ == h@),
    {
        let ghost s0 = self.store@;
        let t = match self.add_tree(filename, data) {
            Ok(t) => t,
            Err(e) => return Err(e),
        };
        let ghost s1 = self.store@;
        let content = encode_commit(&t, &parent_hash, self.user.as_str(), self.email.as_str(), timestamp, msg);
        let b = match self.write(ObjectKind::Commit, content.as_slice()) {
            Ok(b) => b,
            Err(e) => return Err(e),
        };
        proof {
            let name = filename.spec_bytes();
            let tp = file_tree_of(name, data@);
            let ec = object_entry(ObjectKind::Commit, content@);
            let hb = object_hash(ObjectKind::Blob, data@);
            let ht = object_hash(ObjectKind::Tree, tp);
            if ht != b@ {
                lemma_reads_as_keep(s1, ec, ObjectKind::Tree, tp);
            }
            if hb != ht && hb != b@ {
                lemma_reads_as_keep(s1, ec, ObjectKind::Blob, data@);
            }
        }
        self.set_head(&b);
        Ok(b)
    }

    /// Points the branch at the commit `hash`.
    pub fn set_head(&mut self, hash: &crate::hash::Hash)
        ensures
            final(self).branch_head matches Some(h) && h@ == hash@,
            final(self).store == old(self).store,
            final(self).user == old(self).user,
            final(self).email == old(self).email,
    {
        self.branch_head = Some(hash.duplicate());
    }

    /// The commit the branch points at.
    pub fn head(&self) -> (r: Result<crate::hash::Hash, GitError>)
        ensures
            match self.branch_head {
                Some(h) => r matches Ok(c) && c@ == h@,
                None => r == Err::<crate::hash::Hash, GitError>(GitError::NoCommitsYet),
            },
    {
        match &self.branch_head {
            Some(h) => Ok(h.duplicate()),
            None => Err(GitError::NoCommitsYet),
        }
    }

    /// The content of the blob stored under `hash`.
    pub fn blob(&self, hash: &crate::hash::Hash) -> (r: Result<Vec<u8>, GitError>)
        ensures
            match r {
                Ok(p) => read_spec(self.store@, ObjectKind::Blob, hash@) == Ok::<Seq<u8>, GitError>(p@),
                Err(e) => read_spec(self.store@, ObjectKind::Blob, hash@) == Err::<Seq<u8>, GitError>(e),
            },
    {
        self.read(ObjectKind::Blob, hash)
    }

    /// The tree stored under `hash`, with its entries' names as text.
    pub fn tree(&self, hash: &crate::hash::Hash) -> (r: Result<Tree, GitError>)
        ensures
            match r {
                Ok(t) => t.hash@ == hash@ && tree_spec(self.store@, hash@) == Ok::<
                    Seq<(Seq<char>, Seq<u8>)>,
                    GitError,
                >(blobs_view(t.blobs@)),
                Err(e) => tree_spec(self.store@, hash@) == Err::<Seq<(Seq<char>, Seq<u8>)>, GitError>(e),
            },
    {
        let p = match self.read(ObjectKind::Tree, hash) {
            Ok(p) => p,
            Err(e) => return Err(e),
        };
        let entries = match decode_tree(p.as_slice()) {
            Some(es) => es,
            None => return Err(GitError::MalformedTree),
        };
        let ghost es = crate::tree::entries_view(entries@);
        let mut blobs: Vec<Blob> = Vec::new();
        let mut i: usize = 0;
        while i < entries.len()
            invariant
                i <= entries@.len(),
                es == crate::tree::entries_view(entries@),
                parse_tree(p@) == Some(es),
                read_spec(self.store@, ObjectKind::Tree, hash@) == Ok::<Seq<u8>, GitError>(p@),
                forall|k: int| 0 <= k < i ==> valid_utf8(#[trigger] es[k].1),
                blobs@.len() == i,
                forall|k: int| 0 <= k < i ==> (#[trigger] blobs@[k]).name@ == decode_utf8(es[k].1)
                    && blobs@[k].hash@ == es[k].2,
            decreases entries.len() - i,
        {
            let e = &entries[i];
            assert(es[i as int] == e@);
            let nb = crate::bytes::copy_range(e.name.as_slice(), 0, e.name.len());
            assert(nb@ =~= e.name@);
            let name = match utf8_string(nb) {
                Some(n) => n,
                None => {
                    assert(!valid_utf8(es[i as int].1));
                    assert(!(forall|k: int| 0 <= k < es.len() ==> valid_utf8(#[trigger] es[k].1)));
                    return Err(GitError::MalformedTree);
                },
            };
            let b = Blob { name, hash: e.hash.duplicate() };
            blobs.push(b);
            i = i + 1;
        }
        assert(es.len() == i);
        assert(forall|k: int| 0 <= k < es.len() ==> valid_utf8(#[trigger] es[k].1));
        assert(blobs_view(blobs@) =~= named_entries(es));
        Ok(Tree { blobs, hash: hash.duplicate() })
    }

    /// The commit stored under `hash`.
    pub fn commit(&self, hash: &crate::hash::Hash) -> (r: Result<Commit, GitError>)
        ensures
            match r {
                Ok(c) => commit_spec(self.store@, hash@) == Ok::<CommitView, GitError>(c@),
                Err(e) => commit_spec(self.store@, hash@) == Err::<CommitView, GitError>(e),
            },
    {
        let p = match self.read(ObjectKind::Commit, hash) {
            Ok(p) => p,
            Err(e) => return Err(e),
        };
        let header = match decode_commit(p.as_slice()) {
            Some(c) => c,
            None => return Err(GitError::MalformedCommit),
        };
        let msg = match utf8_string(header.msg) {
            Some(m) => m,
            None => return Err(GitError::MalformedCommit),
        };
        Ok(Commit { msg, hash: hash.duplicate(), parent: header.parent, tree: header.tree })
    }

    /// The history of the branch, newest commit first, down to the first
    /// commit.
    pub fn log(&self) -> (r: Result<Vec<Commit>, GitError>)
        ensures
            match self.branch_head {
                None => r == Err::<Vec<Commit>, GitError>(GitError::NoCommitsYet),
                Some(h) => match r {
                    Ok(cs) => log_spec(self.store@, h@) == Ok::<Seq<CommitView>, GitError>(
                        commits_view(cs@),
                    ),
                    Err(e) => log_spec(self.store@, h@) == Err::<Seq<CommitView>, GitError>(e),
                },
            },
    {
        let mut cur = match self.head() {
            Ok(h) => h,
            Err(e) => return Err(e),
        };
        let ghost h0 = cur@;
        let mut fuel: usize = self.store.len();
        let mut commits: Vec<Commit> = Vec::new();
        loop
            invariant
                self.branch_head matches Some(h) && h@ == h0,
                log_spec(self.store@, h0) == prepend_commits(commits_view(commits@), history(self.store@, cur@, fuel as nat)),
            decreases fuel,
        {
            if fuel == 0 {
                return Err(GitError::CyclicHistory);
            }
            let c = match self.commit(&cur) {
                Ok(c) => c,
                Err(e) => return Err(e),
            };
            fuel = fuel - 1;
            let next = match &c.parent {
                Some(p) => Some(p.duplicate()),
                None => None,
            };
            proof {
                assert(commits_view(commits@.push(c)) =~= commits_view(commits@).push(c@));
                match history(self.store@, c@.2.unwrap_or(seq![]), fuel as nat) {
                    Ok(rest) => {
                        assert(commits_view(commits@) + (seq![c@] + rest) =~= commits_view(commits@).push(c@) + rest);
                    },
                    Err(_) => {},
                }
                assert(commits_view(commits@) + seq![c@] =~= commits_view(commits@).push(c@));
            }
            commits.push(c);
            match next {
                Some(p) => cur = p,
                None => return Ok(commits),
            }
        }
    }

    /// Stores a commit of one file made now and points the branch at it;
    /// returns the commit's hash. Fails only where the clock lies before the
    /// Unix epoch, and then changes nothing.
    pub fn add_commit(
        &mut self,
        filename: &str,
        data: &[u8],
        parent_hash: Option<crate::hash::Hash>,
        msg: &str,
    ) -> (r: Result<crate::hash::Hash, GitError>)
        ensures
            final(self).user == old(self).user,
            final(self).email == old(self).email,
            match r {
                Ok(h) => (final(self).branch_head matches Some(x) && x@ == h@) && exists|t: u64|
                    commit_written(
                        old(self).store@,
                        final(self).store@,
                        filename.spec_bytes(),
                        data@,
                        opt_view(&parent_hash),
                        encode_utf8(old(self).user@),
                        encode_utf8(old(self).email@),
                        t as nat,
                        msg.spec_bytes(),
                        h@,
                    ),
                Err(e) => e == GitError::Clock && final(self).store@ == old(self).store@
                    && final(self).branch_head == old(self).branch_head,
            },
    {
        let t = match unix_seconds() {
            Some(t) => t,
            None => return Err(GitError::Clock),
        };
        self.add_commit_at(filename, data, parent_hash, msg, t)
    }

    /// The files of the newest commit on the branch whose hash, in hex, begins
    /// with `prefix`: each entry's name and its blob's content.
    pub fn checkout(&self, prefix: &str) -> (r: Result<Vec<(String, Vec<u8>)>, GitError>)
        ensures
            match r {
                Ok(fs) => checkout_spec(self.store@, opt_view(&self.branch_head), prefix.spec_bytes())
                    == Ok::<Seq<(Seq<char>, Seq<u8>)>, GitError>(files_view(fs@)),
                Err(e) => checkout_spec(self.store@, opt_view(&self.branch_head), prefix.spec_bytes())
                    == Err::<Seq<(Seq<char>, Seq<u8>)>, GitError>(e),
            },
    {
        let commits = match self.log() {
            Ok(cs) => cs,
            Err(e) => return Err(e),
        };
        let ghost cs = commits_view(commits@);
        let p = prefix.as_bytes();
        let mut i: usize = 0;
        while i < commits.len()
            invariant
                i <= commits@.len(),
                cs == commits_view(commits@),
                self.branch_head matches Some(h) && log_spec(self.store@, h@) == Ok::<
                    Seq<CommitView>,
                    GitError,
                >(cs),
                p@ == prefix.spec_bytes(),
                find_commit(cs, p@, 0) == find_commit(cs, p@, i as int),
            decreases commits.len() - i,
        {
            let c = &commits[i];
            let text = c.hash.to_hex();
            if crate::bytes::starts_with(text.as_str().as_bytes(), p) {
                assert(cs[i as int] == c@);
                let t = match &c.tree {
                    Some(t) => t,
                    None => return Err(GitError::MalformedCommit),
                };
                let tree = match self.tree(t) {
                    Ok(tree) => tree,
                    Err(e) => return Err(e),
                };
                return self.read_files(&tree.blobs);
            }
            assert(cs[i as int] == c@);
            i = i + 1;
        }
        Err(GitError::UnknownCommit)
    }

    /// Reads the blob of each entry, paired with the entry's name.
    fn read_files(&self, blobs: &Vec<Blob>) -> (r: Result<Vec<(String, Vec<u8>)>, GitError>)
        ensures
            match r {
                Ok(fs) => files_spec(self.store@, blobs_view(blobs@)) == Ok::<
                    Seq<(Seq<char>, Seq<u8>)>,
                    GitError,
                >(files_view(fs@)),
                Err(e) => files_spec(self.store@, blobs_view(blobs@)) == Err::<
                    Seq<(Seq<char>, Seq<u8>)>,
                    GitError,
                >(e),
            },
    {
        let ghost es = blobs_view(blobs@);
        let mut out: Vec<(String, Vec<u8>)> = Vec::new();
        let mut i: usize = 0;
        assert(es.skip(0) =~= es);
        assert(files_view(out@) =~= Seq::<(Seq<char>, Seq<u8>)>::empty());
        proof {
            match files_spec(self.store@, es) {
                Ok(rest) => {
                    assert(files_view(out@) + rest =~= rest);
                },
                Err(_) => {},
            }
        }
        while i < blobs.len()
            invariant
                i <= blobs@.len(),
                es == blobs_view(blobs@),
                files_spec(self.store@, es) == prepend_files(files_view(out@), files_spec(self.store@, es.skip(i as int))),
            decreases blobs.len() - i,
        {
            let b = &blobs[i];
            let d = match self.blob(&b.hash) {
                Ok(d) => d,
                Err(e) => {
                    assert(es.skip(i as int)[0] == (b.name@, b.hash@));
                    return Err(e);
                },
            };
            let name = b.name.clone();
            proof {
                let t = es.skip(i as int);
                assert(t[0] == (b.name@, b.hash@));
                assert(t.drop_first() =~= es.skip(i + 1));
                assert(files_view(out@.push((name, d))) =~= files_view(out@).push((name@, d@)));
                match files_spec(self.store@, es.skip(i + 1)) {
                    Ok(rest) => {
                        assert(files_view(out@) + (seq![(name@, d@)] + rest) =~= files_view(out@).push((name@, d@)) + rest);
                    },
                    Err(_) => {},
                }
            }
            out.push((name, d));
            i = i + 1;
        }
        assert(es.skip(i as int) =~= Seq::<(Seq<char>, Seq<u8>)>::empty());
        assert(files_view(out@) + seq![] =~= files_view(out@));
        Ok(out)
    }
}

/// `Ok(a + r)` where `o` is `Ok(r)`.
pub open spec fn prepend_files(
    a: Seq<(Seq<char>, Seq<u8>)>,
    o: Result<Seq<(Seq<char>, Seq<u8>)>, GitError>,
) -> Result<Seq<(Seq<char>, Seq<u8>)>, GitError> {
    match o {
        Ok(r) => Ok(a + r),
        Err(e) => Err(e),
    }
}

/// Whether the hex text of `h` begins with `prefix`.
pub open spec fn hex_has_prefix(h: Seq<u8>, prefix: Seq<u8>) -> bool {
    prefix.len() <= hex_bytes(h).len() && hex_bytes(h).take(prefix.len() as int) == prefix
}

/// Index of the first commit from `i` on whose hash begins with `prefix`.
pub open spec fn find_commit(cs: Seq<CommitView>, prefix: Seq<u8>, i: int) -> Option<int>
    decreases cs.len() - i,
{
    if i < 0 || i >= cs.len() {
        None
    } else if hex_has_prefix(cs[i].0, prefix) {
        Some(i)
    } else {
        find_commit(cs, prefix, i + 1)
    }
}

/// The contents of the blobs that tree entries name, with the entries' names;
/// the first failed read decides the error.
pub open spec fn files_spec(s: Seq<StoredView>, es: Seq<(Seq<char>, Seq<u8>)>) -> Result<
    Seq<(Seq<char>, Seq<u8>)>,
    GitError,
>
    decreases es.len(),
{
    if es.len() == 0 {
        Ok(seq![])
    } else {
        match read_spec(s, ObjectKind::Blob, es[0].1) {
            Err(e) => Err(e),
            Ok(d) => match files_spec(s, es.drop_first()) {
                Ok(rest) => Ok(seq![(es[0].0, d)] + rest),
                Err(e) => Err(e),
            },
        }
    }
}

/// The files of the newest commit of the history from `head` whose hash, in
/// hex, begins with `prefix`.
pub open spec fn checkout_spec(s: Seq<StoredView>, head: Option<Seq<u8>>, prefix: Seq<u8>) -> Result<
    Seq<(Seq<char>, Seq<u8>)>,
    GitError,
> {
    match head {
        None => Err(GitError::NoCommitsYet),
        Some(h) => match log_spec(s, h) {
            Err(e) => Err(e),
            Ok(cs) => match find_commit(cs, prefix, 0) {
                None => Err(GitError::UnknownCommit),
                Some(i) => match cs[i].1 {
                    None => Err(GitError::MalformedCommit),
                    Some(t) => match tree_spec(s, t) {
                        Err(e) => Err(e),
                        Ok(es) => files_spec(s, es),
                    },
                },
            },
        },
    }
}

/// The names and contents of a sequence of files.
pub open spec fn files_view(fs: Seq<(String, Vec<u8>)>) -> Seq<(Seq<char>, Seq<u8>)> {
    fs.map_values(|f: (String, Vec<u8>)| (f.0@, f.1@))
}

/// Storing a blob and reading it back under its hash gives its content.
pub proof fn lemma_blob_round_trip(s: Seq<StoredView>, data: Seq<u8>, z: Seq<u8>)
    requires
        inflate_of(z) == Some(frame(ObjectKind::Blob, data)),
    ensures
        read_spec(s.push((object_hash(ObjectKind::Blob, data), z)), ObjectKind::Blob, object_hash(
            ObjectKind::Blob,
            data,
        )) == Ok::<Seq<u8>, GitError>(data),
{
    lemma_unframe_frame(ObjectKind::Blob, data);
}

/// Storing the same blob content a second time keeps its hash, and the
/// content still reads back under it.
pub proof fn lemma_blob_rewrite(s: Seq<StoredView>, data: Seq<u8>, z1: Seq<u8>, z2: Seq<u8>)
    requires
        inflate_of(z1) == Some(frame(ObjectKind::Blob, data)),
        inflate_of(z2) == Some(frame(ObjectKind::Blob, data)),
    ensures
        read_spec(
            s.push((object_hash(ObjectKind::Blob, data), z1)).push((object_hash(ObjectKind::Blob, data), z2)),
            ObjectKind::Blob,
            object_hash(ObjectKind::Blob, data),
        ) == Ok::<Seq<u8>, GitError>(data),
{
    lemma_unframe_frame(ObjectKind::Blob, data);
}

/// Reading an object as another kind than the one it was stored as fails
/// with `WrongObjectType`, and never returns a payload.
pub proof fn lemma_read_wrong_kind(
    s: Seq<StoredView>,
    h: Seq<u8>,
    z: Seq<u8>,
    kind: ObjectKind,
    other: ObjectKind,
    payload: Seq<u8>,
)
    requires
        lookup(s, h) == Some(z),
        inflate_of(z) == Some(frame(kind, payload)),
        kind != other,
    ensures
        read_spec(s, other, h) == Err::<Seq<u8>, GitError>(GitError::WrongObjectType),
{
    lemma_unframe_other_kind(kind, other, payload);
}

proof fn lemma_find_commit_at(cs: Seq<CommitView>, prefix: Seq<u8>, k: int, i: int)
    requires
        0 <= k <= i < cs.len(),
        hex_has_prefix(cs[i].0, prefix),
        forall|j: int| k <= j < i ==> !hex_has_prefix(#[trigger] cs[j].0, prefix),
    ensures
        find_commit(cs, prefix, k) == Some(i),
    decreases i - k,
{
    if k < i {
        lemma_find_commit_at(cs, prefix, k + 1, i);
    }
}

/// Checking out by a prefix of the hex hash of a commit in the history (a
/// prefix that no newer commit shares) gives the files of that commit's
/// tree, each with the content of its blob.
pub proof fn lemma_checkout_known_commit(
    s: Seq<StoredView>,
    head: Seq<u8>,
    i: int,
    prefix: Seq<u8>,
)
    requires
        log_spec(s, head) is Ok,
        0 <= i < log_spec(s, head)->Ok_0.len(),
        hex_has_prefix(log_spec(s, head)->Ok_0[i].0, prefix),
        forall|j: int| 0 <= j < i ==> !hex_has_prefix(#[trigger] log_spec(s, head)->Ok_0[j].0, prefix),
        log_spec(s, head)->Ok_0[i].1 is Some,
    ensures
        checkout_spec(s, Some(head), prefix) == match tree_spec(s, log_spec(s, head)->Ok_0[i].1->Some_0) {
            Ok(es) => files_spec(s, es),
            Err(e) => Err(e),
        },
{
    lemma_find_commit_at(log_spec(s, head)->Ok_0, prefix, 0, i);
}

/// `Ok(a + r)` where `o` is `Ok(r)`.
pub open spec fn prepend_commits(
    a: Seq<CommitView>,
    o: Result<Seq<CommitView>, GitError>,
) -> Result<Seq<CommitView>, GitError> {
    match o {
        Ok(r) => Ok(a + r),
        Err(e) => Err(e),
    }
}

} // verus!
