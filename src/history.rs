use vstd::prelude::*;
use vstd::utf8::{decode_utf8, encode_utf8, valid_utf8};
use crate::codec::ObjectKind;
use crate::commit::{lacks_byte, lemma_commit_round_trip};
use crate::hash::HASH_LEN;
use crate::repo::{
    checkout_spec, commit_spec, commit_written, entry_sound, file_commit_of, file_mode, file_tree_of,
    files_spec, find_commit, hex_has_prefix, history, log_spec, named_entries, object_entry, object_hash,
    read_spec, reads_as, tree_spec, CommitView, GitError,
};
use crate::tree::{entry_encodable, lemma_tree_round_trip};
use crate::store::{lookup, StoredView};

verus! {

/// Whether no commit of `cs` has the hash `k`.
pub open spec fn hash_absent(cs: Seq<CommitView>, k: Seq<u8>) -> bool {
    forall|i: int| 0 <= i < cs.len() ==> (#[trigger] cs[i]).0 != k
}

proof fn lemma_history_extend(s: Seq<StoredView>, e: StoredView, h: Seq<u8>, f: nat, l: Seq<CommitView>)
    requires
        history(s, h, f) == Ok::<Seq<CommitView>, GitError>(l),
        hash_absent(l, e.0),
    ensures
        history(s.push(e), h, f) == Ok::<Seq<CommitView>, GitError>(l),
    decreases f,
{
    let s2 = s.push(e);
    assert(s2.drop_last() =~= s);
    let c = commit_spec(s, h).unwrap();
    assert(l[0] == c);
    assert(lookup(s2, h) == lookup(s, h));
    assert(commit_spec(s2, h) == commit_spec(s, h));
    match c.2 {
        None => {},
        Some(p) => {
            let rest = history(s, p, (f - 1) as nat).unwrap();
            assert(l == seq![c] + rest);
            assert forall|i: int| 0 <= i < rest.len() implies (#[trigger] rest[i]).0 != e.0 by {
                assert(rest[i] == l[i + 1]);
            }
            lemma_history_extend(s, e, p, (f - 1) as nat, rest);
        },
    }
}

proof fn lemma_history_fuel(s: Seq<StoredView>, h: Seq<u8>, f: nat, g: nat, l: Seq<CommitView>)
    requires
        history(s, h, f) == Ok::<Seq<CommitView>, GitError>(l),
        f <= g,
    ensures
        history(s, h, g) == Ok::<Seq<CommitView>, GitError>(l),
    decreases f,
{
    let c = commit_spec(s, h).unwrap();
    match c.2 {
        None => {},
        Some(p) => {
            let rest = history(s, p, (f - 1) as nat).unwrap();
            lemma_history_fuel(s, p, (f - 1) as nat, (g - 1) as nat, rest);
        },
    }
}

proof fn lemma_encode_utf8_concat(a: Seq<char>, b: Seq<char>)
    ensures
        encode_utf8(a + b) == encode_utf8(a) + encode_utf8(b),
    decreases a.len(),
{
    if a.len() == 0 {
        assert(a + b =~= b);
        assert(encode_utf8(a) + encode_utf8(b) =~= encode_utf8(b));
    } else {
        assert((a + b).drop_first() =~= a.drop_first() + b);
        assert((a + b)[0] == a[0]);
        lemma_encode_utf8_concat(a.drop_first(), b);
        assert(encode_utf8(a + b) =~= encode_utf8(a) + encode_utf8(b));
    }
}

proof fn lemma_message_text(msg: Seq<char>)
    ensures
        valid_utf8(encode_utf8(msg) + seq![10u8]),
        decode_utf8(encode_utf8(msg) + seq![10u8]) == msg + seq!['\n'],
{
    let nl = seq!['\n'];
    assert(vstd::utf8::is_ascii_chars(nl));
    vstd::utf8::is_ascii_chars_encode_utf8(nl);
    assert(encode_utf8(nl) =~= seq![10u8]);
    lemma_encode_utf8_concat(msg, nl);
    vstd::utf8::encode_utf8_valid_utf8(msg + nl);
    vstd::utf8::encode_utf8_decode_utf8(msg + nl);
}

/// After a commit of one file whose parent is the previous head is added
/// (its blob, its one-entry tree, then the commit itself, as `add_commit`
/// does), the history from the new commit is that commit, with its tree, its
/// parent and its message ending in a newline, followed by the previous
/// history; a first commit, without parent, has a history of one. The new
/// hashes must differ from those of the earlier commits, and the identity
/// must hold no newline.
pub proof fn lemma_log_after_commit(
    s: Seq<StoredView>,
    s2: Seq<StoredView>,
    name: Seq<u8>,
    data: Seq<u8>,
    parent: Option<Seq<u8>>,
    user: Seq<u8>,
    email: Seq<u8>,
    t: nat,
    msg: Seq<char>,
    h: Seq<u8>,
    earlier: Seq<CommitView>,
)
    requires
        commit_written(s, s2, name, data, parent, user, email, t, encode_utf8(msg), h),
        match parent {
            None => earlier == Seq::<CommitView>::empty(),
            Some(p) => p.len() == HASH_LEN && log_spec(s, p) == Ok::<Seq<CommitView>, GitError>(earlier),
        },
        lacks_byte(user, 10),
        lacks_byte(email, 10),
        hash_absent(earlier, object_hash(ObjectKind::Blob, data)),
        hash_absent(earlier, object_hash(ObjectKind::Tree, file_tree_of(name, data))),
        hash_absent(earlier, h),
    ensures
        log_spec(s2, h) == Ok::<Seq<CommitView>, GitError>(
            seq![(h, Some(object_hash(ObjectKind::Tree, file_tree_of(name, data))), parent, msg + seq!['\n'])]
                + earlier,
        ),
{
    let tp = file_tree_of(name, data);
    let th = object_hash(ObjectKind::Tree, tp);
    let cp = file_commit_of(name, data, parent, user, email, t, encode_utf8(msg));
    let eb = object_entry(ObjectKind::Blob, data);
    let et = object_entry(ObjectKind::Tree, tp);
    let ec = object_entry(ObjectKind::Commit, cp);
    lemma_commit_after_commit(s, s2, name, data, parent, user, email, t, msg, h);
    let c: CommitView = (h, Some(th), parent, msg + seq!['\n']);
    let fuel = s2.len();
    assert(fuel == s.len() + 3);
    match parent {
        None => {
            assert(seq![c] + earlier =~= seq![c]);
        },
        Some(p) => {
            lemma_history_fuel(s, p, s.len(), (fuel - 1) as nat, earlier);
            lemma_history_extend(s, eb, p, (fuel - 1) as nat, earlier);
            lemma_history_extend(s.push(eb), et, p, (fuel - 1) as nat, earlier);
            lemma_history_extend(s.push(eb).push(et), ec, p, (fuel - 1) as nat, earlier);
        },
    }
}

/// Reading back a commit just written gives its tree, its parent, and its
/// message followed by a newline, where the identity holds no newline.
pub proof fn lemma_commit_after_commit(
    s: Seq<StoredView>,
    s2: Seq<StoredView>,
    name: Seq<u8>,
    data: Seq<u8>,
    parent: Option<Seq<u8>>,
    user: Seq<u8>,
    email: Seq<u8>,
    t: nat,
    msg: Seq<char>,
    h: Seq<u8>,
)
    requires
        commit_written(s, s2, name, data, parent, user, email, t, encode_utf8(msg), h),
        parent matches Some(p) ==> p.len() == HASH_LEN,
        lacks_byte(user, 10),
        lacks_byte(email, 10),
    ensures
        commit_spec(s2, h) == Ok::<CommitView, GitError>(
            (h, Some(object_hash(ObjectKind::Tree, file_tree_of(name, data))), parent, msg + seq!['\n']),
        ),
{
    let th = object_hash(ObjectKind::Tree, file_tree_of(name, data));
    lemma_commit_round_trip(th, parent, user, email, t, encode_utf8(msg));
    lemma_message_text(msg);
}

/// The tree written for a file (a name without NUL) reads back as one entry:
/// that name and the hash of the file's blob.
pub proof fn lemma_tree_after_add_tree(s: Seq<StoredView>, name: Seq<char>, data: Seq<u8>)
    requires
        reads_as(s, ObjectKind::Tree, file_tree_of(encode_utf8(name), data)),
        entry_sound(ObjectKind::Blob, data),
        lacks_byte(encode_utf8(name), 0),
    ensures
        tree_spec(s, object_hash(ObjectKind::Tree, file_tree_of(encode_utf8(name), data)))
            == Ok::<Seq<(Seq<char>, Seq<u8>)>, GitError>(seq![(name, object_hash(ObjectKind::Blob, data))]),
{
    let nb = encode_utf8(name);
    let hb = object_hash(ObjectKind::Blob, data);
    let es = seq![(file_mode(), nb, hb)];
    assert(entry_encodable(es[0]));
    lemma_tree_round_trip(es);
    vstd::utf8::encode_utf8_valid_utf8(name);
    vstd::utf8::encode_utf8_decode_utf8(name);
    assert(named_entries(es) =~= seq![(name, hb)]);
}

/// Checking out, by a prefix of its hex hash, a commit of one file just
/// written on top of the history gives that file's name and content, where
/// the commit, its tree and its blob have three different hashes.
pub proof fn lemma_checkout_after_commit(
    s: Seq<StoredView>,
    s2: Seq<StoredView>,
    name: Seq<char>,
    data: Seq<u8>,
    parent: Option<Seq<u8>>,
    user: Seq<u8>,
    email: Seq<u8>,
    t: nat,
    msg: Seq<char>,
    h: Seq<u8>,
    earlier: Seq<CommitView>,
    prefix: Seq<u8>,
)
    requires
        commit_written(s, s2, encode_utf8(name), data, parent, user, email, t, encode_utf8(msg), h),
        match parent {
            None => earlier == Seq::<CommitView>::empty(),
            Some(p) => p.len() == HASH_LEN && log_spec(s, p) == Ok::<Seq<CommitView>, GitError>(earlier),
        },
        lacks_byte(user, 10),
        lacks_byte(email, 10),
        lacks_byte(encode_utf8(name), 0),
        hash_absent(earlier, object_hash(ObjectKind::Blob, data)),
        hash_absent(earlier, object_hash(ObjectKind::Tree, file_tree_of(encode_utf8(name), data))),
        hash_absent(earlier, h),
        object_hash(ObjectKind::Blob, data) != object_hash(ObjectKind::Tree, file_tree_of(encode_utf8(name), data)),
        object_hash(ObjectKind::Blob, data) != h,
        object_hash(ObjectKind::Tree, file_tree_of(encode_utf8(name), data)) != h,
        hex_has_prefix(h, prefix),
    ensures
        checkout_spec(s2, Some(h), prefix) == Ok::<Seq<(Seq<char>, Seq<u8>)>, GitError>(seq![(name, data)]),
{
    let nb = encode_utf8(name);
    let hb = object_hash(ObjectKind::Blob, data);
    let th = object_hash(ObjectKind::Tree, file_tree_of(nb, data));
    lemma_log_after_commit(s, s2, nb, data, parent, user, email, t, msg, h, earlier);
    let cs = seq![(h, Some(th), parent, msg + seq!['\n'])] + earlier;
    assert(cs[0].0 == h);
    assert(find_commit(cs, prefix, 0) == Some(0int));
    lemma_tree_after_add_tree(s2, name, data);
    let fs = seq![(name, hb)];
    assert(fs.drop_first() =~= Seq::<(Seq<char>, Seq<u8>)>::empty());
    assert(read_spec(s2, ObjectKind::Blob, hb) == Ok::<Seq<u8>, GitError>(data));
    assert(files_spec(s2, fs.drop_first()) == Ok::<Seq<(Seq<char>, Seq<u8>)>, GitError>(seq![]));
    assert(seq![(name, data)] + Seq::<(Seq<char>, Seq<u8>)>::empty() =~= seq![(name, data)]);
}

/// One commit of a run: file name, file content, message and time.
pub type CommitInput = (Seq<u8>, Seq<u8>, Seq<char>, nat);

/// The parent given to the `k`-th commit of a run: none for the first, the
/// previous commit's hash after that.
pub open spec fn run_parent(hashes: Seq<Seq<u8>>, k: int) -> Option<Seq<u8>> {
    if k == 0 {
        None
    } else {
        Some(hashes[k - 1])
    }
}

/// `stores[k + 1]` is `stores[k]` with the `k`-th commit of the run written
/// (as `add_commit` writes it), `hashes[k]` being that commit's hash.
pub open spec fn commit_run(
    stores: Seq<Seq<StoredView>>,
    hashes: Seq<Seq<u8>>,
    inputs: Seq<CommitInput>,
    user: Seq<u8>,
    email: Seq<u8>,
) -> bool {
    &&& stores.len() == inputs.len() + 1
    &&& hashes.len() == inputs.len()
    &&& forall|k: int|
        0 <= k < inputs.len() ==> commit_written(
            #[trigger] stores[k],
            stores[k + 1],
            inputs[k].0,
            inputs[k].1,
            run_parent(hashes, k),
            user,
            email,
            inputs[k].3,
            encode_utf8(inputs[k].2),
            hashes[k],
        )
}

/// No commit of the run has the hash of a later commit, or of a later
/// commit's blob or tree.
pub open spec fn run_hashes_fresh(hashes: Seq<Seq<u8>>, inputs: Seq<CommitInput>) -> bool {
    forall|j: int, k: int|
        0 <= j < k < inputs.len() ==> {
            &&& #[trigger] hashes[j] != hashes[k]
            &&& hashes[j] != object_hash(ObjectKind::Blob, #[trigger] inputs[k].1)
            &&& hashes[j] != object_hash(ObjectKind::Tree, file_tree_of(inputs[k].0, inputs[k].1))
        }
}

/// The `k`-th commit of a run as `log` reports it.
pub open spec fn run_entry(hashes: Seq<Seq<u8>>, inputs: Seq<CommitInput>, k: int) -> CommitView {
    (
        hashes[k],
        Some(object_hash(ObjectKind::Tree, file_tree_of(inputs[k].0, inputs[k].1))),
        run_parent(hashes, k),
        inputs[k].2 + seq!['\n'],
    )
}

/// The first `n` commits of a run, newest first.
pub open spec fn run_log(hashes: Seq<Seq<u8>>, inputs: Seq<CommitInput>, n: int) -> Seq<CommitView> {
    Seq::new(n as nat, |i: int| run_entry(hashes, inputs, n - 1 - i))
}

proof fn lemma_run_prefix(
    stores: Seq<Seq<StoredView>>,
    hashes: Seq<Seq<u8>>,
    inputs: Seq<CommitInput>,
    user: Seq<u8>,
    email: Seq<u8>,
    n: int,
)
    requires
        commit_run(stores, hashes, inputs, user, email),
        run_hashes_fresh(hashes, inputs),
        lacks_byte(user, 10),
        lacks_byte(email, 10),
        1 <= n <= inputs.len(),
    ensures
        log_spec(stores[n], hashes[n - 1]) == Ok::<Seq<CommitView>, GitError>(run_log(hashes, inputs, n)),
    decreases n,
{
    let k = n - 1;
    let earlier = run_log(hashes, inputs, k);
    let inp = inputs[k];
    assert(commit_written(
        stores[k],
        stores[k + 1],
        inp.0,
        inp.1,
        run_parent(hashes, k),
        user,
        email,
        inp.3,
        encode_utf8(inp.2),
        hashes[k],
    ));
    if k == 0 {
        assert(earlier =~= Seq::<CommitView>::empty());
    } else {
        lemma_run_prefix(stores, hashes, inputs, user, email, k);
        assert(commit_written(
            stores[k - 1],
            stores[k],
            inputs[k - 1].0,
            inputs[k - 1].1,
            run_parent(hashes, k - 1),
            user,
            email,
            inputs[k - 1].3,
            encode_utf8(inputs[k - 1].2),
            hashes[k - 1],
        ));
    }
    assert forall|i: int| 0 <= i < earlier.len() implies (#[trigger] earlier[i]).0 != hashes[k]
        && earlier[i].0 != object_hash(ObjectKind::Blob, inp.1)
        && earlier[i].0 != object_hash(ObjectKind::Tree, file_tree_of(inp.0, inp.1)) by {
        let j = k - 1 - i;
        assert(earlier[i].0 == hashes[j]);
        assert(hashes[j] != hashes[k]);
        assert(hashes[j] != object_hash(ObjectKind::Blob, inputs[k].1));
    }
    lemma_log_after_commit(
        stores[k],
        stores[k + 1],
        inp.0,
        inp.1,
        run_parent(hashes, k),
        user,
        email,
        inp.3,
        inp.2,
        hashes[k],
        earlier,
    );
    assert(seq![run_entry(hashes, inputs, k)] + earlier =~= run_log(hashes, inputs, n));
}

/// After a run of `N >= 1` commits, each made with the previous one's hash
/// as parent (the first with none), the history from the last hash holds
/// exactly `N` commits, newest first: the `i`-th is the run's commit
/// `N - 1 - i`, with that commit's tree, with the previous commit's hash as
/// parent (none for the oldest), and with its message and a newline. The
/// hashes of the run must not repeat one another or an earlier blob or tree,
/// and the identity must hold no newline.
pub proof fn lemma_log_after_commits(
    stores: Seq<Seq<StoredView>>,
    hashes: Seq<Seq<u8>>,
    inputs: Seq<CommitInput>,
    user: Seq<u8>,
    email: Seq<u8>,
)
    requires
        inputs.len() >= 1,
        commit_run(stores, hashes, inputs, user, email),
        run_hashes_fresh(hashes, inputs),
        lacks_byte(user, 10),
        lacks_byte(email, 10),
    ensures
        ({
            let n = inputs.len() as int;
            &&& log_spec(stores[n], hashes[n - 1]) == Ok::<Seq<CommitView>, GitError>(run_log(hashes, inputs, n))
            &&& run_log(hashes, inputs, n).len() == n
            &&& forall|i: int| 0 <= i < n ==> (#[trigger] run_log(hashes, inputs, n)[i]).0 == hashes[n - 1 - i]
            &&& run_log(hashes, inputs, n)[n - 1].2 is None
            &&& forall|i: int| 0 <= i < n - 1 ==> (#[trigger] run_log(hashes, inputs, n)[i]).2 == Some(hashes[n - 2 - i])
        }),
{
    lemma_run_prefix(stores, hashes, inputs, user, email, inputs.len() as int);
}

} // verus!
