//! The shared folders as the server sees them: their ids, display names and
//! canonical paths, and the handle through which the desktop side replaces them.
use std::sync::Arc;
use tokio::sync::watch::{Receiver, Sender};
use vstd::prelude::*;
use vstd::wrapping::u64_specs;
use crate::paths::{file_name_of, path_file_name, paths_equal, same_path};
use crate::text::{hex16_string, hex_fixed};

verus! {

/// One shared folder.
#[derive(Debug, Clone)]
pub struct SharedFolder {
    pub id: String,
    pub name: String,
    pub path: String,
}

/// Mathematical value of a shared folder.
pub struct FolderView {
    pub id: Seq<char>,
    pub name: Seq<char>,
    pub path: Seq<char>,
}

impl View for SharedFolder {
    type V = FolderView;

    open spec fn view(&self) -> FolderView {
        FolderView { id: self.id@, name: self.name@, path: self.path@ }
    }
}

impl SharedFolder {
    /// A field-by-field copy.
    pub fn duplicate(&self) -> (r: SharedFolder)
        ensures
            r@ == self@,
    {
        SharedFolder { id: self.id.clone(), name: self.name.clone(), path: self.path.clone() }
    }
}

/// A folder as configured, with the canonical form of its path as the file
/// system resolved it (or the path itself where that failed).
pub struct ConfiguredFolder {
    pub path: String,
    pub canonical: String,
}

/// The configured folders as pairs of path and canonical path.
pub open spec fn configured_views(s: Seq<ConfiguredFolder>) -> Seq<(Seq<char>, Seq<char>)> {
    s.map_values(|c: ConfiguredFolder| (c.path@, c.canonical@))
}

/// The values of a list of shared folders.
pub open spec fn folder_views(s: Seq<SharedFolder>) -> Seq<FolderView> {
    s.map_values(|f: SharedFolder| f@)
}

/// Offset basis of 64-bit FNV-1a.
pub const FNV_OFFSET: u64 = 0xcbf2_9ce4_8422_2325;

/// Prime of 64-bit FNV-1a.
pub const FNV_PRIME: u64 = 0x0000_0100_0000_01B3;

/// One FNV-1a step: xor in the byte, then multiply modulo 2^64.
pub open spec fn fnv1a_step(state: u64, b: u8) -> u64 {
    u64_specs::wrapping_mul(state ^ (b as u64), FNV_PRIME)
}

/// FNV-1a state after feeding `bytes` into `state`.
pub open spec fn fnv1a(state: u64, bytes: Seq<u8>) -> u64
    decreases bytes.len(),
{
    if bytes.len() == 0 {
        state
    } else {
        fnv1a(fnv1a_step(state, bytes[0]), bytes.drop_first())
    }
}

proof fn lemma_fnv1a_push(state: u64, bytes: Seq<u8>, b: u8)
    ensures
        fnv1a(state, bytes.push(b)) == fnv1a_step(fnv1a(state, bytes), b),
    decreases bytes.len(),
{
    if bytes.len() > 0 {
        assert(bytes.push(b)[0] == bytes[0]);
        assert(bytes.push(b).drop_first() =~= bytes.drop_first().push(b));
        lemma_fnv1a_push(fnv1a_step(state, bytes[0]), bytes.drop_first(), b);
    } else {
        assert(bytes.push(b).drop_first() =~= Seq::<u8>::empty());
        assert(bytes.push(b)[0] == b);
        assert(fnv1a(fnv1a_step(state, b), Seq::<u8>::empty()) == fnv1a_step(state, b));
    }
}

/// Feeding two byte strings one after the other is feeding their concatenation.
pub proof fn law_fnv1a_concatenation(state: u64, a: Seq<u8>, b: Seq<u8>)
    ensures
        fnv1a(state, a + b) == fnv1a(fnv1a(state, a), b),
    decreases a.len(),
{
    if a.len() > 0 {
        assert((a + b).drop_first() =~= a.drop_first() + b);
        assert((a + b)[0] == a[0]);
        law_fnv1a_concatenation(fnv1a_step(state, a[0]), a.drop_first(), b);
    } else {
        assert(a + b =~= b);
    }
}

/// Feeds `bytes` into the FNV-1a `state`.
pub fn fnv1a_extend(state: u64, bytes: &[u8]) -> (r: u64)
    ensures
        r == fnv1a(state, bytes@),
{
    let mut h = state;
    let mut i: usize = 0;
    assert(bytes@.take(0) =~= Seq::<u8>::empty());
    while i < bytes.len()
        invariant
            i <= bytes.len(),
            h == fnv1a(state, bytes@.take(i as int)),
        decreases bytes.len() - i,
    {
        proof {
            assert(bytes@.take(i + 1) =~= bytes@.take(i as int).push(bytes@[i as int]));
            lemma_fnv1a_push(state, bytes@.take(i as int), bytes@[i as int]);
        }
        h = (h ^ (bytes[i] as u64)).wrapping_mul(FNV_PRIME);
        i = i + 1;
    }
    assert(bytes@.take(bytes.len() as int) =~= bytes@);
    h
}

/// The eight bytes of `n`, least significant first.
pub open spec fn le_bytes(n: u64) -> Seq<u8> {
    seq![
        (n & 0xff) as u8,
        ((n >> 8) & 0xff) as u8,
        ((n >> 16) & 0xff) as u8,
        ((n >> 24) & 0xff) as u8,
        ((n >> 32) & 0xff) as u8,
        ((n >> 40) & 0xff) as u8,
        ((n >> 48) & 0xff) as u8,
        ((n >> 56) & 0xff) as u8,
    ]
}

/// A 64-bit FNV-1a hasher. Integers of type `usize` are fed as eight
/// little-endian bytes, so that a state does not depend on the machine; on a
/// 64-bit little-endian machine these are the bytes that `Hasher`'s default
/// `write_usize` would feed.
pub struct Fnv1a {
    pub state: u64,
}

impl Fnv1a {
    pub fn new() -> (h: Fnv1a)
        ensures
            h.state == FNV_OFFSET,
    {
        Fnv1a { state: FNV_OFFSET }
    }
}

impl std::hash::Hasher for Fnv1a {
    fn finish(&self) -> (r: u64)
        ensures
            r == self.state,
    {
        self.state
    }

    fn write(&mut self, bytes: &[u8])
        ensures
            final(self).state == fnv1a(old(self).state, bytes@),
    {
        self.state = fnv1a_extend(self.state, bytes);
    }

    fn write_usize(&mut self, i: usize)
        ensures
            final(self).state == fnv1a(old(self).state, le_bytes(i as u64)),
    {
        let n: u64 = i as u64;
        let bytes: [u8; 8] = [
            (n & 0xff) as u8,
            ((n >> 8) & 0xff) as u8,
            ((n >> 16) & 0xff) as u8,
            ((n >> 24) & 0xff) as u8,
            ((n >> 32) & 0xff) as u8,
            ((n >> 40) & 0xff) as u8,
            ((n >> 48) & 0xff) as u8,
            ((n >> 56) & 0xff) as u8,
        ];
        assert(bytes@ =~= le_bytes(n));
        self.state = fnv1a_extend(self.state, &bytes);
    }
}

/// The bytes that `Path`'s `Hash` impl feeds a hasher for the path `p`.
pub uninterp spec fn path_hash_bytes(p: Seq<char>) -> Seq<u8>;

/// Runs `Path`'s `Hash` impl on `p` with `hasher`. That impl writes the bytes
/// of the path's components and then their total length with `write_usize`;
/// which bytes those are is std's affair and is left to the name
/// `path_hash_bytes`. They depend on the path alone, since `Fnv1a` feeds a
/// `usize` as eight little-endian bytes; and every write of `Fnv1a` feeds its
/// bytes to FNV-1a, so the hasher ends in the FNV-1a state of those bytes.
#[verifier::external_body]
fn hash_path_into(p: &str, hasher: &mut Fnv1a)
    ensures
        final(hasher).state == fnv1a(old(hasher).state, path_hash_bytes(p@)),
{
    std::hash::Hash::hash(std::path::Path::new(p), hasher)
}

/// The id of a shared folder with canonical path `canonical`: the 64-bit FNV-1a
/// hash of the bytes that `Path`'s `Hash` impl feeds for it, as sixteen
/// lowercase hexadecimal digits.
pub open spec fn folder_id_of(canonical: Seq<char>) -> Seq<char> {
    hex_fixed(fnv1a(FNV_OFFSET, path_hash_bytes(canonical)) as nat, 16)
}

/// The id of the folder whose canonical path is `canonical`.
pub fn folder_id(canonical: &str) -> (r: String)
    ensures
        r@ == folder_id_of(canonical@),
        r@.len() == 16,
{
    let mut hasher = Fnv1a::new();
    hash_path_into(canonical, &mut hasher);
    hex16_string(hasher.state)
}

/// The name shown for a folder: the last component of its canonical path,
/// else that of the configured path, else the whole canonical path.
pub open spec fn folder_name_of(path: Seq<char>, canonical: Seq<char>) -> Seq<char> {
    match path_file_name(canonical) {
        Some(n) => n,
        None => match path_file_name(path) {
            Some(n) => n,
            None => canonical,
        },
    }
}

/// The shared folder made of a configured path and its canonical form.
pub open spec fn shared_folder_of(path: Seq<char>, canonical: Seq<char>) -> FolderView {
    FolderView { id: folder_id_of(canonical), name: folder_name_of(path, canonical), path: canonical }
}

/// Some root of `roots` has the same path as `canonical`.
pub open spec fn has_root_path(roots: Seq<FolderView>, canonical: Seq<char>) -> bool {
    exists|i: int| 0 <= i < roots.len() && same_path(#[trigger] roots[i].path, canonical)
}

/// The roots built from the configured folders `cfg`, in order: a folder whose
/// canonical path is the same path as an earlier root's is left out.
pub open spec fn roots_of(cfg: Seq<(Seq<char>, Seq<char>)>) -> Seq<FolderView>
    decreases cfg.len(),
{
    if cfg.len() == 0 {
        Seq::empty()
    } else {
        let prev = roots_of(cfg.drop_last());
        let (path, canonical) = cfg.last();
        if has_root_path(prev, canonical) {
            prev
        } else {
            prev.push(shared_folder_of(path, canonical))
        }
    }
}

/// A folder's id depends on its canonical path alone, not on the path it was
/// configured under, so rebuilding the list keeps every id.
pub proof fn law_id_depends_on_canonical_path_only(p1: Seq<char>, p2: Seq<char>, canonical: Seq<char>)
    ensures
        shared_folder_of(p1, canonical).id == shared_folder_of(p2, canonical).id,
        shared_folder_of(p1, canonical).id.len() == 16,
{
    lemma_hex_fixed_len(fnv1a(FNV_OFFSET, path_hash_bytes(canonical)) as nat, 16);
}

proof fn lemma_hex_fixed_len(n: nat, width: nat)
    ensures
        crate::text::hex_fixed(n, width).len() == width,
    decreases width,
{
    if width > 0 {
        lemma_hex_fixed_len(n / 16, (width - 1) as nat);
    }
}

/// No two shared folders have the same path.
pub proof fn law_roots_have_distinct_paths(cfg: Seq<(Seq<char>, Seq<char>)>)
    ensures
        forall|i: int, j: int|
            0 <= i < j < roots_of(cfg).len() ==> !same_path(
                #[trigger] roots_of(cfg)[i].path,
                #[trigger] roots_of(cfg)[j].path,
            ),
    decreases cfg.len(),
{
    if cfg.len() > 0 {
        law_roots_have_distinct_paths(cfg.drop_last());
        let prev = roots_of(cfg.drop_last());
        let r = roots_of(cfg);
        if !has_root_path(prev, cfg.last().1) {
            assert forall|i: int, j: int| 0 <= i < j < r.len() implies !same_path(
                #[trigger] r[i].path,
                #[trigger] r[j].path,
            ) by {
                assert(r[i] == prev[i]);
                if j < prev.len() {
                    assert(r[j] == prev[j]);
                } else {
                    assert(r[j].path == cfg.last().1);
                    assert(!same_path(prev[i].path, cfg.last().1));
                }
            }
        }
    }
}

/// A shared folder is named after the final component of its canonical path
/// whenever that path has one (`/home/alice/Music` is shown as `Music`).
pub proof fn law_folder_named_after_final_component(cfg: Seq<(Seq<char>, Seq<char>)>, i: int)
    requires
        0 <= i < roots_of(cfg).len(),
    ensures
        forall|n: Seq<char>|
            #[trigger] path_file_name(roots_of(cfg)[i].path) == Some(n) ==> roots_of(cfg)[i].name == n,
    decreases cfg.len(),
{
    let prev = roots_of(cfg.drop_last());
    if i < prev.len() {
        law_folder_named_after_final_component(cfg.drop_last(), i);
        assert(roots_of(cfg)[i] == prev[i]);
    } else {
        assert(roots_of(cfg)[i] == shared_folder_of(cfg.last().0, cfg.last().1));
    }
}

/// Every configured folder is shared: some root has the same path as its canonical form.
pub proof fn law_every_configured_folder_is_shared(cfg: Seq<(Seq<char>, Seq<char>)>, k: int)
    requires
        0 <= k < cfg.len(),
    ensures
        has_root_path(roots_of(cfg), cfg[k].1),
    decreases cfg.len(),
{
    let prev = roots_of(cfg.drop_last());
    if k < cfg.len() - 1 {
        law_every_configured_folder_is_shared(cfg.drop_last(), k);
        assert(cfg.drop_last()[k] == cfg[k]);
        let i = choose|i: int| 0 <= i < prev.len() && same_path(#[trigger] prev[i].path, cfg[k].1);
        assert(roots_of(cfg)[i] == prev[i]);
    } else if !has_root_path(prev, cfg[k].1) {
        assert(roots_of(cfg)[prev.len() as int].path == cfg[k].1);
    }
}

/// The name of the folder configured as `path` with canonical form `canonical`.
pub fn folder_name(path: &str, canonical: &str) -> (r: String)
    ensures
        r@ == folder_name_of(path@, canonical@),
{
    match file_name_of(canonical) {
        Some(n) => n,
        None => match file_name_of(path) {
            Some(n) => n,
            None => String::from_str(canonical),
        },
    }
}

/// Builds the list of shared folders from the configured ones.
pub fn build(folders: &Vec<ConfiguredFolder>) -> (roots: Vec<SharedFolder>)
    ensures
        folder_views(roots@) == roots_of(configured_views(folders@)),
{
    let ghost cfg = configured_views(folders@);
    let mut roots: Vec<SharedFolder> = Vec::new();
    let mut i: usize = 0;
    assert(cfg.take(0) =~= Seq::<(Seq<char>, Seq<char>)>::empty());
    assert(folder_views(roots@) =~= Seq::<FolderView>::empty());
    while i < folders.len()
        invariant
            i <= folders.len(),
            cfg == configured_views(folders@),
            folder_views(roots@) == roots_of(cfg.take(i as int)),
        decreases folders.len() - i,
    {
        let entry = &folders[i];
        let ghost prev = folder_views(roots@);
        assert(cfg.take(i + 1).drop_last() =~= cfg.take(i as int));
        assert(cfg.take(i + 1).last() == (entry.path@, entry.canonical@));
        let mut seen = false;
        let mut k: usize = 0;
        while k < roots.len()
            invariant
                k <= roots.len(),
                prev == folder_views(roots@),
                seen ==> has_root_path(prev, entry.canonical@),
                !seen ==> forall|j: int| 0 <= j < k ==> !same_path(#[trigger] prev[j].path, entry.canonical@),
            decreases roots.len() - k,
        {
            if !seen && paths_equal(roots[k].path.as_str(), entry.canonical.as_str()) {
                assert(same_path(prev[k as int].path, entry.canonical@));
                seen = true;
            }
            k = k + 1;
        }
        if !seen {
            let folder = SharedFolder {
                id: folder_id(entry.canonical.as_str()),
                name: folder_name(entry.path.as_str(), entry.canonical.as_str()),
                path: entry.canonical.clone(),
            };
            roots.push(folder);
            assert(folder_views(roots@) =~= prev.push(
                shared_folder_of(entry.path@, entry.canonical@),
            ));
        }
        i = i + 1;
    }
    assert(cfg.take(folders.len() as int) =~= cfg);
    roots
}

/// Index of the first folder with the id `id`, if any.
pub open spec fn first_with_id(folders: Seq<FolderView>, id: Seq<char>) -> Option<int>
    decreases folders.len(),
{
    if folders.len() == 0 {
        None
    } else {
        match first_with_id(folders.drop_last(), id) {
            Some(i) => Some(i),
            None => if folders.last().id == id {
                Some(folders.len() - 1)
            } else {
                None
            },
        }
    }
}

proof fn lemma_first_with_id(folders: Seq<FolderView>, id: Seq<char>)
    ensures
        match first_with_id(folders, id) {
            Some(i) => 0 <= i < folders.len() && folders[i].id == id && forall|j: int|
                0 <= j < i ==> #[trigger] folders[j].id != id,
            None => forall|j: int| 0 <= j < folders.len() ==> #[trigger] folders[j].id != id,
        },
    decreases folders.len(),
{
    if folders.len() > 0 {
        let rest = folders.drop_last();
        lemma_first_with_id(rest, id);
        assert forall|j: int| 0 <= j < rest.len() implies rest[j] == folders[j] by {}
    }
}

proof fn lemma_first_with_id_prefix(folders: Seq<FolderView>, id: Seq<char>, k: int)
    requires
        0 <= k <= folders.len(),
        first_with_id(folders.take(k), id) is Some,
    ensures
        first_with_id(folders, id) == first_with_id(folders.take(k), id),
    decreases folders.len() - k,
{
    if k < folders.len() {
        let next = folders.take(k + 1);
        assert(next.drop_last() =~= folders.take(k));
        lemma_first_with_id_prefix(folders, id, k + 1);
    } else {
        assert(folders.take(k) =~= folders);
    }
}

/// The first folder whose id is `id`.
pub fn find_root(folders: &Vec<SharedFolder>, id: &str) -> (r: Option<SharedFolder>)
    ensures
        match first_with_id(folder_views(folders@), id@) {
            Some(i) => r matches Some(f) && f@ == folders@[i]@,
            None => r is None,
        },
{
    let ghost fv = folder_views(folders@);
    let wanted = String::from_str(id);
    let mut i: usize = 0;
    assert(fv.take(0) =~= Seq::<FolderView>::empty());
    while i < folders.len()
        invariant
            i <= folders.len(),
            fv == folder_views(folders@),
            wanted@ == id@,
            first_with_id(fv.take(i as int), id@) is None,
        decreases folders.len() - i,
    {
        assert(fv.take(i + 1).drop_last() =~= fv.take(i as int));
        if folders[i].id == wanted {
            assert(first_with_id(fv.take(i + 1), id@) == Some(i as int));
            proof {
                lemma_first_with_id_prefix(fv, id@, i + 1);
            }
            return Some(folders[i].duplicate());
        }
        i = i + 1;
    }
    assert(fv.take(folders.len() as int) =~= fv);
    None
}

/// The ids of `folders`, in order.
pub fn folder_ids(folders: &Vec<SharedFolder>) -> (r: Vec<String>)
    ensures
        r@.len() == folders@.len(),
        forall|i: int| 0 <= i < r@.len() ==> #[trigger] r@[i]@ == folders@[i].id@,
{
    let mut r: Vec<String> = Vec::new();
    let mut i: usize = 0;
    while i < folders.len()
        invariant
            i <= folders.len(),
            r@.len() == i,
            forall|k: int| 0 <= k < i ==> #[trigger] r@[k]@ == folders@[k].id@,
        decreases folders.len() - i,
    {
        r.push(folders[i].id.clone());
        i = i + 1;
    }
    r
}

/// Every id in `s`, in order.
pub open spec fn ids_of(s: Seq<FolderView>) -> Seq<Seq<char>> {
    s.map_values(|f: FolderView| f.id)
}

/// The text of each string in `s`.
pub open spec fn string_views(s: Seq<String>) -> Seq<Seq<char>> {
    s.map_values(|x: String| x@)
}

/// `s` is the list of shared folders built from some configuration.
pub open spec fn is_built(s: Seq<FolderView>) -> bool {
    exists|cfg: Seq<(Seq<char>, Seq<char>)>| #[trigger] roots_of(cfg) == s
}

/// `r` is what looking `id` up in `l` gives: the first folder with that id, or nothing.
pub open spec fn lookup_in(l: Seq<FolderView>, id: Seq<char>, r: Option<SharedFolder>) -> bool {
    match first_with_id(l, id) {
        Some(i) => r matches Some(f) && f@ == l[i],
        None => r is None,
    }
}

/// A list of shared folders as `build` made it from some configuration: the
/// value that the desktop side publishes and the server reads.
pub struct FolderList {
    folders: Arc<Vec<SharedFolder>>,
}

impl View for FolderList {
    type V = Seq<FolderView>;

    closed spec fn view(&self) -> Seq<FolderView> {
        folder_views(self.folders@)
    }
}

impl FolderList {
    #[verifier::type_invariant]
    closed spec fn was_built(self) -> bool {
        is_built(folder_views(self.folders@))
    }

    /// The list built from the configured folders `folders`.
    fn from_config(folders: &Vec<ConfiguredFolder>) -> (r: FolderList)
        ensures
            r@ == roots_of(configured_views(folders@)),
    {
        let built = build(folders);
        FolderList { folders: Arc::new(built) }
    }

    /// The folders of the list, shared rather than copied.
    fn shared(&self) -> (r: Arc<Vec<SharedFolder>>)
        ensures
            folder_views(r@) == self@,
            is_built(self@),
    {
        proof {
            use_type_invariant(self);
        }
        share_folders(&self.folders)
    }
}

/// Calls `Arc::clone`, which std documents as making another pointer to the
/// same allocation: the result points to the same list.
#[verifier::external_body]
fn share_folders(a: &Arc<Vec<SharedFolder>>) -> (r: Arc<Vec<SharedFolder>>)
    ensures
        r == *a,
{
    Arc::clone(a)
}

/// The sending half of a `tokio::sync::watch` channel.
#[verifier::external_type_specification]
#[verifier::external_body]
#[verifier::reject_recursive_types(T)]
pub struct ExWatchSender<T>(tokio::sync::watch::Sender<T>);

/// The receiving half of a `tokio::sync::watch` channel.
#[verifier::external_type_specification]
#[verifier::external_body]
#[verifier::reject_recursive_types(T)]
pub struct ExWatchReceiver<T>(tokio::sync::watch::Receiver<T>);

/// The list that the watch channel of the receiver `rx` was opened with.
pub uninterp spec fn receiver_opened_with(rx: Receiver<Arc<FolderList>>) -> Seq<FolderView>;

/// The list that the watch channel of the sender `tx` was opened with.
pub uninterp spec fn sender_opened_with(tx: Sender<Arc<FolderList>>) -> Seq<FolderView>;

/// The list most recently handed to the watch channel through the sender
/// `tx`, or the list the channel was opened with where none has been yet.
pub uninterp spec fn last_sent(tx: Sender<Arc<FolderList>>) -> Seq<FolderView>;

/// The sender `tx` and the receiver `rx` belong to one watch channel.
pub uninterp spec fn same_channel(tx: Sender<Arc<FolderList>>, rx: Receiver<Arc<FolderList>>) -> bool;

/// The list `l` is one that the watch channel of `rx` holds at some time in
/// the run: the list it was opened with, or one sent on it.
pub uninterp spec fn sent_to(rx: Receiver<Arc<FolderList>>, l: Seq<FolderView>) -> bool;

/// Calls `tokio::sync::watch::channel`, which puts `init` in the state that
/// both halves share: each half belongs to a channel opened with `init`.
/// What a receiver sees later depends on the sends made through the sender,
/// shared state that no contract here follows.
#[verifier::external_body]
fn open_folder_channel(init: Arc<FolderList>) -> (r: (
    Sender<Arc<FolderList>>,
    Receiver<Arc<FolderList>>,
))
    ensures
        sender_opened_with(r.0) == init@,
        last_sent(r.0) == init@,
        receiver_opened_with(r.1) == init@,
        same_channel(r.0, r.1),
        sent_to(r.1, init@),
{
    tokio::sync::watch::channel(init)
}

/// Calls `Receiver::borrow` and clones the `Arc` it shows: the value the
/// channel of `rx` holds now, so one that it holds at some time. Which one
/// depends on the sends made so far, shared state that is not followed.
#[verifier::external_body]
fn latest_folders(rx: &Receiver<Arc<FolderList>>) -> (r: Arc<FolderList>)
    ensures
        sent_to(*rx, r@),
{
    rx.borrow().clone()
}

/// Calls `Sender::send_replace`, which stores `folders` in the channel's
/// shared state: it is then the list last sent through `tx`, the channel of
/// every receiver of `tx`'s channel holds it, and `tx` still belongs to the
/// channel it was opened with. (`send_replace` takes `&self`; the `&mut` lets
/// the contract follow what this sender last sent.)
#[verifier::external_body]
fn publish_folders(tx: &mut Sender<Arc<FolderList>>, folders: Arc<FolderList>)
    ensures
        last_sent(*final(tx)) == folders@,
        sender_opened_with(*final(tx)) == sender_opened_with(*old(tx)),
        forall|rx: Receiver<Arc<FolderList>>| #[trigger] same_channel(*old(tx), rx) ==> same_channel(*final(tx), rx)
            && sent_to(rx, folders@),
{
    tx.send_replace(folders);
}

/// `Receiver::clone` gives a receiver of the same channel; what it will see
/// is shared state, so nothing is stated of it.
pub assume_specification<T>[ <tokio::sync::watch::Receiver<T> as Clone>::clone ](
    rx: &tokio::sync::watch::Receiver<T>,
) -> tokio::sync::watch::Receiver<T>;

/// The server's read side of the shared folders.
#[derive(Clone)]
pub struct AppState {
    folders: Receiver<Arc<FolderList>>,
}

impl AppState {
    /// The list of shared folders that this state's channel was opened with.
    pub closed spec fn opened_with(&self) -> Seq<FolderView> {
        receiver_opened_with(self.folders)
    }

    /// The list `l` is one that this state's channel holds at some time.
    pub closed spec fn was_sent(&self, l: Seq<FolderView>) -> bool {
        sent_to(self.folders, l)
    }

    /// A state holding the folders built from `folders`.
    pub fn new(folders: &Vec<ConfiguredFolder>) -> (r: AppState)
        ensures
            r.opened_with() == roots_of(configured_views(folders@)),
            r.was_sent(roots_of(configured_views(folders@))),
    {
        FolderHandle::new(folders).1
    }

    /// The current list of shared folders: one that this state's channel
    /// holds, and so one built from some configuration, since only built lists
    /// are ever published.
    pub fn folders(&self) -> (r: Arc<Vec<SharedFolder>>)
        ensures
            is_built(folder_views(r@)),
            self.was_sent(folder_views(r@)),
    {
        let list = latest_folders(&self.folders);
        list.shared()
    }

    /// The ids of the current shared folders.
    pub fn root_ids(&self) -> (r: Vec<String>)
        ensures
            exists|l: Seq<FolderView>|
                #[trigger] is_built(l) && self.was_sent(l) && string_views(r@) == ids_of(l),
    {
        let folders = self.folders();
        let ids = folder_ids(&*folders);
        assert(string_views(ids@) =~= ids_of(folder_views(folders@)));
        ids
    }

    /// The current shared folder with the id `id`, if any.
    pub fn root_by_id(&self, id: &str) -> (r: Option<SharedFolder>)
        ensures
            r matches Some(f) ==> f.id@ == id@,
            exists|l: Seq<FolderView>|
                #[trigger] is_built(l) && self.was_sent(l) && lookup_in(l, id@, r),
    {
        let folders = self.folders();
        let found = find_root(&*folders, id);
        proof {
            lemma_first_with_id(folder_views(folders@), id@);
            assert(lookup_in(folder_views(folders@), id@, found));
        }
        found
    }
}

/// The desktop side's write handle on the shared folders.
pub struct FolderHandle {
    tx: Sender<Arc<FolderList>>,
}

impl FolderHandle {
    /// The list of shared folders that this handle's channel was opened with.
    pub closed spec fn opened_with(&self) -> Seq<FolderView> {
        sender_opened_with(self.tx)
    }

    /// The list of shared folders that this handle handed to the channel last.
    pub closed spec fn published(&self) -> Seq<FolderView> {
        last_sent(self.tx)
    }

    /// The handle sends on the channel that `state` reads.
    pub closed spec fn feeds(&self, state: AppState) -> bool {
        same_channel(self.tx, state.folders)
    }

    /// A handle and a state, both on one channel opened with the folders built
    /// from `folders`.
    pub fn new(folders: &Vec<ConfiguredFolder>) -> (r: (FolderHandle, AppState))
        ensures
            r.0.opened_with() == roots_of(configured_views(folders@)),
            r.0.published() == roots_of(configured_views(folders@)),
            r.1.opened_with() == roots_of(configured_views(folders@)),
            r.1.was_sent(roots_of(configured_views(folders@))),
            r.0.feeds(r.1),
    {
        let (tx, rx) = open_folder_channel(Arc::new(FolderList::from_config(folders)));
        (FolderHandle { tx }, AppState { folders: rx })
    }

    /// Replaces the shared folders with those built from `folders`: sends them
    /// through the channel.
    pub fn update(&mut self, folders: &Vec<ConfiguredFolder>)
        ensures
            final(self).published() == roots_of(configured_views(folders@)),
            final(self).opened_with() == old(self).opened_with(),
            forall|state: AppState| #[trigger] old(self).feeds(state) ==> final(self).feeds(state)
                && state.was_sent(roots_of(configured_views(folders@))),
    {
        publish_folders(&mut self.tx, Arc::new(FolderList::from_config(folders)));
    }
}

} // verus!
