//! The saved settings: the list of shared folders.
use vstd::prelude::*;
use crate::paths::{paths_equal, same_path};

verus! {

/// The settings that persist between runs.
#[derive(Debug, Clone)]
pub struct Config {
    pub folders: Vec<String>,
}

/// The texts of a list of strings.
pub open spec fn texts(v: Seq<String>) -> Seq<Seq<char>> {
    v.map_values(|s: String| s@)
}

impl View for Config {
    type V = Seq<Seq<char>>;

    open spec fn view(&self) -> Seq<Seq<char>> {
        texts(self.folders@)
    }
}

/// Some folder of `folders` names the same path as `f`.
pub open spec fn lists_path(folders: Seq<Seq<char>>, f: Seq<char>) -> bool {
    exists|i: int| 0 <= i < folders.len() && same_path(#[trigger] folders[i], f)
}

/// `folders` with `f` appended, unless a folder naming the same path is listed.
pub open spec fn with_path(folders: Seq<Seq<char>>, f: Seq<char>) -> Seq<Seq<char>> {
    if lists_path(folders, f) {
        folders
    } else {
        folders.push(f)
    }
}

/// `folders` without those that name the same path as `f`, order kept.
pub open spec fn without_path(folders: Seq<Seq<char>>, f: Seq<char>) -> Seq<Seq<char>>
    decreases folders.len(),
{
    if folders.len() == 0 {
        Seq::empty()
    } else if same_path(folders.last(), f) {
        without_path(folders.drop_last(), f)
    } else {
        without_path(folders.drop_last(), f).push(folders.last())
    }
}

/// No folder of the list names the same path as a later one.
pub open spec fn no_repeated_path(folders: Seq<Seq<char>>) -> bool {
    forall|i: int, j: int| 0 <= i < j < folders.len() ==> !same_path(#[trigger] folders[i], #[trigger] folders[j])
}

impl Default for Config {
    fn default() -> (c: Config)
        ensures
            c@ == Seq::<Seq<char>>::empty(),
    {
        let c = Config { folders: Vec::new() };
        assert(c@ =~= Seq::<Seq<char>>::empty());
        c
    }
}

impl Config {
    /// Adds `folder` unless a folder naming the same path is already listed.
    pub fn add_folder(&mut self, folder: String)
        ensures
            final(self)@ == with_path(old(self)@, folder@),
    {
        let n = self.folders.len();
        let mut i: usize = 0;
        while i < n
            invariant
                n == self.folders.len(),
                i <= n,
                forall|j: int| 0 <= j < i ==> !same_path(#[trigger] self@[j], folder@),
            decreases n - i,
        {
            if paths_equal(self.folders[i].as_str(), folder.as_str()) {
                assert(same_path(self@[i as int], folder@));
                assert(lists_path(self@, folder@));
                return;
            }
            i = i + 1;
        }
        let ghost before = self@;
        self.folders.push(folder);
        assert(self@ =~= before.push(folder@));
    }

    /// Removes every folder that names the same path as `folder`.
    pub fn remove_folder(&mut self, folder: &str)
        ensures
            final(self)@ == without_path(old(self)@, folder@),
    {
        let ghost start = self@;
        let mut kept: Vec<String> = Vec::new();
        let n = self.folders.len();
        let mut i: usize = 0;
        while i < n
            invariant
                n == self.folders.len(),
                i <= n,
                start == self@,
                texts(kept@) == without_path(start.take(i as int), folder@),
            decreases n - i,
        {
            let f = &self.folders[i];
            assert(start.take(i + 1).drop_last() =~= start.take(i as int));
            if !paths_equal(f.as_str(), folder) {
                let ghost k = texts(kept@);
                kept.push(f.clone());
                assert(texts(kept@) =~= k.push(start[i as int]));
            }
            i = i + 1;
        }
        assert(start.take(n as int) =~= start);
        self.folders = kept;
    }
}

/// After adding a folder, the list names its path.
pub proof fn law_added_folder_is_listed(before: Seq<Seq<char>>, f: Seq<char>)
    ensures
        lists_path(with_path(before, f), f),
{
    if !lists_path(before, f) {
        assert(same_path(with_path(before, f)[before.len() as int], f));
    }
}

/// Adding the same folder twice leaves the list as adding it once.
pub proof fn law_add_folder_idempotent(before: Seq<Seq<char>>, f: Seq<char>)
    ensures
        with_path(with_path(before, f), f) == with_path(before, f),
{
    law_added_folder_is_listed(before, f);
}

/// Adding keeps the list free of repeated paths.
pub proof fn law_add_folder_keeps_paths_distinct(before: Seq<Seq<char>>, f: Seq<char>)
    requires
        no_repeated_path(before),
    ensures
        no_repeated_path(with_path(before, f)),
{
    let after = with_path(before, f);
    if !lists_path(before, f) {
        assert forall|i: int, j: int| 0 <= i < j < after.len() implies !same_path(
            #[trigger] after[i],
            #[trigger] after[j],
        ) by {
            if j == before.len() {
                assert(!same_path(before[i], f));
            } else {
                assert(after[i] == before[i] && after[j] == before[j]);
            }
        }
    }
}

/// Every folder left after a removal is one of the folders before it.
pub proof fn lemma_without_path_subsequence(folders: Seq<Seq<char>>, f: Seq<char>)
    ensures
        without_path(folders, f).len() <= folders.len(),
        forall|k: int|
            0 <= k < without_path(folders, f).len() ==> !same_path(
                #[trigger] without_path(folders, f)[k],
                f,
            ),
        forall|k: int|
            0 <= k < without_path(folders, f).len() ==> exists|i: int|
                0 <= i < folders.len() && folders[i] == #[trigger] without_path(folders, f)[k],
    decreases folders.len(),
{
    if folders.len() > 0 {
        let rest = folders.drop_last();
        lemma_without_path_subsequence(rest, f);
        let w = without_path(folders, f);
        assert forall|k: int| 0 <= k < w.len() implies exists|i: int|
            0 <= i < folders.len() && folders[i] == #[trigger] w[k] by {
            if k < without_path(rest, f).len() {
                let i = choose|i: int| 0 <= i < rest.len() && rest[i] == without_path(rest, f)[k];
                assert(folders[i] == w[k]);
            } else {
                assert(folders[folders.len() - 1] == w[k]);
            }
        }
    }
}

/// After removing a folder, no listed folder names its path.
pub proof fn law_removed_folder_is_gone(before: Seq<Seq<char>>, f: Seq<char>)
    ensures
        !lists_path(without_path(before, f), f),
{
    lemma_without_path_subsequence(before, f);
}

/// Removing a folder that was just added takes its path off the list.
pub proof fn law_remove_undoes_add(before: Seq<Seq<char>>, f: Seq<char>)
    ensures
        !lists_path(without_path(with_path(before, f), f), f),
        !lists_path(before, f) ==> without_path(with_path(before, f), f) == before,
{
    let added = with_path(before, f);
    lemma_without_path_subsequence(added, f);
    if !lists_path(before, f) {
        assert(added.drop_last() =~= before);
        assert(same_path(added.last(), f));
        lemma_without_unlisted_path(before, f);
    }
}

/// Removing a path that is not listed changes nothing.
pub proof fn lemma_without_unlisted_path(folders: Seq<Seq<char>>, f: Seq<char>)
    requires
        !lists_path(folders, f),
    ensures
        without_path(folders, f) == folders,
    decreases folders.len(),
{
    if folders.len() > 0 {
        let rest = folders.drop_last();
        assert(!lists_path(rest, f)) by {
            if lists_path(rest, f) {
                let i = choose|i: int| 0 <= i < rest.len() && same_path(rest[i], f);
                assert(same_path(folders[i], f));
            }
        }
        lemma_without_unlisted_path(rest, f);
        assert(!same_path(folders[folders.len() - 1], f));
        assert(rest.push(folders.last()) =~= folders);
    } else {
        assert(folders =~= Seq::<Seq<char>>::empty());
    }
}

/// Removing keeps the list free of repeated paths.
pub proof fn law_remove_folder_keeps_paths_distinct(before: Seq<Seq<char>>, f: Seq<char>)
    requires
        no_repeated_path(before),
    ensures
        no_repeated_path(without_path(before, f)),
    decreases before.len(),
{
    if before.len() > 0 {
        let rest = before.drop_last();
        assert(no_repeated_path(rest)) by {
            assert forall|i: int, j: int| 0 <= i < j < rest.len() implies !same_path(
                #[trigger] rest[i],
                #[trigger] rest[j],
            ) by {
                assert(rest[i] == before[i] && rest[j] == before[j]);
            }
        }
        law_remove_folder_keeps_paths_distinct(rest, f);
        lemma_without_path_subsequence(rest, f);
        let w = without_path(before, f);
        let wr = without_path(rest, f);
        if !same_path(before.last(), f) {
            assert forall|i: int, j: int| 0 <= i < j < w.len() implies !same_path(
                #[trigger] w[i],
                #[trigger] w[j],
            ) by {
                if j == wr.len() {
                    let k = choose|k: int| 0 <= k < rest.len() && rest[k] == wr[i];
                    assert(before[k] == w[i]);
                    assert(w[j] == before[before.len() - 1]);
                } else {
                    assert(w[i] == wr[i] && w[j] == wr[j]);
                }
            }
        }
    }
}

} // verus!
