//! Where instruction files are looked for, and which of them count.

use crate::sorted;
use crate::text;
use vstd::prelude::*;

verus! {

// ---------------------------------------------------------------------------
// Directories
// ---------------------------------------------------------------------------

/// The nearest directory that is the root of a repository, counted from the working
/// directory upwards; nothing where none is.
pub open spec fn project_root(has_git: Seq<bool>) -> Option<nat>
    decreases has_git.len(),
{
    if has_git.len() == 0 {
        None
    } else if has_git[0] {
        Some(0)
    } else {
        match project_root(has_git.drop_first()) {
            Some(steps) => Some(steps + 1),
            None => None,
        }
    }
}

/// The directories to search, each counted from the working directory upwards: from
/// the root of the repository down to the working directory, which stands alone
/// where there is no repository.
pub open spec fn search_dirs(has_git: Seq<bool>) -> Seq<usize> {
    match project_root(has_git) {
        Some(steps) => Seq::new(steps + 1, |i: int| (steps - i) as usize),
        None => seq![0usize],
    }
}

/// The directories to search, each counted from the working directory upwards.
/// `has_git` tells of the working directory and of each directory above it in turn
/// whether it is the root of a repository.
pub fn agents_md_search_dirs(has_git: &Vec<bool>) -> (dirs: Vec<usize>)
    ensures
        dirs@ == search_dirs(has_git@),
{
    let mut root: usize = 0;
    assert(has_git@.skip(0) =~= has_git@);
    while root < has_git.len() && !has_git[root]
        invariant
            root <= has_git@.len(),
            project_root(has_git@) == match project_root(has_git@.skip(root as int)) {
                Some(steps) => Some((steps + root) as nat),
                None => None,
            },
        decreases has_git@.len() - root,
    {
        assert(has_git@.skip(root as int).drop_first() =~= has_git@.skip(root + 1));
        root = root + 1;
    }
    let mut dirs: Vec<usize> = Vec::new();
    if root == has_git.len() {
        dirs.push(0);
        return dirs;
    }
    let mut next: usize = root;
    while next > 0
        invariant
            next <= root,
            dirs@.len() == root - next,
            forall|i: int| 0 <= i < dirs@.len() ==> #[trigger] dirs@[i] == root - i,
        decreases next,
    {
        dirs.push(next);
        next = next - 1;
    }
    dirs.push(0);
    dirs
}

// ---------------------------------------------------------------------------
// File names
// ---------------------------------------------------------------------------

/// The names of instruction files in the order of preference: the fixed ones, then
/// the configured ones; empty and repeated names are left out.
pub open spec fn candidate_names(fallbacks: Seq<Seq<char>>) -> Seq<Seq<char>>
    decreases fallbacks.len(),
{
    if fallbacks.len() == 0 {
        seq!["AGENTS.override.md"@, "AGENTS.md"@]
    } else {
        let names = candidate_names(fallbacks.drop_last());
        let name = fallbacks.last();
        if name.len() == 0 || names.contains(name) {
            names
        } else {
            names.push(name)
        }
    }
}

/// Tells whether a text is among others.
fn is_among(names: &Vec<String>, name: &str) -> (yes: bool)
    ensures
        yes == text::texts(names@).contains(name@),
{
    let mut i: usize = 0;
    while i < names.len()
        invariant
            i <= names@.len(),
            forall|k: int| 0 <= k < i ==> #[trigger] text::texts(names@)[k] != name@,
        decreases names@.len() - i,
    {
        assert(text::texts(names@)[i as int] == names@[i as int]@);
        if text::same_text(names[i].as_str(), name) {
            return true;
        }
        i = i + 1;
    }
    false
}

/// The names of instruction files in the order of preference.
pub fn agents_md_candidate_filenames(fallbacks: &Vec<String>) -> (names: Vec<String>)
    ensures
        text::texts(names@) == candidate_names(text::texts(fallbacks@)),
{
    let ghost all = text::texts(fallbacks@);
    let mut names: Vec<String> = Vec::new();
    names.push("AGENTS.override.md".to_string());
    names.push("AGENTS.md".to_string());
    assert(text::texts(names@) =~= candidate_names(all.take(0)));
    let mut i: usize = 0;
    while i < fallbacks.len()
        invariant
            i <= fallbacks@.len(),
            all == text::texts(fallbacks@),
            text::texts(names@) == candidate_names(all.take(i as int)),
        decreases fallbacks@.len() - i,
    {
        let ghost before = text::texts(names@);
        let name = fallbacks[i].as_str();
        assert(all.take(i + 1).drop_last() =~= all.take(i as int));
        assert(all.take(i + 1).last() == name@);
        if name.unicode_len() != 0 && !is_among(&names, name) {
            names.push(name.to_string());
            assert(text::texts(names@) =~= before.push(name@));
        }
        i = i + 1;
    }
    assert(all.take(i as int) =~= all);
    names
}

// ---------------------------------------------------------------------------
// Sources
// ---------------------------------------------------------------------------

/// A file that may hold instructions.
#[derive(Debug, Clone, PartialEq, Eq)]
pub struct Candidate {
    pub path: String,
    pub is_file: bool,
}

/// The first of the candidates in a directory that is a file.
pub open spec fn first_file(candidates: Seq<Candidate>) -> Option<Seq<char>>
    decreases candidates.len(),
{
    if candidates.len() == 0 {
        None
    } else if candidates[0].is_file {
        Some(candidates[0].path@)
    } else {
        first_file(candidates.drop_first())
    }
}

/// The first of the candidates in a directory that is a file.
fn find_file(candidates: &Vec<Candidate>) -> (found: Option<String>)
    ensures
        text::maybe_text(found) == first_file(candidates@),
{
    let mut i: usize = 0;
    assert(candidates@.skip(0) =~= candidates@);
    while i < candidates.len()
        invariant
            i <= candidates@.len(),
            first_file(candidates@) == first_file(candidates@.skip(i as int)),
        decreases candidates@.len() - i,
    {
        if candidates[i].is_file {
            return Some(candidates[i].path.clone());
        }
        assert(candidates@.skip(i as int).drop_first() =~= candidates@.skip(i + 1));
        i = i + 1;
    }
    None
}

/// The candidates in each directory that is searched.
pub open spec fn candidate_lists(dirs: Seq<Vec<Candidate>>) -> Seq<Seq<Candidate>> {
    Seq::new(dirs.len(), |i: int| dirs[i]@)
}

/// The files that count, in ascending order, each once: the user's own, and the first
/// in each directory.
pub open spec fn sources(user: Option<Seq<char>>, dirs: Seq<Seq<Candidate>>) -> Seq<Seq<char>>
    decreases dirs.len(),
{
    if dirs.len() == 0 {
        match user {
            Some(path) => seq![path],
            None => Seq::empty(),
        }
    } else {
        let before = sources(user, dirs.drop_last());
        match first_file(dirs.last()) {
            Some(path) => sorted::with_text(before, path),
            None => before,
        }
    }
}

/// The files that count: the user's own, where it is there, and the first in each
/// directory.
pub fn agents_md_sources(user: &Option<String>, dirs: &Vec<Vec<Candidate>>) -> (found: Vec<String>)
    ensures
        text::texts(found@) == sources(text::maybe_text(*user), candidate_lists(dirs@)),
{
    let ghost all = candidate_lists(dirs@);
    let ghost own = text::maybe_text(*user);
    let mut found: Vec<String> = Vec::new();
    if let Some(path) = user {
        found.push(path.clone());
    }
    assert(text::texts(found@) =~= sources(own, all.take(0)));
    let mut i: usize = 0;
    while i < dirs.len()
        invariant
            i <= dirs@.len(),
            all == candidate_lists(dirs@),
            text::texts(found@) == sources(own, all.take(i as int)),
        decreases dirs@.len() - i,
    {
        assert(all.take(i + 1).drop_last() =~= all.take(i as int));
        assert(all.take(i + 1).last() == dirs@[i as int]@);
        if let Some(path) = find_file(&dirs[i]) {
            sorted::insert(&mut found, path);
        }
        i = i + 1;
    }
    assert(all.take(i as int) =~= all);
    found
}

// ---------------------------------------------------------------------------
// Laws
// ---------------------------------------------------------------------------

/// The search ends at the working directory, goes down one directory at a time, and
/// begins at the nearest root of a repository, if there is one.
pub proof fn law_search_goes_down_to_the_working_directory(has_git: Seq<bool>)
    requires
        has_git.len() <= usize::MAX,
    ensures
        search_dirs(has_git).len() > 0,
        search_dirs(has_git).last() == 0,
        forall|i: int|
            0 <= i < search_dirs(has_git).len() - 1 ==> #[trigger] search_dirs(has_git)[i]
                == search_dirs(has_git)[i + 1] + 1,
        forall|i: int|
            1 <= i < search_dirs(has_git).len() ==> !has_git[#[trigger] search_dirs(
                has_git,
            )[i] as int],
        (exists|i: int| 0 <= i < has_git.len() && #[trigger] has_git[i])
            ==> search_dirs(has_git)[0] < has_git.len()
            && has_git[search_dirs(has_git)[0] as int],
{
    lemma_project_root(has_git);
}

proof fn lemma_project_root(has_git: Seq<bool>)
    ensures
        match project_root(has_git) {
            Some(steps) => steps < has_git.len() && has_git[steps as int] && forall|i: int|
                0 <= i < steps ==> !#[trigger] has_git[i],
            None => forall|i: int| 0 <= i < has_git.len() ==> !#[trigger] has_git[i],
        },
    decreases has_git.len(),
{
    if has_git.len() > 0 && !has_git[0] {
        let rest = has_git.drop_first();
        lemma_project_root(rest);
        assert forall|i: int| 1 <= i < has_git.len() implies #[trigger] has_git[i] == rest[i
            - 1] by {}
    }
}

/// No name is empty or comes twice; the fixed names come first, and each configured
/// name that is not empty is there.
pub proof fn law_candidate_names(fallbacks: Seq<Seq<char>>)
    ensures
        candidate_names(fallbacks).len() >= 2,
        candidate_names(fallbacks)[0] == "AGENTS.override.md"@,
        candidate_names(fallbacks)[1] == "AGENTS.md"@,
        candidate_names(fallbacks).no_duplicates(),
        forall|i: int|
            0 <= i < candidate_names(fallbacks).len() ==> #[trigger] candidate_names(
                fallbacks,
            )[i].len() > 0,
        forall|i: int|
            0 <= i < fallbacks.len() && fallbacks[i].len() > 0 ==> candidate_names(
                fallbacks,
            ).contains(#[trigger] fallbacks[i]),
    decreases fallbacks.len(),
{
    let all = candidate_names(fallbacks);
    if fallbacks.len() == 0 {
        reveal_strlit("AGENTS.override.md");
        reveal_strlit("AGENTS.md");
        assert(all[0].len() != all[1].len());
    } else {
        let rest = fallbacks.drop_last();
        law_candidate_names(rest);
        let names = candidate_names(rest);
        assert forall|i: int| 0 <= i < fallbacks.len() && fallbacks[i].len() > 0 implies all.contains(
            #[trigger] fallbacks[i],
        ) by {
            if i < rest.len() {
                assert(rest[i] == fallbacks[i]);
                let k = choose|k: int| 0 <= k < names.len() && names[k] == fallbacks[i];
                assert(all[k] == fallbacks[i]);
            } else if all.len() > names.len() {
                assert(all[names.len() as int] == fallbacks[i]);
            }
        }
    }
}

/// Sources are shown in ascending order, each once: the user's own, and of each
/// directory the first file.
pub proof fn law_sources(user: Option<Seq<char>>, dirs: Seq<Seq<Candidate>>)
    ensures
        sorted::in_order(sources(user, dirs)),
        forall|path: Seq<char>|
            #[trigger] sources(user, dirs).contains(path) <==> user == Some(path) || exists|i: int|
                0 <= i < dirs.len() && first_file(#[trigger] dirs[i]) == Some(path),
    decreases dirs.len(),
{
    let all = sources(user, dirs);
    if dirs.len() == 0 {
        if user is Some {
            assert(all[0] == user->0);
        }
    } else {
        let rest = dirs.drop_last();
        let before = sources(user, rest);
        law_sources(user, rest);
        if let Some(path) = first_file(dirs.last()) {
            sorted::lemma_with_text_keeps_order(before, path);
        }
        assert forall|path: Seq<char>|
            #[trigger] all.contains(path) <==> user == Some(path) || exists|i: int|
                0 <= i < dirs.len() && first_file(#[trigger] dirs[i]) == Some(path) by {
            assert(all.contains(path) <==> before.contains(path) || first_file(dirs.last())
                == Some(path));
            if exists|i: int| 0 <= i < rest.len() && first_file(#[trigger] rest[i]) == Some(path) {
                let i = choose|i: int|
                    0 <= i < rest.len() && first_file(#[trigger] rest[i]) == Some(path);
                assert(dirs[i] == rest[i]);
            }
            if first_file(dirs.last()) == Some(path) {
                assert(dirs[dirs.len() - 1] == dirs.last());
            }
            if exists|i: int| 0 <= i < dirs.len() && first_file(#[trigger] dirs[i]) == Some(path) {
                let i = choose|i: int|
                    0 <= i < dirs.len() && first_file(#[trigger] dirs[i]) == Some(path);
                if i < rest.len() {
                    assert(rest[i] == dirs[i]);
                }
            }
        }
    }
}

/// Without a repository only the working directory is searched.
pub proof fn law_without_repository_one_directory_is_searched(has_git: Seq<bool>)
    requires
        forall|i: int| 0 <= i < has_git.len() ==> !#[trigger] has_git[i],
    ensures
        search_dirs(has_git) == seq![0usize],
{
    lemma_project_root(has_git);
}

/// What lies above the nearest root of a repository does not matter.
pub proof fn law_search_stops_at_the_nearest_repository(below: nat, above: Seq<bool>)
    requires
        below < usize::MAX,
    ensures
        search_dirs(Seq::new(below, |i: int| false).push(true) + above).len() == below + 1,
        search_dirs(Seq::new(below, |i: int| false).push(true) + above)[0] == below,
{
    let has_git = Seq::new(below, |i: int| false).push(true) + above;
    lemma_project_root(has_git);
    assert(has_git[below as int]);
    let root = project_root(has_git);
    if root is None || root->0 > below {
        assert(!has_git[below as int]);
    } else if root->0 < below {
        assert(has_git[root->0 as int]);
    }
}

/// A configured name is tried after all others, unless it is empty or is tried already.
pub proof fn law_configured_names_come_last(fallbacks: Seq<Seq<char>>, name: Seq<char>)
    ensures
        candidate_names(Seq::empty()) == seq!["AGENTS.override.md"@, "AGENTS.md"@],
        candidate_names(fallbacks.push(name)) == if name.len() > 0 && !candidate_names(
            fallbacks,
        ).contains(name) {
            candidate_names(fallbacks).push(name)
        } else {
            candidate_names(fallbacks)
        },
{
    assert(fallbacks.push(name).drop_last() =~= fallbacks);
}

/// Of the candidates of a directory the first one that is a file counts, and those behind it
/// do not matter.
pub proof fn law_first_file_counts(missing: Seq<Candidate>, found: Candidate, rest: Seq<Candidate>)
    requires
        forall|i: int| 0 <= i < missing.len() ==> !(#[trigger] missing[i]).is_file,
        found.is_file,
    ensures
        first_file(missing.push(found) + rest) == Some(found.path@),
        first_file(missing) is None,
    decreases missing.len(),
{
    let all = missing.push(found) + rest;
    if missing.len() == 0 {
        assert(all[0] == found);
    } else {
        let fewer = missing.drop_first();
        assert(all[0] == missing[0]);
        assert(all.drop_first() =~= fewer.push(found) + rest);
        assert forall|i: int| 0 <= i < fewer.len() implies !(#[trigger] fewer[i]).is_file by {
            assert(fewer[i] == missing[i + 1]);
        }
        law_first_file_counts(fewer, found, rest);
    }
}

/// The candidates of every directory are taken as they are.
pub proof fn law_candidates_are_taken_in_full(dirs: Seq<Vec<Candidate>>)
    ensures
        candidate_lists(dirs).len() == dirs.len(),
        forall|i: int| 0 <= i < dirs.len() ==> #[trigger] candidate_lists(dirs)[i] == dirs[i]@,
{
}

} // verus!
