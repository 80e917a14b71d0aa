//! What a directory listing holds for the engine: the sets of a root, and
//! the mod files of a directory.

use crate::names::{get_name_of_dir_or_file, has_mod_extension, is_mod_file_name, is_plain_name};
use crate::root::names_of;
use vstd::prelude::*;

verus! {

/// What kind of thing a directory entry is.
#[derive(Clone, Copy, Debug, PartialEq, Eq, Structural)]
pub enum EntryKind {
    File,
    Directory,
    Other,
}

/// One entry of a directory listing: its name in the directory, and its
/// kind.
#[derive(Debug, PartialEq, Eq)]
pub struct Entry {
    pub name: String,
    pub kind: EntryKind,
}

/// An entry as the contracts see it.
pub struct EntryView {
    pub name: Seq<char>,
    pub kind: EntryKind,
}

impl View for Entry {
    type V = EntryView;

    open spec fn view(&self) -> EntryView {
        EntryView { name: self.name@, kind: self.kind }
    }
}

/// A listing as the contracts see it.
pub open spec fn entries_of(listing: Seq<Entry>) -> Seq<EntryView> {
    listing.map_values(|e: Entry| e@)
}

/// The names of the entries, in order.
pub open spec fn entry_names(entries: Seq<EntryView>) -> Seq<Seq<char>> {
    entries.map_values(|e: EntryView| e.name)
}

/// What is looked for in a listing.
#[derive(Clone, Copy, Debug, PartialEq, Eq, Structural)]
pub enum Wanted {
    /// The sets of a root.
    Sets,
    /// The mod files of a directory.
    ModFiles,
}

/// Whether an entry of the root is a set: whether it is a directory.
pub open spec fn is_set_entry(e: EntryView) -> bool {
    e.kind == EntryKind::Directory
}

/// Whether an entry is a mod file: a regular file with the marker at the end
/// of its name.
pub open spec fn is_mod_entry(e: EntryView) -> bool {
    e.kind == EntryKind::File && has_mod_extension(e.name)
}

/// Whether an entry is what is looked for.
pub open spec fn is_wanted(e: EntryView, wanted: Wanted) -> bool {
    match wanted {
        Wanted::Sets => is_set_entry(e),
        Wanted::ModFiles => is_mod_entry(e),
    }
}

/// The names of the entries of a listing that are what is looked for, in
/// listing order.
pub open spec fn wanted_names(entries: Seq<EntryView>, wanted: Wanted) -> Seq<Seq<char>> {
    entry_names(entries.filter(|e: EntryView| is_wanted(e, wanted)))
}

/// The names of the sets that a listing of the root shows, in listing order.
pub open spec fn set_names(entries: Seq<EntryView>) -> Seq<Seq<char>> {
    wanted_names(entries, Wanted::Sets)
}

/// The names of the mod files that a listing shows, in listing order.
pub open spec fn mod_file_names(entries: Seq<EntryView>) -> Seq<Seq<char>> {
    wanted_names(entries, Wanted::ModFiles)
}

/// Among no entries no name is kept, and the first `len` entries are all of
/// them.
proof fn lemma_kept_names_ends(entries: Seq<EntryView>, keep: spec_fn(EntryView) -> bool)
    ensures
        entry_names(entries.take(0).filter(keep)) == Seq::<Seq<char>>::empty(),
        entries.take(entries.len() as int) == entries,
{
    reveal(Seq::filter);
    assert(entries.take(0).filter(keep) =~= Seq::empty());
    assert(entry_names(entries.take(0).filter(keep)) =~= Seq::empty());
    assert(entries.take(entries.len() as int) =~= entries);
}

/// The names among the first `i + 1` entries that `keep` lets through are
/// those among the first `i`, and the name of entry `i` behind them where
/// `keep` lets it through.
proof fn lemma_kept_names_step(entries: Seq<EntryView>, keep: spec_fn(EntryView) -> bool, i: int)
    requires
        0 <= i < entries.len(),
    ensures
        entry_names(entries.take(i + 1).filter(keep)) == if keep(entries[i]) {
            entry_names(entries.take(i).filter(keep)).push(entries[i].name)
        } else {
            entry_names(entries.take(i).filter(keep))
        },
{
    entries.lemma_take_succ_push(i);
    entries.take(i).lemma_filter_push(entries[i], keep);
    let kept = entries.take(i).filter(keep);
    assert(entry_names(kept.push(entries[i])) =~= entry_names(kept).push(entries[i].name));
}

/// Every name that is kept is the name of an entry, and where the entries
/// hold no name twice, neither do the names that are kept.
proof fn lemma_kept_names_distinct(entries: Seq<EntryView>, keep: spec_fn(EntryView) -> bool)
    ensures
        forall|name: Seq<char>| #[trigger]
            entry_names(entries.filter(keep)).contains(name) ==> entry_names(entries).contains(
                name,
            ),
        entry_names(entries).no_duplicates() ==> entry_names(entries.filter(keep)).no_duplicates(),
    decreases entries.len(),
{
    reveal(Seq::filter);
    if entries.len() > 0 {
        let front = entries.drop_last();
        let last = entries.last();
        let kept = front.filter(keep);
        lemma_kept_names_distinct(front, keep);
        assert(entry_names(front) =~= entry_names(entries).drop_last());
        assert(entry_names(entries).last() == last.name);
        assert forall|name: Seq<char>| #[trigger]
            entry_names(entries.filter(keep)).contains(name) implies entry_names(
            entries,
        ).contains(name) by {
            if entry_names(kept).contains(name) {
                assert(entry_names(front).contains(name));
                let j = choose|j: int|
                    0 <= j < entry_names(front).len() && entry_names(front)[j] == name;
                assert(entry_names(entries)[j] == name);
            } else {
                let k = choose|k: int|
                    0 <= k < entry_names(entries.filter(keep)).len() && entry_names(
                        entries.filter(keep),
                    )[k] == name;
                if keep(last) && k < kept.len() {
                    assert(entry_names(kept)[k] == name);
                }
                assert(entry_names(entries)[entries.len() - 1] == name);
            }
        }
        if entry_names(entries).no_duplicates() && keep(last) {
            assert(!entry_names(kept).contains(last.name)) by {
                if entry_names(kept).contains(last.name) {
                    assert(entry_names(front).contains(last.name));
                    let j = choose|j: int|
                        0 <= j < entry_names(front).len() && entry_names(front)[j] == last.name;
                    assert(entry_names(entries)[j] == entry_names(entries)[entries.len() - 1]);
                }
            }
            assert(entry_names(kept.push(last)) =~= entry_names(kept).push(last.name));
        }
    }
}

/// From a listing that holds no name twice, no set is listed twice and no
/// mod file is listed twice, and every name listed is a name of the listing.
pub proof fn lemma_listed_once(entries: Seq<EntryView>, wanted: Wanted)
    requires
        entry_names(entries).no_duplicates(),
    ensures
        wanted_names(entries, wanted).no_duplicates(),
        forall|name: Seq<char>| #[trigger]
            wanted_names(entries, wanted).contains(name) ==> entry_names(entries).contains(name),
{
    lemma_kept_names_distinct(entries, |e: EntryView| is_wanted(e, wanted));
}

impl Entry {
    /// The entry for what lies at `path` and is of kind `kind`: its name is
    /// the name of the path. `None` where the path has no name.
    pub fn from_path(path: &str, kind: EntryKind) -> (entry: Option<Entry>)
        ensures
            entry is Some ==> entry.unwrap().kind == kind && is_plain_name(entry.unwrap().name@),
    {
        match get_name_of_dir_or_file(path) {
            Some(name) => Some(Entry { name, kind }),
            None => None,
        }
    }
}

/// Whether `entry` is what is looked for.
fn wants(entry: &Entry, wanted: Wanted) -> (is: bool)
    ensures
        is == is_wanted(entry@, wanted),
{
    match (wanted, entry.kind) {
        (Wanted::Sets, EntryKind::Directory) => true,
        (Wanted::ModFiles, EntryKind::File) => is_mod_file_name(entry.name.as_str()),
        _ => false,
    }
}

/// The names of the entries of `listing` that are what is looked for, in
/// listing order.
fn list_names(listing: &Vec<Entry>, wanted: Wanted) -> (names: Vec<String>)
    ensures
        names_of(names@) == wanted_names(entries_of(listing@), wanted),
{
    let ghost entries = entries_of(listing@);
    let ghost keep = |e: EntryView| is_wanted(e, wanted);
    let mut names: Vec<String> = Vec::new();
    let mut i: usize = 0;
    proof {
        lemma_kept_names_ends(entries, keep);
        assert(names_of(names@) =~= Seq::<Seq<char>>::empty());
    }
    while i < listing.len()
        invariant
            i <= listing.len(),
            entries == entries_of(listing@),
            keep == |e: EntryView| is_wanted(e, wanted),
            names_of(names@) == entry_names(entries.take(i as int).filter(keep)),
        decreases listing.len() - i,
    {
        let ghost before = names_of(names@);
        proof {
            lemma_kept_names_step(entries, keep, i as int);
        }
        if wants(&listing[i], wanted) {
            names.push(listing[i].name.clone());
            assert(names_of(names@) =~= before.push(entries[i as int].name));
        }
        i += 1;
    }
    names
}

/// The sets of a root, from a listing of it: the name of every directory, in
/// listing order. Nothing else in the listing is a set.
pub fn get_all_configs(listing: &Vec<Entry>) -> (names: Vec<String>)
    ensures
        names_of(names@) == set_names(entries_of(listing@)),
{
    list_names(listing, Wanted::Sets)
}

/// The mod files of a directory, from a listing of it: the name of every
/// regular file whose name ends in the marker, in listing order. Other files
/// and subdirectories are left out.
pub fn get_all_mod_files_in_dir(listing: &Vec<Entry>) -> (names: Vec<String>)
    ensures
        names_of(names@) == mod_file_names(entries_of(listing@)),
{
    list_names(listing, Wanted::ModFiles)
}

} // verus!
