//! The entries of a directory, and which of them are files to count.

use vstd::prelude::*;

verus! {

/// What kind of thing a directory entry is. A symbolic link is its own kind,
/// whatever it points to.
#[derive(Clone, Copy, Debug, PartialEq, Eq, Structural)]
pub enum EntryKind {
    File,
    Directory,
    Symlink,
    Other,
}

/// One direct entry of a directory: its path and its kind.
#[derive(Debug)]
pub struct Entry {
    pub path: String,
    pub kind: EntryKind,
}

/// An entry as a mathematical value.
pub struct EntrySpec {
    pub path: Seq<char>,
    pub kind: EntryKind,
}

impl View for Entry {
    type V = EntrySpec;

    open spec fn view(&self) -> EntrySpec {
        EntrySpec { path: self.path@, kind: self.kind }
    }
}

/// The entries that a sequence of entries stands for, in the same order.
pub open spec fn entries_of(entries: Seq<Entry>) -> Seq<EntrySpec> {
    entries.map_values(|e: Entry| e@)
}

/// The texts that a sequence of strings stands for, in the same order.
pub open spec fn texts_of(strings: Seq<String>) -> Seq<Seq<char>> {
    strings.map_values(|s: String| s@)
}

/// Whether an entry is a regular file.
pub open spec fn is_file(e: EntrySpec) -> bool {
    e.kind is File
}

/// The paths of the entries that are regular files, in the order of the
/// entries.
pub open spec fn regular_files(entries: Seq<EntrySpec>) -> Seq<Seq<char>> {
    entries.filter(|e: EntrySpec| is_file(e)).map_values(|e: EntrySpec| e.path)
}

/// The paths of the regular files among `entries`, in their order.
pub fn filenames(entries: &Vec<Entry>) -> (names: Vec<String>)
    ensures
        texts_of(names@) == regular_files(entries_of(entries@)),
{
    let ghost all = entries_of(entries@);
    let mut names: Vec<String> = Vec::new();
    let mut i: usize = 0;
    proof {
        assert(all.take(0) =~= Seq::<EntrySpec>::empty());
        reveal(Seq::filter);
        assert(texts_of(names@) =~= regular_files(all.take(0)));
    }
    while i < entries.len()
        invariant
            i <= entries.len(),
            all == entries_of(entries@),
            texts_of(names@) == regular_files(all.take(i as int)),
        decreases entries.len() - i,
    {
        let entry = &entries[i];
        let ghost before = texts_of(names@);
        proof {
            let seen = all.take(i as int);
            assert(all.take(i + 1) =~= seen.push(entry@));
            seen.lemma_filter_push(entry@, |e: EntrySpec| is_file(e));
        }
        match entry.kind {
            EntryKind::File => {
                names.push(entry.path.clone());
                assert(texts_of(names@) =~= before.push(entry.path@));
                assert(regular_files(all.take(i + 1)) =~= before.push(entry.path@));
            },
            _ => {},
        }
        i = i + 1;
    }
    assert(all.take(i as int) =~= all);
    names
}

} // verus!
