//! The files that a document may include, as plain values.
//!
//! The library reads no file itself. Whoever runs it reads the files that the
//! document's `${...name}` placeholders name and hands over what it found.

use vstd::hash_map::StringHashMap;
use vstd::prelude::*;

verus! {

/// What was found at a path where a file is.
pub enum FileEntry {
    /// The file is there and could not be read.
    Unreadable,
    /// The file's whole content.
    Content(String),
}

/// What a [`FileEntry`] stands for in specifications.
pub enum FileEntryView {
    Unreadable,
    Content(Seq<char>),
}

impl View for FileEntry {
    type V = FileEntryView;

    open spec fn view(&self) -> FileEntryView {
        match self {
            FileEntry::Unreadable => FileEntryView::Unreadable,
            FileEntry::Content(text) => FileEntryView::Content(text@),
        }
    }
}

/// The files by their paths. A path that is not here names no file.
pub struct Files {
    entries: StringHashMap<FileEntry>,
}

impl View for Files {
    type V = Map<Seq<char>, FileEntryView>;

    closed spec fn view(&self) -> Map<Seq<char>, FileEntryView> {
        Map::new(
            |path: Seq<char>| self.entries@.contains_key(path),
            |path: Seq<char>| self.entries@[path]@,
        )
    }
}

impl Files {
    /// No file at all.
    pub fn new() -> (files: Files)
        ensures
            files@ == Map::<Seq<char>, FileEntryView>::empty(),
    {
        let files = Files { entries: StringHashMap::new() };
        assert(files@ =~= Map::<Seq<char>, FileEntryView>::empty());
        files
    }

    /// Records what was found at `path`, in place of what was recorded there
    /// before.
    pub fn insert(&mut self, path: String, entry: FileEntry)
        ensures
            final(self)@ == old(self)@.insert(path@, entry@),
    {
        let ghost key = path@;
        let ghost value = entry@;
        self.entries.insert(path, entry);
        assert(self@ =~= old(self)@.insert(key, value));
    }

    /// What was found at `path`, if a file is there.
    pub fn get(&self, path: &str) -> (entry: Option<&FileEntry>)
        ensures
            match entry {
                Some(found) => self@.contains_key(path@) && found@ == self@[path@],
                None => !self@.contains_key(path@),
            },
    {
        self.entries.get(path)
    }
}

} // verus!
