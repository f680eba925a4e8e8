//! A named blob of bytes, and what it stands for in specifications.

use vstd::prelude::*;

verus! {

/// What a `File` stands for: its name as characters, its content as bytes.
pub struct Entry {
    pub name: Seq<char>,
    pub content: Seq<u8>,
}

/// One named blob.
#[derive(Debug)]
pub struct File {
    pub name: String,
    pub content: Vec<u8>,
}

impl View for File {
    type V = Entry;

    open spec fn view(&self) -> Entry {
        Entry { name: self.name@, content: self.content@ }
    }
}

/// The entries that a list of files stands for, in the same order.
pub open spec fn entries(files: Seq<File>) -> Seq<Entry> {
    Seq::new(files.len(), |i: int| files[i]@)
}

impl File {
    /// A file with a copy of `name` and with `content`.
    pub fn new(name: &str, content: Vec<u8>) -> (file: File)
        ensures
            file@ == (Entry { name: name@, content: content@ }),
    {
        File { name: name.to_owned(), content }
    }
}

} // verus!
