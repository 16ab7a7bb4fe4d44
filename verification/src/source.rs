//! The store of source files.

use vstd::prelude::*;

use crate::text::owned;

verus! {

/// Identifies a source file within [`Sources`].
pub type FileId = usize;

/// A source file: its display name and its text.
#[derive(Debug)]
pub struct Source {
    pub name: String,
    pub text: String,
}

/// The name and text of a source file.
pub struct SourceView {
    pub name: Seq<char>,
    pub text: Seq<char>,
}

impl View for Source {
    type V = SourceView;

    open spec fn view(&self) -> SourceView {
        SourceView { name: self.name@, text: self.text@ }
    }
}

impl Clone for Source {
    fn clone(&self) -> (r: Self)
        ensures
            r@ == self@,
    {
        Source { name: self.name.clone(), text: self.text.clone() }
    }
}

/// The files of a compilation, in the order in which they were added.
#[derive(Debug)]
pub struct Sources {
    files: Vec<Source>,
}

impl View for Sources {
    type V = Seq<SourceView>;

    closed spec fn view(&self) -> Seq<SourceView> {
        Seq::new(self.files@.len(), |i: int| self.files@[i]@)
    }
}

impl Default for Sources {
    fn default() -> (r: Self)
        ensures
            r@ == Seq::<SourceView>::empty(),
    {
        let r = Sources { files: Vec::new() };
        assert(r@ =~= Seq::<SourceView>::empty());
        r
    }
}

impl Sources {
    /// An empty store.
    pub fn new() -> (r: Self)
        ensures
            r@ == Seq::<SourceView>::empty(),
    {
        Self::default()
    }

    /// Adds a file and returns its identifier, the number of files before it.
    pub fn add(&mut self, name: &str, text: &str) -> (id: FileId)
        ensures
            id == old(self)@.len(),
            final(self)@ == old(self)@.push(SourceView { name: name@, text: text@ }),
    {
        let id: usize = self.files.len();
        self.files.push(Source { name: owned(name), text: owned(text) });
        assert(self@ =~= old(self)@.push(SourceView { name: name@, text: text@ }));
        id
    }

    /// The file with the given identifier, if it was added.
    pub fn get(&self, id: FileId) -> (r: Option<&Source>)
        ensures
            match r {
                Some(s) => id < self@.len() && s@ == self@[id as int],
                None => id >= self@.len(),
            },
    {
        if id < self.files.len() {
            Some(&self.files[id])
        } else {
            None
        }
    }

    /// The text of the file with the given identifier.
    pub fn text(&self, id: FileId) -> (r: Option<&str>)
        ensures
            match r {
                Some(s) => id < self@.len() && s@ == self@[id as int].text,
                None => id >= self@.len(),
            },
    {
        match self.get(id) {
            Some(s) => Some(s.text.as_str()),
            None => None,
        }
    }

    /// The name of the file with the given identifier.
    pub fn name(&self, id: FileId) -> (r: Option<&str>)
        ensures
            match r {
                Some(s) => id < self@.len() && s@ == self@[id as int].name,
                None => id >= self@.len(),
            },
    {
        match self.get(id) {
            Some(s) => Some(s.name.as_str()),
            None => None,
        }
    }
}

} // verus!
