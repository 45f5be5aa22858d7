//! What reading a file gave. That there is no file is an answer of its own;
//! any other failure is not an answer.

use vstd::prelude::*;

verus! {

/// What reading a file gave.
#[derive(Debug)]
pub enum File {
    /// Its text.
    Text(String),
    /// There is none.
    Missing,
    /// It is there and cannot be read, and why.
    Failed(String),
}

/// What a [`File`] says.
pub enum FileView {
    Text(Seq<char>),
    Missing,
    Failed(Seq<char>),
}

impl View for File {
    type V = FileView;

    open spec fn view(&self) -> FileView {
        match self {
            File::Text(s) => FileView::Text(s@),
            File::Missing => FileView::Missing,
            File::Failed(e) => FileView::Failed(e@),
        }
    }
}

} // verus!
