//! The file behind a file endpoint.

use vstd::prelude::*;

use crate::message::RefModel;

verus! {

/// The file behind a file endpoint; its path is never told to other nodes.
#[derive(Debug)]
pub struct FileSource {
    pub path: String,
    pub name: String,
    pub size: u64,
}

/// What a file source is, as a mathematical value.
pub struct FileModel {
    pub path: Seq<char>,
    pub name: Seq<char>,
    pub size: u64,
}

impl View for FileSource {
    type V = FileModel;

    open spec fn view(&self) -> FileModel {
        FileModel { path: self.path@, name: self.name@, size: self.size }
    }
}

/// The models of the files.
pub open spec fn file_models(m: Map<RefModel, FileSource>) -> Map<RefModel, FileModel> {
    m.map_values(|f: FileSource| f@)
}

impl Clone for FileSource {
    fn clone(&self) -> (r: Self)
        ensures
            r == *self,
    {
        FileSource { path: self.path.clone(), name: self.name.clone(), size: self.size }
    }
}

} // verus!
