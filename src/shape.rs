use vstd::prelude::*;

use crate::folder::Folderable;

verus! {

/// A cut-out shape, filed in a folder or at the top level.
#[derive(Clone, Debug, Default)]
pub struct Shape {
    pub id: i32,
    pub folder_id: Option<i32>,
    pub tags: String,
    pub url: String,
}

impl Folderable for Shape {
    open spec fn folder_of(&self) -> Option<i32> {
        self.folder_id
    }

    fn folder_id(&self) -> (r: Option<i32>) {
        self.folder_id
    }
}

} // verus!
