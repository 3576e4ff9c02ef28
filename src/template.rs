use vstd::prelude::*;

use crate::folder::Folderable;

verus! {

/// A saved design template, filed in a folder or at the top level.
#[derive(Clone, Debug)]
pub struct Template {
    pub id: i32,
    pub folder_id: Option<i32>,
    pub name: String,
    pub tags: String,
    pub preview_url: Option<String>,
    pub config: Option<String>,
}

impl Folderable for Template {
    open spec fn folder_of(&self) -> Option<i32> {
        self.folder_id
    }

    fn folder_id(&self) -> (r: Option<i32>) {
        self.folder_id
    }
}

} // verus!
