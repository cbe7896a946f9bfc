//! Catalogue records as the content source hands them over: sets of items,
//! or references to sets that are fetched later.

use vstd::prelude::*;

verus! {

/// The text of an item's title.
pub struct ItemTextTitleFullDefault {
    pub content: String,
}

/// An item's full title, tagged by the kind of content it names.
pub enum ItemTextTitleFull {
    Series { default: ItemTextTitleFullDefault },
    Program { default: ItemTextTitleFullDefault },
    Collection { default: ItemTextTitleFullDefault },
}

impl ItemTextTitleFull {
    /// The title text, whatever the kind of content.
    pub open spec fn default_spec(&self) -> ItemTextTitleFullDefault {
        match self {
            ItemTextTitleFull::Series { default } => *default,
            ItemTextTitleFull::Program { default } => *default,
            ItemTextTitleFull::Collection { default } => *default,
        }
    }

    pub fn get_default(&self) -> (r: &ItemTextTitleFullDefault)
        ensures
            *r == self.default_spec(),
    {
        match self {
            ItemTextTitleFull::Series { default } => default,
            ItemTextTitleFull::Program { default } => default,
            ItemTextTitleFull::Collection { default } => default,
        }
    }
}

pub struct ItemTextTitle {
    pub full: ItemTextTitleFull,
}

pub struct ItemText {
    pub title: ItemTextTitle,
}

impl ItemText {
    /// The item's display name.
    pub open spec fn name(&self) -> Seq<char> {
        self.title.full.default_spec().content@
    }

    pub fn get_name(&self) -> (r: Option<String>)
        ensures
            r is Some,
            r->0@ == self.name(),
    {
        Some(self.title.full.get_default().content.clone())
    }
}

/// One item of a set.
pub struct Item {
    pub content_id: Option<String>,
    pub text: ItemText,
    /// The address of the item's tile image, where the catalogue gives one.
    pub image_uri: Option<String>,
    pub ratings: Vec<String>,
    pub release_dates: Vec<String>,
}

/// A set of the catalogue: either given with its items, or a reference to a
/// set that is fetched on its own.
pub enum ContentSet {
    CuratedSet {
        set_id: String,
        /// The set's display title, where the catalogue gives one.
        title: Option<String>,
        items: Vec<Item>,
    },
    SetRef { ref_id: String, ref_id_type: String, ref_type: String },
}

} // verus!
