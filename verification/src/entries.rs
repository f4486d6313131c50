//! What a directory listing is made from: the entries read from the
//! directory, and the package named in the page footer.

use vstd::prelude::*;

verus! {

/// What the metadata of an entry says it is.
#[derive(Clone, Copy, PartialEq, Eq, Structural)]
pub enum EntryKind {
    Directory,
    File { len: u64 },
}

/// One entry read from a directory: its file name (lossily decoded), whether
/// the file server counts it as visible, and its kind, or `None` where its
/// metadata could not be read.
pub struct ListingEntry {
    pub name: String,
    pub visible: bool,
    pub kind: Option<EntryKind>,
}

pub struct ListingEntryView {
    pub name: Seq<char>,
    pub visible: bool,
    pub kind: Option<EntryKind>,
}

impl View for ListingEntry {
    type V = ListingEntryView;

    open spec fn view(&self) -> ListingEntryView {
        ListingEntryView { name: self.name@, visible: self.visible, kind: self.kind }
    }
}

/// The views of a list of entries.
pub open spec fn entry_views(v: Seq<ListingEntry>) -> Seq<ListingEntryView> {
    v.map_values(|e: ListingEntry| e@)
}

/// An entry is listed when it is visible and its metadata was read.
pub open spec fn is_listed(e: ListingEntryView) -> bool {
    e.visible && e.kind is Some
}

/// The package named, with a link, at the foot of a page.
pub struct PackageInfo {
    pub name: String,
    pub version: String,
    pub homepage: String,
}

} // verus!
