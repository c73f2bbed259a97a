//! The unit of discovered application data: a display label and the path of
//! the desktop-entry file it came from.

use vstd::prelude::*;
use crate::text::clone_bytes;

verus! {

/// Mathematical image of an [`Entry`].
pub ghost struct SpecEntry {
    pub display_label: Seq<u8>,
    pub source_path: Seq<u8>,
}

/// One discovered application: the label presented to the selector, of the
/// form `"<Name> (<Exec>)"`, and the absolute path of the originating
/// desktop-entry file.
pub struct Entry {
    pub display_label: Vec<u8>,
    pub source_path: Vec<u8>,
}

impl View for Entry {
    type V = SpecEntry;

    open spec fn view(&self) -> SpecEntry {
        SpecEntry { display_label: self.display_label@, source_path: self.source_path@ }
    }
}

impl DeepView for Entry {
    type V = SpecEntry;

    open spec fn deep_view(&self) -> SpecEntry {
        self@
    }
}

impl Clone for Entry {
    /// The clone carries the same label and path.
    fn clone(&self) -> (r: Self)
        ensures
            r@ == self@,
    {
        Entry {
            display_label: clone_bytes(&self.display_label),
            source_path: clone_bytes(&self.source_path),
        }
    }
}

} // verus!
