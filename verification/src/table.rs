//! Bootstrap embedding table: a read-only mapping, populated once before the
//! producer runs, from build variant to bootstrap image bytes. A run selects
//! either the default image or the universal multi-architecture image; when
//! the universal image was never built, selection falls back to the default
//! rather than failing the run.

use vstd::prelude::*;

verus! {

/// The bootstrap images available to one producer invocation. The default
/// image is always present; the universal image is optional.
pub struct BootstrapTable {
    /// The default bootstrap image for the host platform.
    pub main: Vec<u8>,
    /// The universal multi-architecture bootstrap image, when it was built.
    pub universal: Option<Vec<u8>>,
}

impl BootstrapTable {
    /// The image a request selects: the universal image when it is asked for
    /// and present, else the default image.
    pub open spec fn selected(&self, want_universal: bool) -> Seq<u8> {
        if want_universal && self.universal is Some {
            self.universal->0@
        } else {
            self.main@
        }
    }

    /// A request for the universal image had to fall back to the default.
    pub open spec fn falls_back(&self, want_universal: bool) -> bool {
        want_universal && self.universal is None
    }

    /// Populate the table once; it is read-only afterwards.
    pub fn new(main: Vec<u8>, universal: Option<Vec<u8>>) -> (t: Self)
        ensures
            t.main == main,
            t.universal == universal,
    {
        BootstrapTable { main, universal }
    }

    /// The bootstrap image to embed for this invocation.
    pub fn select(&self, want_universal: bool) -> (r: &Vec<u8>)
        ensures
            r@ == self.selected(want_universal),
    {
        if want_universal {
            match &self.universal {
                Some(u) => u,
                None => &self.main,
            }
        } else {
            &self.main
        }
    }

    /// Whether this invocation's request could not be honoured and the
    /// default image was selected instead; the caller warns, never fails.
    pub fn fell_back(&self, want_universal: bool) -> (r: bool)
        ensures
            r == self.falls_back(want_universal),
    {
        want_universal && self.universal.is_none()
    }
}

} // verus!
