//! Selecting which categories of a font source's data are loaded.

use vstd::prelude::*;

verus! {

/// Describes which categories of a font source's data a caller wants loaded.
///
/// The seven flags are independent: every combination is meaningful. A value
/// is built from [`DataRequest::all`] or [`DataRequest::none`] and refined with
/// the per-category setters, each of which returns the updated value.
#[derive(Clone, Copy, Debug, PartialEq, Eq, Structural)]
#[non_exhaustive]
pub struct DataRequest {
    /// Glyph layers and their outlines.
    pub layers: bool,
    /// The source's metadata dictionary.
    pub lib: bool,
    /// Glyph groups.
    pub groups: bool,
    /// Kerning pairs.
    pub kerning: bool,
    /// Layout features.
    pub features: bool,
    /// Arbitrary data files.
    pub data: bool,
    /// Images.
    pub images: bool,
}

impl DataRequest {
    /// The request in which every category has the same setting `b`.
    pub open spec fn uniform(b: bool) -> DataRequest {
        DataRequest { layers: b, lib: b, groups: b, kerning: b, features: b, data: b, images: b }
    }

    /// A request in which every category is set to `b`.
    pub fn from_bool(b: bool) -> (r: Self)
        ensures
            r == Self::uniform(b),
    {
        DataRequest { layers: b, lib: b, groups: b, kerning: b, features: b, data: b, images: b }
    }

    /// A request for every category.
    pub fn all() -> (r: Self)
        ensures
            r == Self::uniform(true),
    {
        DataRequest::from_bool(true)
    }

    /// A request for no category.
    pub fn none() -> (r: Self)
        ensures
            r == Self::uniform(false),
    {
        DataRequest::from_bool(false)
    }

    /// Sets whether glyph layers are requested; the other flags are kept.
    pub fn layers(self, b: bool) -> (r: Self)
        ensures
            r == (DataRequest { layers: b, ..self }),
    {
        let mut r = self;
        r.layers = b;
        r
    }

    /// Sets whether the metadata dictionary is requested; the other flags are kept.
    pub fn lib(self, b: bool) -> (r: Self)
        ensures
            r == (DataRequest { lib: b, ..self }),
    {
        let mut r = self;
        r.lib = b;
        r
    }

    /// Sets whether glyph groups are requested; the other flags are kept.
    pub fn groups(self, b: bool) -> (r: Self)
        ensures
            r == (DataRequest { groups: b, ..self }),
    {
        let mut r = self;
        r.groups = b;
        r
    }

    /// Sets whether kerning is requested; the other flags are kept.
    pub fn kerning(self, b: bool) -> (r: Self)
        ensures
            r == (DataRequest { kerning: b, ..self }),
    {
        let mut r = self;
        r.kerning = b;
        r
    }

    /// Sets whether layout features are requested; the other flags are kept.
    pub fn features(self, b: bool) -> (r: Self)
        ensures
            r == (DataRequest { features: b, ..self }),
    {
        let mut r = self;
        r.features = b;
        r
    }

    /// Sets whether data files are requested; the other flags are kept.
    pub fn data(self, b: bool) -> (r: Self)
        ensures
            r == (DataRequest { data: b, ..self }),
    {
        let mut r = self;
        r.data = b;
        r
    }

    /// Sets whether images are requested; the other flags are kept.
    pub fn images(self, b: bool) -> (r: Self)
        ensures
            r == (DataRequest { images: b, ..self }),
    {
        let mut r = self;
        r.images = b;
        r
    }

    /// Setting all seven flags to one value gives the uniform request for that
    /// value, whatever the starting request was.
    pub proof fn lemma_setting_every_flag_is_uniform(start: DataRequest, b: bool)
        ensures
            (DataRequest {
                layers: b,
                lib: b,
                groups: b,
                kerning: b,
                features: b,
                data: b,
                images: b,
                ..start
            }) == Self::uniform(b),
    {
    }
}

impl Default for DataRequest {
    /// The default request asks for every category.
    fn default() -> (r: Self)
        ensures
            r == DataRequest::uniform(true),
    {
        DataRequest::from_bool(true)
    }
}

} // verus!
