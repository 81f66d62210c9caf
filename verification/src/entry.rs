//! Entries of the map, as far as the index and the ranking read them.

use vstd::prelude::*;
use crate::geo::MapPoint;

verus! {

/// A postal address.
#[derive(Clone, Debug)]
pub struct Address {
    pub street: Option<String>,
    pub zip: Option<String>,
    pub city: Option<String>,
    pub country: Option<String>,
}

impl Address {
    pub open spec fn spec_is_empty(&self) -> bool {
        self.street.is_none() && self.zip.is_none() && self.city.is_none()
            && self.country.is_none()
    }

    /// An address is empty when none of its parts is given.
    #[verifier::when_used_as_spec(spec_is_empty)]
    pub fn is_empty(&self) -> (b: bool)
        ensures
            b == self.is_empty(),
    {
        self.street.is_none() && self.zip.is_none() && self.city.is_none()
            && self.country.is_none()
    }
}

/// Where an entry is found.
#[derive(Clone, Debug)]
pub struct Location {
    pub pos: MapPoint,
    pub address: Option<Address>,
}

/// A label that entries are tagged with.
#[derive(Clone, Debug)]
pub struct Tag {
    pub id: String,
}

/// An entry of the map.
///
/// Entries live in a repository outside this crate; the index holds a
/// projection of them that can be rebuilt at any time.
#[derive(Clone, Debug)]
pub struct Entry {
    pub id: String,
    pub created: u64,
    pub version: u64,
    pub title: String,
    pub description: String,
    pub location: Location,
    pub homepage: Option<String>,
    pub categories: Vec<String>,
    pub tags: Vec<String>,
    pub license: Option<String>,
    pub image_url: Option<String>,
    pub image_link_url: Option<String>,
}

} // verus!
