use vstd::prelude::*;

verus! {

/// Geographic position of a plan; the numbers are kept as JSON numbers.
#[derive(Debug, PartialEq)]
pub struct Coordinates {
    pub latitude: serde_json::Number,
    pub longitude: serde_json::Number,
}

/// Where a plan takes place.
#[derive(Clone, Debug, PartialEq)]
pub enum Location {
    IndoorLocation { building: String, room: String },
    OutdoorLocation { name: String },
}

} // verus!
