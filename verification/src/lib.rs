//! Verified core of a GNSS constellation tracker: ephemeris epoch parsing,
//! proleptic-Gregorian day arithmetic, and satellite constellation
//! classification. Floating-point orbit propagation, frame rotations and
//! dilution-of-precision live outside this crate's verified boundary and
//! consume the plain values produced here.

pub mod chars;
pub mod constellation;
pub mod epoch;
pub mod scene;
