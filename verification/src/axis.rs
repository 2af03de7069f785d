//! Markers naming how sample points map to the complex plane.

use vstd::prelude::*;

verus! {

/// Marker: axis values are already complex.
pub struct ComplexAxis;

/// Marker: axis values are frequency in hertz, mapped to `j·2π·f`.
pub struct Hz;

/// Marker: axis values are angular frequency in rad/s, mapped to `j·ω`.
pub struct RadPerSec;

/// Marker: axis values are real-valued, mapped onto the real line.
pub struct RealAxis;

} // verus!
