//! Points of the complex plane with fixed-point coordinates.

use vstd::prelude::*;
use crate::fixed::Fixed;

verus! {

/// The point `re + im*i`.
#[derive(Clone, Copy, Debug, PartialEq, Eq, Structural)]
pub struct Complex {
    /// Real part.
    pub re: Fixed,
    /// Imaginary part.
    pub im: Fixed,
}

impl View for Complex {
    type V = (int, int);

    /// The raw representations of the real and the imaginary part.
    open spec fn view(&self) -> (int, int) {
        (self.re@, self.im@)
    }
}

impl Complex {
    /// The point with the given parts.
    pub fn new(re: Fixed, im: Fixed) -> (c: Complex)
        ensures
            c@ == (re@, im@),
    {
        Complex { re, im }
    }
}

} // verus!
