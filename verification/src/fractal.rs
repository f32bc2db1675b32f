//! The two fractals: which point an orbit starts at, and which point it is
//! moved by at each step.

use vstd::prelude::*;

verus! {

/// The fractal to draw. A Julia set carries its parameter.
#[derive(Clone, Copy, Debug, PartialEq, Eq)]
pub enum FractalType<C> {
    Mandelbrot,
    Julia(C),
}

/// The seed and the parameter of the orbit that decides the colour of the
/// pixel at `point`. For the Mandelbrot set the orbit starts at the origin and
/// the pixel's point is the parameter; for a Julia set the orbit starts at the
/// pixel's point and the parameter is that of the set.
pub open spec fn orbit_start_of<C>(fractal: FractalType<C>, point: C, origin: C) -> (C, C) {
    match fractal {
        FractalType::Mandelbrot => (origin, point),
        FractalType::Julia(c) => (point, c),
    }
}

impl<C> FractalType<C> {
    /// The seed and the parameter of the orbit for the pixel at `point`.
    pub fn orbit_start(self, point: C, origin: C) -> (start: (C, C))
        ensures
            start == orbit_start_of(self, point, origin),
    {
        match self {
            FractalType::Mandelbrot => (origin, point),
            FractalType::Julia(c) => (point, c),
        }
    }
}

} // verus!
