//! Errors surfaced by the external rasterizer collaborator.
//!
//! Turning the vector document into pixels is outside work; this type keeps
//! its two failure kinds apart from parse and validation errors, as callers
//! must not conflate them.

use vstd::prelude::*;
use vstd::string::StringExecFns;

verus! {

/// A rasterization failure: the vector document did not parse, or the
/// pixel rendering failed.
#[derive(Debug)]
pub enum PngError {
    SvgParse(String),
    Render(String),
}

impl PngError {
    /// The human-readable account of the failure.
    pub fn message(&self) -> (r: String)
        ensures
            self matches PngError::SvgParse(m) ==> r@ == "SVG parsing error: "@ + m@,
            self matches PngError::Render(m) ==> r@ == "PNG rendering error: "@ + m@,
    {
        match self {
            PngError::SvgParse(m) => {
                let mut s = "SVG parsing error: ".to_owned();
                s.append(m.as_str());
                s
            },
            PngError::Render(m) => {
                let mut s = "PNG rendering error: ".to_owned();
                s.append(m.as_str());
                s
            },
        }
    }
}

} // verus!
