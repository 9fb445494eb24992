//! What the caller configures: the color format and the resource limits.
use vstd::prelude::*;

use crate::parser::color_format::ColorFormat;

verus! {

/// Upper bounds that keep the work on untrusted input finite.
#[derive(Clone, Copy, Debug, PartialEq, Eq, Structural)]
pub struct Limits {
    /// The largest vertex count accepted.
    pub vertex_count: usize,
    /// The largest face count accepted.
    pub face_count: usize,
    /// The largest number of vertices of one face accepted.
    pub face_vertex_count: usize,
}

impl Default for Limits {
    /// 10000 vertices, 1000 faces and 64 vertices per face.
    fn default() -> (r: Self)
        ensures
            r.vertex_count == 10000,
            r.face_count == 1000,
            r.face_vertex_count == 64,
    {
        Limits { vertex_count: 10000, face_count: 1000, face_vertex_count: 64 }
    }
}

/// How a document is read.
#[derive(Clone, Copy, Debug, PartialEq, Eq, Structural)]
pub struct Options {
    /// How the color tokens of vertex and face lines are read.
    pub color_format: ColorFormat,
    /// The limits checked while parsing.
    pub limits: Limits,
}

impl Default for Options {
    /// The default color format and the default limits.
    fn default() -> (r: Self)
        ensures
            r.color_format == ColorFormat::RGBAFloat,
            r.limits.vertex_count == 10000,
            r.limits.face_count == 1000,
            r.limits.face_vertex_count == 64,
    {
        Options { color_format: ColorFormat::default(), limits: Limits::default() }
    }
}

} // verus!
