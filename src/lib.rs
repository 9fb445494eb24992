//! A parser for the plain-text OFF mesh format: a header, the counts, the
//! vertices and the faces of a polygon mesh, with optional colors.
use vstd::prelude::*;

pub mod geometry;
pub mod laws;
pub mod parser;

use crate::geometry::mesh::Mesh;
use crate::parser::iter::document_lines;
use crate::parser::model::parse_lines;
use crate::parser::options::Options;
use crate::parser::Parser;

verus! {

/// `std::io::Error`, carried as it is when reading a document fails.
#[verifier::external_type_specification]
#[verifier::external_body]
pub struct ExIoError(std::io::Error);

/// The errors of reading and parsing a document.
#[derive(Debug)]
pub enum Error {
    /// Reading the document failed.
    IOError(std::io::Error),
    /// The document is malformed.
    ParserError(crate::parser::error::Error),
}

impl From<std::io::Error> for Error {
    fn from(e: std::io::Error) -> (r: Self)
        ensures
            r == Error::IOError(e),
    {
        Error::IOError(e)
    }
}

impl vstd::std_specs::convert::FromSpecImpl<std::io::Error> for Error {
    open spec fn obeys_from_spec() -> bool {
        true
    }

    open spec fn from_spec(e: std::io::Error) -> Self {
        Error::IOError(e)
    }
}

impl From<crate::parser::error::Error> for Error {
    fn from(e: crate::parser::error::Error) -> (r: Self)
        ensures
            r == Error::ParserError(e),
    {
        Error::ParserError(e)
    }
}

impl vstd::std_specs::convert::FromSpecImpl<crate::parser::error::Error> for Error {
    open spec fn obeys_from_spec() -> bool {
        true
    }

    open spec fn from_spec(e: crate::parser::error::Error) -> Self {
        Error::ParserError(e)
    }
}

/// Parses a mesh from the text of a document.
pub fn parse(string: &str, options: Options) -> (r: Result<Mesh, Error>)
    ensures
        parse_lines(document_lines(string@), options) matches Ok(m) ==> r matches Ok(q) && q@ == m,
        parse_lines(document_lines(string@), options) matches Err(f) ==> r matches Err(
            Error::ParserError(e),
        ) && e.kind == f.0 && e.line_index == f.1,
{
    Parser::new(string, options).parse()
}

} // verus!
