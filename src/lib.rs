//! A Document Object Model (DOM Level 2/3 Core) for XML documents: an ordered,
//! typed tree of nodes with navigation, mutation, cloning, namespace lookup and
//! feature negotiation, specified and checked with Verus.
use vstd::prelude::*;

pub mod document;
pub mod exception;
pub mod features;
pub mod io;
pub mod named_node_map;
pub mod node;
pub mod qname;

pub use document::{DOMImplementation, Document, DocumentPosition, DocumentType};
pub use exception::DOMException;
pub use named_node_map::NamedNodeMap;
pub use node::{NodeList, NodeRef, NodeType};
pub use qname::QName;

verus! {

/// A position within a particular file or stream, by line and column.
#[derive(Debug, Clone, Copy, PartialEq, Eq, Structural)]
pub struct Location {
    /// Number of line feeds seen from the start of the stream; 0 is the first line.
    pub line_number: u64,
    /// Number of characters from the start of the line; 0 is the start of the line.
    pub column_number: u64,
}

impl Location {
    /// The user-data key under which a parser attaches a node's location.
    pub const USERDATA_NAME: &'static str = "xenolith.xml.parser.location";

    /// Constructs the location for the given line and column.
    pub fn new(line_number: u64, column_number: u64) -> (r: Location)
        ensures
            r.line_number == line_number,
            r.column_number == column_number,
    {
        Location { line_number, column_number }
    }
}

/// The error of std's input and output, carried opaquely in [`Error::IO`].
#[verifier::external_type_specification]
#[verifier::external_body]
pub struct ExIoError(std::io::Error);

/// An error of this library: a DOM exception, or a failure of the input stream.
#[derive(Debug)]
pub enum Error {
    W3C(DOMException),
    IO(std::io::Error),
}

impl From<DOMException> for Error {
    fn from(e: DOMException) -> (r: Error)
        ensures
            r == Error::W3C(e),
    {
        Error::W3C(e)
    }
}

impl From<std::io::Error> for Error {
    fn from(e: std::io::Error) -> (r: Error)
        ensures
            r == Error::IO(e),
    {
        Error::IO(e)
    }
}

impl vstd::std_specs::convert::FromSpecImpl<std::io::Error> for Error {
    open spec fn obeys_from_spec() -> bool {
        true
    }

    open spec fn from_spec(e: std::io::Error) -> Error {
        Error::IO(e)
    }
}

impl vstd::std_specs::convert::FromSpecImpl<DOMException> for Error {
    open spec fn obeys_from_spec() -> bool {
        true
    }

    open spec fn from_spec(e: DOMException) -> Error {
        Error::W3C(e)
    }
}

} // verus!
