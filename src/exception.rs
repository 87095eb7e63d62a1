//! The DOM exception taxonomy: seventeen kinds with fixed numeric codes.
use vstd::prelude::*;

verus! {

/// A failure raised by a mutating or validating DOM operation.
#[derive(Debug, Clone, Copy, PartialEq, Eq, Structural)]
pub enum DOMException {
    IndexSize,
    DOMStringSize,
    HierarchyRequest,
    WrongDocument,
    InvalidCharacter,
    NoDataAllowed,
    NoModificationAllowed,
    NotFound,
    NotSupported,
    InuseAttribute,
    InvalidState,
    Syntax,
    InvalidModification,
    Namespace,
    InvalidAccess,
    Validation,
    TypeMismatch,
}

/// Result of a DOM operation.
pub type Result<T> = core::result::Result<T, DOMException>;

impl DOMException {
    /// The numeric exception code of this kind, as fixed by DOM Level 3 Core.
    pub open spec fn spec_code(self) -> u16 {
        match self {
            DOMException::IndexSize => 1,
            DOMException::DOMStringSize => 2,
            DOMException::HierarchyRequest => 3,
            DOMException::WrongDocument => 4,
            DOMException::InvalidCharacter => 5,
            DOMException::NoDataAllowed => 6,
            DOMException::NoModificationAllowed => 7,
            DOMException::NotFound => 8,
            DOMException::NotSupported => 9,
            DOMException::InuseAttribute => 10,
            DOMException::InvalidState => 11,
            DOMException::Syntax => 12,
            DOMException::InvalidModification => 13,
            DOMException::Namespace => 14,
            DOMException::InvalidAccess => 15,
            DOMException::Validation => 16,
            DOMException::TypeMismatch => 17,
        }
    }

    /// Returns the numeric exception code (1 to 17).
    pub fn code(&self) -> (r: u16)
        ensures
            r == self.spec_code(),
            1 <= r <= 17,
    {
        match self {
            DOMException::IndexSize => 1,
            DOMException::DOMStringSize => 2,
            DOMException::HierarchyRequest => 3,
            DOMException::WrongDocument => 4,
            DOMException::InvalidCharacter => 5,
            DOMException::NoDataAllowed => 6,
            DOMException::NoModificationAllowed => 7,
            DOMException::NotFound => 8,
            DOMException::NotSupported => 9,
            DOMException::InuseAttribute => 10,
            DOMException::InvalidState => 11,
            DOMException::Syntax => 12,
            DOMException::InvalidModification => 13,
            DOMException::Namespace => 14,
            DOMException::InvalidAccess => 15,
            DOMException::Validation => 16,
            DOMException::TypeMismatch => 17,
        }
    }

    /// The symbolic name of this kind, as the DOM recommendation writes it.
    pub open spec fn spec_name(self) -> Seq<char> {
        match self {
            DOMException::IndexSize => "INDEX_SIZE_ERR"@,
            DOMException::DOMStringSize => "DOMSTRING_SIZE_ERR"@,
            DOMException::HierarchyRequest => "HIERARCHY_REQUEST_ERR"@,
            DOMException::WrongDocument => "WRONG_DOCUMENT_ERR"@,
            DOMException::InvalidCharacter => "INVALID_CHARACTER_ERR"@,
            DOMException::NoDataAllowed => "NO_DATA_ALLOWED_ERR"@,
            DOMException::NoModificationAllowed => "NO_MODIFICATION_ALLOWED_ERR"@,
            DOMException::NotFound => "NOT_FOUND_ERR"@,
            DOMException::NotSupported => "NOT_SUPPORTED_ERR"@,
            DOMException::InuseAttribute => "INUSE_ATTRIBUTE_ERR"@,
            DOMException::InvalidState => "INVALID_STATE_ERR"@,
            DOMException::Syntax => "SYNTAX_ERR"@,
            DOMException::InvalidModification => "INVALID_MODIFICATION_ERR"@,
            DOMException::Namespace => "NAMESPACE_ERR"@,
            DOMException::InvalidAccess => "INVALID_ACCESS_ERR"@,
            DOMException::Validation => "VALIDATION_ERR"@,
            DOMException::TypeMismatch => "TYPE_MISMATCH_ERR"@,
        }
    }

    /// The symbolic name of this kind, as written in the DOM recommendation.
    pub fn name(&self) -> (r: &'static str)
        ensures
            r@ == self.spec_name(),
    {
        match self {
            DOMException::IndexSize => "INDEX_SIZE_ERR",
            DOMException::DOMStringSize => "DOMSTRING_SIZE_ERR",
            DOMException::HierarchyRequest => "HIERARCHY_REQUEST_ERR",
            DOMException::WrongDocument => "WRONG_DOCUMENT_ERR",
            DOMException::InvalidCharacter => "INVALID_CHARACTER_ERR",
            DOMException::NoDataAllowed => "NO_DATA_ALLOWED_ERR",
            DOMException::NoModificationAllowed => "NO_MODIFICATION_ALLOWED_ERR",
            DOMException::NotFound => "NOT_FOUND_ERR",
            DOMException::NotSupported => "NOT_SUPPORTED_ERR",
            DOMException::InuseAttribute => "INUSE_ATTRIBUTE_ERR",
            DOMException::InvalidState => "INVALID_STATE_ERR",
            DOMException::Syntax => "SYNTAX_ERR",
            DOMException::InvalidModification => "INVALID_MODIFICATION_ERR",
            DOMException::Namespace => "NAMESPACE_ERR",
            DOMException::InvalidAccess => "INVALID_ACCESS_ERR",
            DOMException::Validation => "VALIDATION_ERR",
            DOMException::TypeMismatch => "TYPE_MISMATCH_ERR",
        }
    }
}

} // verus!
