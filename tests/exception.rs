use xenolith::{DOMException, Error, Location};

#[test]
fn exception_codes_follow_the_table() {
    let table = [
        (DOMException::IndexSize, 1),
        (DOMException::DOMStringSize, 2),
        (DOMException::HierarchyRequest, 3),
        (DOMException::WrongDocument, 4),
        (DOMException::InvalidCharacter, 5),
        (DOMException::NoDataAllowed, 6),
        (DOMException::NoModificationAllowed, 7),
        (DOMException::NotFound, 8),
        (DOMException::NotSupported, 9),
        (DOMException::InuseAttribute, 10),
        (DOMException::InvalidState, 11),
        (DOMException::Syntax, 12),
        (DOMException::InvalidModification, 13),
        (DOMException::Namespace, 14),
        (DOMException::InvalidAccess, 15),
        (DOMException::Validation, 16),
        (DOMException::TypeMismatch, 17),
    ];
    for (e, code) in table.iter() {
        assert_eq!(e.code(), *code);
    }
}

#[test]
fn named_codes() {
    assert_eq!(DOMException::NotFound.code(), 8);
    assert_eq!(DOMException::InuseAttribute.code(), 10);
    assert_eq!(DOMException::HierarchyRequest.code(), 3);
    assert_eq!(DOMException::NotFound.name(), "NOT_FOUND_ERR");
}

#[test]
fn error_from_exception() {
    let e: Error = Error::from(DOMException::Syntax);
    assert!(matches!(e, Error::W3C(DOMException::Syntax)));
}

#[test]
fn location_new() {
    let l = Location::new(3, 7);
    assert_eq!(l.line_number, 3);
    assert_eq!(l.column_number, 7);
    assert_eq!(Location::USERDATA_NAME, "xenolith.xml.parser.location");
}
