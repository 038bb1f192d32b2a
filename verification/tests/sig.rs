use dbus_codegen::errors::{Fault, GenError};
use dbus_codegen::sig::{make_type, checked_type};

#[test]
fn basic_types() {
    let cases = [
        ("y", "u8"),
        ("b", "bool"),
        ("n", "i16"),
        ("q", "u16"),
        ("i", "i32"),
        ("u", "u32"),
        ("x", "i64"),
        ("t", "u64"),
        ("d", "f64"),
        ("v", "::dbus::arg::Variant<Box<::dbus::arg::RefArg>>"),
    ];
    for (sig, ty) in cases {
        assert_eq!(make_type(sig, true).unwrap(), ty);
        assert_eq!(make_type(sig, false).unwrap(), ty);
    }
}

#[test]
fn owned_and_borrowed_forms() {
    assert_eq!(make_type("s", true).unwrap(), "String");
    assert_eq!(make_type("s", false).unwrap(), "&str");
    assert_eq!(make_type("o", true).unwrap(), "::dbus::Path<'static>");
    assert_eq!(make_type("o", false).unwrap(), "::dbus::Path");
    assert_eq!(make_type("g", true).unwrap(), "::dbus::Signature<'static>");
    assert_eq!(make_type("g", false).unwrap(), "::dbus::Signature");
}

#[test]
fn container_types() {
    assert_eq!(make_type("as", true).unwrap(), "Vec<String>");
    assert_eq!(make_type("aay", false).unwrap(), "Vec<Vec<u8>>");
    assert_eq!(
        make_type("a{sv}", true).unwrap(),
        "::std::collections::HashMap<String, ::dbus::arg::Variant<Box<::dbus::arg::RefArg>>>"
    );
    assert_eq!(
        make_type("(sa{sv})", false).unwrap(),
        "(&str, ::std::collections::HashMap<&str, ::dbus::arg::Variant<Box<::dbus::arg::RefArg>>>)"
    );
    assert_eq!(make_type("()", true).unwrap(), "()");
    assert_eq!(make_type("a(su)", true).unwrap(), "Vec<(String, u32)>");
    assert_eq!(
        make_type("a{sas}", true).unwrap(),
        "::std::collections::HashMap<String, Vec<String>>"
    );
}

#[test]
fn signature_errors() {
    assert_eq!(make_type("", true), Err(GenError::UnexpectedEndOfSignature));
    assert_eq!(make_type("a", true), Err(GenError::UnexpectedEndOfSignature));
    assert_eq!(make_type("a{s", true), Err(GenError::UnexpectedEndOfSignature));
    assert_eq!(make_type("(s", true), Err(GenError::UnexpectedEndOfSignature));
    assert_eq!(make_type("a{ss", true), Err(GenError::NoEndOfDict));
    assert_eq!(make_type("a{sss}", true), Err(GenError::NoEndOfDict));
    assert_eq!(make_type("ss", true), Err(GenError::TypeNotEnded));
}

#[test]
fn direction_does_not_change_failures() {
    for sig in ["", "a", "a{ss", "ss", "(s"] {
        assert_eq!(make_type(sig, true), make_type(sig, false));
    }
}

#[test]
fn codes_without_rust_type() {
    assert_eq!(checked_type("r", true), Err(Fault::Unsupported('r')));
    assert_eq!(checked_type("h", true), Err(Fault::Unsupported('h')));
    assert_eq!(checked_type("e", true), Err(Fault::Unsupported('e')));
    assert_eq!(checked_type("}", true), Err(Fault::Unsupported('}')));
    assert_eq!(checked_type("z", true), Err(Fault::Unsupported('z')));
    assert_eq!(checked_type("a{z}", true), Err(Fault::Unsupported('z')));
    assert_eq!(checked_type("(sz", false), Err(Fault::Unsupported('z')));
    assert_eq!(checked_type("(s)", true), Ok("(String)".to_string()));
}
