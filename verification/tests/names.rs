use dbus_codegen::names::{make_camel, make_snake};

#[test]
fn camel_of_dotted_name() {
    assert_eq!(make_camel("org.freedesktop.DBus"), "OrgFreedesktopDBus");
}

#[test]
fn camel_drops_separators() {
    assert_eq!(make_camel("a_b-c"), "ABC");
    assert_eq!(make_camel("foo__bar"), "FooBar");
}

#[test]
fn camel_edge_cases() {
    assert_eq!(make_camel(""), "");
    assert_eq!(make_camel("1x"), "1x");
    assert_eq!(make_camel("..."), "");
    assert_eq!(make_camel("é.x"), "X");
}

#[test]
fn camel_twice_is_camel_once() {
    for s in ["org.freedesktop.DBus", "a_b-c", "x", "", "1x.y", "Hello World"] {
        let once = make_camel(s);
        assert_eq!(make_camel(&once), once);
    }
}

#[test]
fn snake_of_member_names() {
    assert_eq!(make_snake("RequestName"), "request_name");
    assert_eq!(make_snake("GetNameOwner"), "get_name_owner");
    assert_eq!(make_snake("GetConnectionSELinuxSecurityContext"), "get_connection_selinux_security_context");
    assert_eq!(make_snake("DBus"), "dbus");
}

#[test]
fn snake_edge_cases() {
    assert_eq!(make_snake(""), "");
    assert_eq!(make_snake("a.B"), "a_b");
    assert_eq!(make_snake(".B"), "_b");
    assert_eq!(make_snake("x2Y"), "x2_y");
    assert_eq!(make_snake("interface_name"), "interfacename");
}

#[test]
fn snake_chars_are_lower_digits_or_underscore() {
    for s in ["RequestName", "a.B-C_D", "XMLHttp2Request", "ÄÖ x"] {
        for c in make_snake(s).chars() {
            assert!(c.is_ascii_lowercase() || c.is_ascii_digit() || c == '_');
        }
    }
}
