use dbus_codegen::emit::{write_intf, write_intf_client, write_intf_tree};
use dbus_codegen::errors::{Fault, GenError};
use dbus_codegen::generate::{generate, generate_from_events, try_generate, GenState};
use dbus_codegen::model::{Arg, Intf, Method, Prop};
use dbus_codegen::xmlsrc::{find_attr, Attribute, XmlItem};

const SMALL: &str = r#"<node>
  <interface name="a.B">
    <method name="Get">
      <arg name="key" type="s" direction="in"/>
      <arg type="u" direction="out"/>
    </method>
    <signal name="Changed"><arg type="s"/></signal>
    <property name="Count" type="u" access="read"/>
  </interface>
</node>"#;

fn small_intf() -> Intf {
    Intf {
        name: "a.B".to_string(),
        methods: vec![Method {
            name: "Get".to_string(),
            iargs: vec![Arg { name: "key".to_string(), typ: "s".to_string(), idx: 0, is_out: false }],
            oargs: vec![Arg { name: "".to_string(), typ: "u".to_string(), idx: 0, is_out: true }],
        }],
        props: vec![Prop { name: "Count".to_string(), typ: "u".to_string(), access: "read".to_string() }],
        signals: vec![],
    }
}

fn attr(name: &str, value: &str) -> Attribute {
    Attribute { name: name.to_string(), value: value.to_string() }
}

#[test]
fn small_document_without_tree() {
    let mut expected = String::new();
    write_intf(&mut expected, &small_intf()).unwrap();
    write_intf_client(&mut expected, &small_intf()).unwrap();
    assert_eq!(generate(SMALL, None).unwrap(), expected);
    assert!(expected.starts_with("\npub trait AB {\n    fn get(&self, key: &str) -> Result<u32, ::dbus::Error>;\n"));
    assert!(!expected.contains("_server"));
}

#[test]
fn small_document_with_tree() {
    let mut expected = String::new();
    write_intf(&mut expected, &small_intf()).unwrap();
    write_intf_client(&mut expected, &small_intf()).unwrap();
    write_intf_tree(&mut expected, &small_intf(), "MTSync").unwrap();
    assert_eq!(generate(SMALL, Some("MTSync")).unwrap(), expected);
    assert!(expected.contains("pub fn a_b_server<F, T, D>"));
}

#[test]
fn documents_without_interfaces() {
    assert_eq!(generate("<node/>", None).unwrap(), "");
    assert_eq!(generate("<node><foo/></node>", Some("MTFn")).unwrap(), "");
}

#[test]
fn two_interfaces_in_order() {
    let doc = r#"<node><interface name="x"/><interface name="y"/></node>"#;
    let s = generate(doc, None).unwrap();
    let x = s.find("pub trait X ").unwrap();
    let y = s.find("pub trait Y ").unwrap();
    assert!(x < y);
}

#[test]
fn malformed_xml() {
    assert!(matches!(generate("<node><a></node>", None), Err(GenError::Xml(_))));
    assert!(matches!(generate("", None), Err(GenError::Xml(_))));
}

#[test]
fn structure_errors() {
    let cases = [
        (r#"<interface/>"#, GenError::AttributeNotFound),
        (r#"<interface name="i"><method name="m"><interface name="j"/></method></interface>"#, GenError::InterfaceStartInsideMethod),
        (r#"<interface name="i"><interface name="j"/></interface>"#, GenError::InterfaceStartInsideInterface),
        (r#"<interface name="i"><method name="m"><method name="n"/></method></interface>"#, GenError::MethodStartInsideMethod),
        (r#"<method name="m"/>"#, GenError::MethodStartOutsideInterface),
        (r#"<interface name="i"><signal name="s"><signal name="t"/></signal></interface>"#, GenError::SignalStartInsideSignal),
        (r#"<signal name="s"/>"#, GenError::SignalStartOutsideInterface),
        (r#"<interface name="i"><property name="p" type="s" access="read"><property name="q" type="s" access="read"/></property></interface>"#, GenError::PropertyStartInsideProperty),
        (r#"<property name="p" type="s" access="read"/>"#, GenError::PropertyStartOutsideInterface),
        (r#"<interface name="i"><property name="p" type="s"/></interface>"#, GenError::AttributeNotFound),
        (r#"<interface name="i"><arg type="s"/></interface>"#, GenError::ArgOutsideMethodAndSignal),
        (r#"<interface name="i"><method name="m"><arg type="s" direction="up"/></method></interface>"#, GenError::InvalidDirection),
        (r#"<interface name="i"><method name="m"><arg direction="in"/></method></interface>"#, GenError::AttributeNotFound),
        (r#"<interface name="i"><method name="m"><arg type="a{ss" direction="in"/></method></interface>"#, GenError::NoEndOfDict),
        (r#"<interface name="i"><method name="m"><arg type="a" direction="out"/></method></interface>"#, GenError::UnexpectedEndOfSignature),
        (r#"<interface name="i"><property name="p" type="ss" access="read"/></interface>"#, GenError::TypeNotEnded),
    ];
    for (doc, err) in cases {
        assert_eq!(generate(doc, None), Err(err), "{}", doc);
    }
}

#[test]
fn unknown_access_only_with_tree() {
    let doc = r#"<interface name="i"><property name="p" type="s" access="rw"/></interface>"#;
    assert!(generate(doc, None).is_ok());
    assert_eq!(generate(doc, Some("MTFn")), Err(GenError::UnexpectedAccess("rw".to_string())));
}

#[test]
fn signal_arguments_are_not_generated() {
    let with = r#"<interface name="i"><signal name="s"><arg type="s" direction="sideways"/></signal></interface>"#;
    let without = r#"<interface name="i"></interface>"#;
    assert_eq!(generate(with, Some("MTFn")).unwrap(), generate(without, Some("MTFn")).unwrap());
}

#[test]
fn unsupported_type_codes() {
    let doc = r#"<interface name="i"><method name="m"><arg type="h" direction="in"/></method></interface>"#;
    assert_eq!(try_generate(doc, None), None);
    let earlier_error = r#"<interface name="i"><method name="m"><arg type="" direction="in"/><arg type="h" direction="in"/></method></interface>"#;
    assert_eq!(try_generate(earlier_error, None), Some(Err(GenError::UnexpectedEndOfSignature)));
    assert_eq!(try_generate(SMALL, None), Some(generate(SMALL, None)));
}

#[test]
fn events_with_open_interface() {
    let events = vec![XmlItem::Start { name: "interface".to_string(), attributes: vec![attr("name", "x")] }];
    assert_eq!(generate_from_events(events, None), Err(Fault::Error(GenError::UnterminatedInterface)));
}

#[test]
fn events_after_a_closed_interface() {
    let events = vec![
        XmlItem::Start { name: "interface".to_string(), attributes: vec![attr("name", "x")] },
        XmlItem::Other,
        XmlItem::End { name: "interface".to_string() },
        XmlItem::End { name: "interface".to_string() },
    ];
    assert_eq!(generate_from_events(events, None), Err(Fault::Error(GenError::InterfaceEndOutsideInterface)));
}

#[test]
fn element_ends_out_of_place() {
    let mut st = GenState::new();
    assert_eq!(st.end_element("method", None), Err(Fault::Error(GenError::MethodEndOutsideMethod)));
    assert_eq!(st.end_element("signal", None), Err(Fault::Error(GenError::SignalEndOutsideSignal)));
    assert_eq!(st.end_element("property", None), Err(Fault::Error(GenError::PropertyEndOutsideProperty)));
    assert_eq!(st.end_element("interface", None), Err(Fault::Error(GenError::InterfaceEndOutsideInterface)));
    assert_eq!(st.end_element("node", None), Ok(()));

    let mut st = GenState::new();
    st.method = Some(Method { name: "m".to_string(), iargs: vec![], oargs: vec![] });
    assert_eq!(st.end_element("method", None), Err(Fault::Error(GenError::MethodEndOutsideInterface)));
    assert_eq!(st.start_element("arg", &vec![attr("type", "s")]), Err(Fault::Error(GenError::ArgOutsideInterface)));
    st.intf = Some(Intf { name: "i".to_string(), methods: vec![], props: vec![], signals: vec![] });
    assert_eq!(st.end_element("interface", None), Err(Fault::Error(GenError::InterfaceEndInsideMethod)));
}

#[test]
fn arguments_join_their_method() {
    let mut st = GenState::new();
    st.start_element("interface", &vec![attr("name", "i")]).unwrap();
    st.start_element("method", &vec![attr("name", "m")]).unwrap();
    st.start_element("arg", &vec![attr("type", "s")]).unwrap();
    st.start_element("arg", &vec![attr("type", "u"), attr("direction", "out"), attr("name", "r")]).unwrap();
    st.start_element("arg", &vec![attr("type", "b"), attr("direction", "in")]).unwrap();
    let m = st.method.as_ref().unwrap();
    assert_eq!(m.iargs.len(), 2);
    assert_eq!(m.iargs[1].idx, 1);
    assert_eq!(m.iargs[1].typ, "b");
    assert_eq!(m.oargs.len(), 1);
    assert_eq!(m.oargs[0].name, "r");
    assert!(m.oargs[0].is_out);
    st.end_element("method", None).unwrap();
    assert!(st.method.is_none());
    assert_eq!(st.intf.as_ref().unwrap().methods.len(), 1);
}

#[test]
fn first_attribute_of_a_name() {
    let attrs = vec![attr("name", "a"), attr("type", "s"), attr("name", "b")];
    assert_eq!(find_attr(&attrs, "name"), Ok("a"));
    assert_eq!(find_attr(&attrs, "type"), Ok("s"));
    assert_eq!(find_attr(&attrs, "access"), Err(GenError::AttributeNotFound));
}

#[test]
fn error_messages() {
    assert_eq!(GenError::AttributeNotFound.message(), "attribute not found");
    assert_eq!(GenError::UnterminatedInterface.message(), "Unterminated interface");
    assert_eq!(GenError::UnexpectedAccess("rw".to_string()).message(), "Unexpected access value rw");
    assert_eq!(GenError::InterfaceStartInsideMethod.message(), "Start of Interface inside method");
    match generate("<a>", None) {
        Err(e) => assert!(!e.message().is_empty()),
        Ok(_) => panic!("malformed input accepted"),
    }
}

#[test]
fn interfaces_concatenate() {
    let a = r#"<interface name="x"><method name="M"><arg type="s" direction="out"/></method></interface>"#;
    let b = r#"<interface name="y"><property name="P" type="u" access="readwrite"/></interface>"#;
    for mt in [None, Some("MTFn")] {
        let code_a = generate(&format!("<node>{}</node>", a), mt).unwrap();
        let code_b = generate(&format!("<node>{}</node>", b), mt).unwrap();
        let both = generate(&format!("<node>{}{}</node>", a, b), mt).unwrap();
        assert_eq!(both, code_a + &code_b);
    }
}

#[test]
fn removing_a_signal_changes_nothing() {
    for mt in [None, Some("MTSync")] {
        let without = SMALL.replace("    <signal name=\"Changed\"><arg type=\"s\"/></signal>\n", "");
        assert!(!without.contains("signal"));
        assert_eq!(generate(SMALL, mt).unwrap(), generate(&without, mt).unwrap());
    }
}

#[test]
fn without_method_type_only_trees_are_missing() {
    let with = generate(SMALL, Some("MTFn")).unwrap();
    let without = generate(SMALL, None).unwrap();
    assert!(with.starts_with(&without));
    let mut tree = String::new();
    write_intf_tree(&mut tree, &small_intf(), "MTFn").unwrap();
    assert_eq!(with, without + &tree);
}
