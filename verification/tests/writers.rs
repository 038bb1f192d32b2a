use dbus_codegen::errors::GenError;
use dbus_codegen::emit::{write_intf, write_intf_client, write_intf_tree, write_method_decl, write_prop_decl};
use dbus_codegen::model::{Arg, Intf, Method, Prop};

fn arg(name: &str, typ: &str, idx: i32, is_out: bool) -> Arg {
    Arg { name: name.to_string(), typ: typ.to_string(), idx, is_out }
}

fn method(name: &str, iargs: Vec<Arg>, oargs: Vec<Arg>) -> Method {
    Method { name: name.to_string(), iargs, oargs }
}

fn prop(name: &str, typ: &str, access: &str) -> Prop {
    Prop { name: name.to_string(), typ: typ.to_string(), access: access.to_string() }
}

fn sample_intf() -> Intf {
    Intf {
        name: "org.example.Foo".to_string(),
        methods: vec![method("Ping", vec![], vec![])],
        props: vec![prop("Count", "u", "readwrite")],
        signals: vec![],
    }
}

#[test]
fn arg_names() {
    assert_eq!(arg("", "s", 3, false).varname(), "arg3");
    assert_eq!(arg("", "s", 0, true).varname(), "arg0");
    assert_eq!(arg("", "s", 12, false).varname(), "arg12");
    assert_eq!(arg("", "s", -5, false).varname(), "arg-5");
    assert_eq!(arg("FooBar", "s", 0, false).varname(), "foo_bar");
    assert_eq!(arg("interface_name", "s", 0, false).varname(), "interfacename");
}

#[test]
fn arg_types() {
    assert_eq!(arg("", "s", 0, true).typename().unwrap(), "String");
    assert_eq!(arg("", "s", 0, false).typename().unwrap(), "&str");
    assert_eq!(arg("", "a{", 0, false).typename(), Err(GenError::UnexpectedEndOfSignature));
}

#[test]
fn property_access() {
    let p = |a: &str| prop("P", "s", a);
    assert!(p("read").can_get() && !p("read").can_set());
    assert!(!p("write").can_get() && p("write").can_set());
    assert!(p("readwrite").can_get() && p("readwrite").can_set());
    assert!(p("other").can_get() && !p("other").can_set());
    for a in ["read", "write", "readwrite", "", "x"] {
        assert!(p(a).can_get() || p(a).can_set());
    }
}

#[test]
fn method_declarations() {
    let mut s = String::new();
    write_method_decl(&mut s, &method("Hello", vec![], vec![arg("", "s", 0, true)])).unwrap();
    assert_eq!(s, "    fn hello(&self) -> Result<String, ::dbus::Error>");

    let mut s = String::from("X");
    let m = method("RequestName", vec![arg("", "s", 0, false), arg("", "u", 1, false)], vec![arg("", "u", 0, true)]);
    write_method_decl(&mut s, &m).unwrap();
    assert_eq!(s, "X    fn request_name(&self, arg0: &str, arg1: u32) -> Result<u32, ::dbus::Error>");

    let mut s = String::new();
    write_method_decl(&mut s, &method("ReloadConfig", vec![], vec![])).unwrap();
    assert_eq!(s, "    fn reload_config(&self) -> Result<(), ::dbus::Error>");

    let mut s = String::new();
    let m = method("Two", vec![], vec![arg("a", "s", 0, true), arg("b", "u", 1, true), arg("c", "ay", 2, true)]);
    write_method_decl(&mut s, &m).unwrap();
    assert_eq!(s, "    fn two(&self) -> Result<(String, u32, Vec<u8>), ::dbus::Error>");
}

#[test]
fn method_declaration_errors() {
    let mut s = String::new();
    let m = method("M", vec![arg("", "a{ss", 0, false)], vec![arg("", "", 0, true)]);
    assert_eq!(write_method_decl(&mut s, &m), Err(GenError::NoEndOfDict));
    let mut s = String::new();
    let m = method("M", vec![arg("", "s", 0, false)], vec![arg("", "s", 0, true), arg("", "ss", 1, true)]);
    assert_eq!(write_method_decl(&mut s, &m), Err(GenError::TypeNotEnded));
}

#[test]
fn property_declarations() {
    let p = prop("BackendName", "s", "read");
    let mut s = String::new();
    write_prop_decl(&mut s, &p, false).unwrap();
    assert_eq!(s, "    fn get_backend_name(&self) -> Result<String, ::dbus::Error>");
    let mut s = String::new();
    write_prop_decl(&mut s, &p, true).unwrap();
    assert_eq!(s, "    fn set_backend_name(&self, value: String) -> Result<(), ::dbus::Error>");
    let mut s = String::from("kept");
    assert_eq!(write_prop_decl(&mut s, &prop("X", "", "read"), false), Err(GenError::UnexpectedEndOfSignature));
    assert_eq!(s, "kept");
    assert_eq!(write_prop_decl(&mut s, &prop("X", "ss", "read"), true), Err(GenError::TypeNotEnded));
    assert_eq!(s, "kept");
}

#[test]
fn interface_trait() {
    let mut s = String::new();
    write_intf(&mut s, &sample_intf()).unwrap();
    assert_eq!(
        s,
        "\npub trait OrgExampleFoo {\n    fn ping(&self) -> Result<(), ::dbus::Error>;\n    fn get_count(&self) -> Result<u32, ::dbus::Error>;\n    fn set_count(&self, value: u32) -> Result<(), ::dbus::Error>;\n}\n"
    );
}

#[test]
fn interface_client() {
    let mut s = String::new();
    write_intf_client(&mut s, &sample_intf()).unwrap();
    let expected = String::new()
        + "\nimpl<'a, C: ::std::ops::Deref<Target=::dbus::Connection>> OrgExampleFoo for ::dbus::ConnPath<'a, C> {\n"
        + "\n"
        + "    fn ping(&self) -> Result<(), ::dbus::Error> {\n"
        + "        let mut m = try!(self.method_call_with_args(&\"org.example.Foo\".into(), &\"Ping\".into(), |_| {\n"
        + "        }));\n"
        + "        try!(m.as_result());\n"
        + "        Ok(())\n"
        + "    }\n"
        + "\n"
        + "    fn get_count(&self) -> Result<u32, ::dbus::Error> {\n"
        + "        let mut m = try!(self.method_call_with_args(&\"Org.Freedesktop.DBus.Properties\".into(), &\"Get\".into(), move |msg| {\n"
        + "            let mut i = ::dbus::arg::IterAppend::new(msg);\n"
        + "            i.append(\"org.example.Foo\");\n"
        + "            i.append(\"Count\");\n"
        + "        }));\n"
        + "        Ok(try!(try!(m.as_result()).read1()))\n"
        + "    }\n"
        + "\n"
        + "    fn set_count(&self, value: u32) -> Result<(), ::dbus::Error> {\n"
        + "        let mut m = try!(self.method_call_with_args(&\"Org.Freedesktop.DBus.Properties\".into(), &\"Set\".into(), move |msg| {\n"
        + "            let mut i = ::dbus::arg::IterAppend::new(msg);\n"
        + "            i.append(\"org.example.Foo\");\n"
        + "            i.append(\"Count\");\n"
        + "            i.append(value);\n"
        + "        }));\n"
        + "        m.as_result()\n"
        + "    }\n"
        + "}\n";
    assert_eq!(s, expected);
}

#[test]
fn client_method_with_arguments() {
    let intf = Intf {
        name: "a.B".to_string(),
        methods: vec![method("Get", vec![arg("key", "s", 0, false)], vec![arg("", "u", 0, true), arg("Val", "s", 1, true)])],
        props: vec![],
        signals: vec![],
    };
    let mut s = String::new();
    write_intf_client(&mut s, &intf).unwrap();
    let expected = String::new()
        + "\nimpl<'a, C: ::std::ops::Deref<Target=::dbus::Connection>> AB for ::dbus::ConnPath<'a, C> {\n"
        + "\n"
        + "    fn get(&self, key: &str) -> Result<(u32, String), ::dbus::Error> {\n"
        + "        let mut m = try!(self.method_call_with_args(&\"a.B\".into(), &\"Get\".into(), |msg| {\n"
        + "            let mut i = ::dbus::arg::IterAppend::new(msg);\n"
        + "            i.append(key);\n"
        + "        }));\n"
        + "        try!(m.as_result());\n"
        + "        let mut i = m.iter_init();\n"
        + "        let arg0: u32 = try!(i.read());\n"
        + "        let val: String = try!(i.read());\n"
        + "        Ok((arg0, val))\n"
        + "    }\n"
        + "}\n";
    assert_eq!(s, expected);
}

#[test]
fn interface_tree() {
    let intf = Intf {
        name: "a.B".to_string(),
        methods: vec![method("Get", vec![arg("key", "s", 0, false)], vec![arg("", "u", 0, true)])],
        props: vec![prop("Count", "u", "read")],
        signals: vec![],
    };
    let mut s = String::new();
    write_intf_tree(&mut s, &intf, "MTFn").unwrap();
    let expected = String::new()
        + "\npub fn a_b_server<F, T, D>(factory: &::dbus::tree::Factory<::dbus::tree::MTFn<D>, D>, data: D::Interface, f: F) -> ::dbus::tree::Interface<::dbus::tree::MTFn<D>, D>\n"
        + "where D: ::dbus::tree::DataType, D::Method: Default, T: AB, \n"
        + "    D::Property: Default,"
        + "    F: 'static + for <'z> Fn(& 'z ::dbus::tree::MethodInfo<::dbus::tree::MTFn<D>, D>) -> & 'z T {\n"
        + "    let i = factory.interface(\"a.B\", data);\n"
        + "    let f = ::std::sync::Arc::new(f);"
        + "\n    let fclone = f.clone();\n"
        + "    let h = move |minfo: &::dbus::tree::MethodInfo<::dbus::tree::MTFn<D>, D>| {\n"
        + "        let mut i = minfo.msg.iter_init();\n"
        + "        let key: &str = try!(i.read());\n"
        + "        let d = fclone(minfo);\n"
        + "        let arg0 = try!(d.get(key));\n"
        + "        let rm = minfo.msg.method_return();\n"
        + "        let rm = rm.append1(arg0);\n"
        + "        Ok(vec!(rm))\n"
        + "    };\n"
        + "    let m = factory.method(\"Get\", Default::default(), h);\n"
        + "    let m = m.in_arg((\"key\", \"s\"));\n"
        + "    let m = m.out_arg((\"\", \"u\"));\n"
        + "    let i = i.add_m(m);\n"
        + "\n    let p = factory.property::<u32, _>(\"Count\", Default::default());\n"
        + "    let p = p.access(::dbus::tree::Access::Read);\n"
        + "    let fclone = f.clone();\n"
        + "    let p = p.on_get(move |a, pinfo| {\n"
        + "        let minfo = pinfo.to_method_info();\n"
        + "        let d = fclone(&minfo);\n"
        + "        a.append(try!(d.get_count()));\n"
        + "        Ok(())\n"
        + "    });\n"
        + "    let i = i.add_p(p);\n"
        + "    i\n"
        + "}\n";
    assert_eq!(s, expected);
}

#[test]
fn tree_with_several_results_and_setter() {
    let intf = Intf {
        name: "x".to_string(),
        methods: vec![method("M", vec![], vec![arg("A", "s", 0, true), arg("", "b", 1, true)])],
        props: vec![prop("W", "s", "write")],
        signals: vec![],
    };
    let mut s = String::new();
    write_intf_tree(&mut s, &intf, "MTSync").unwrap();
    let expected = String::new()
        + "\npub fn x_server<F, T, D>(factory: &::dbus::tree::Factory<::dbus::tree::MTSync<D>, D>, data: D::Interface, f: F) -> ::dbus::tree::Interface<::dbus::tree::MTSync<D>, D>\n"
        + "where D: ::dbus::tree::DataType, D::Method: Default, T: X, \n"
        + "    D::Property: Default,"
        + "    F: 'static + for <'z> Fn(& 'z ::dbus::tree::MethodInfo<::dbus::tree::MTSync<D>, D>) -> & 'z T {\n"
        + "    let i = factory.interface(\"x\", data);\n"
        + "    let f = ::std::sync::Arc::new(f);"
        + "\n    let fclone = f.clone();\n"
        + "    let h = move |minfo: &::dbus::tree::MethodInfo<::dbus::tree::MTSync<D>, D>| {\n"
        + "        let d = fclone(minfo);\n"
        + "        let (a, arg1) = try!(d.m());\n"
        + "        let rm = minfo.msg.method_return();\n"
        + "        let rm = rm.append1(a);\n"
        + "        let rm = rm.append1(arg1);\n"
        + "        Ok(vec!(rm))\n"
        + "    };\n"
        + "    let m = factory.method(\"M\", Default::default(), h);\n"
        + "    let m = m.out_arg((\"A\", \"s\"));\n"
        + "    let m = m.out_arg((\"\", \"b\"));\n"
        + "    let i = i.add_m(m);\n"
        + "\n    let p = factory.property::<&str, _>(\"W\", Default::default());\n"
        + "    let p = p.access(::dbus::tree::Access::Write);\n"
        + "    let fclone = f.clone();\n"
        + "    let p = p.on_set(move |iter, pinfo| {\n"
        + "        let minfo = pinfo.to_method_info();\n"
        + "        let d = fclone(&minfo);\n"
        + "        try!(d.set_w(try!(iter.read())));\n"
        + "        Ok(())\n"
        + "    });\n"
        + "    let i = i.add_p(p);\n"
        + "    i\n"
        + "}\n";
    assert_eq!(s, expected);
}

#[test]
fn tree_rejects_unknown_access() {
    let intf = Intf {
        name: "x".to_string(),
        methods: vec![],
        props: vec![prop("P", "s", "rw")],
        signals: vec![],
    };
    let mut s = String::new();
    assert_eq!(write_intf_tree(&mut s, &intf, "MTFn"), Err(GenError::UnexpectedAccess("rw".to_string())));
    assert!(s.ends_with("    let f = ::std::sync::Arc::new(f);\n    let p = factory.property::<&str, _>(\"P\", Default::default());\n"));
    let mut t = String::new();
    assert!(write_intf(&mut t, &intf).is_ok());
    let mut c = String::new();
    assert!(write_intf_client(&mut c, &intf).is_ok());
}

#[test]
fn empty_interface() {
    let intf = Intf { name: "e".to_string(), methods: vec![], props: vec![], signals: vec![] };
    let mut s = String::new();
    write_intf(&mut s, &intf).unwrap();
    assert_eq!(s, "\npub trait E {\n}\n");
    let mut s = String::new();
    write_intf_tree(&mut s, &intf, "MTFn").unwrap();
    assert_eq!(
        s,
        "\npub fn e_server<F, T, D>(factory: &::dbus::tree::Factory<::dbus::tree::MTFn<D>, D>, data: D::Interface, f: F) -> ::dbus::tree::Interface<::dbus::tree::MTFn<D>, D>\nwhere D: ::dbus::tree::DataType, D::Method: Default, T: E, \n    F: 'static + for <'z> Fn(& 'z ::dbus::tree::MethodInfo<::dbus::tree::MTFn<D>, D>) -> & 'z T {\n    let i = factory.interface(\"e\", data);\n    let f = ::std::sync::Arc::new(f);    i\n}\n"
    );
}

#[test]
fn client_follows_trait_on_samples() {
    for intf in [sample_intf(), Intf { name: "q".to_string(), methods: vec![method("A", vec![arg("", "a{sv}", 0, false)], vec![arg("", "(ss)", 0, true)])], props: vec![prop("R", "as", "read")], signals: vec![] }] {
        let mut t = String::new();
        if write_intf(&mut t, &intf).is_ok() {
            let mut c = String::new();
            assert!(write_intf_client(&mut c, &intf).is_ok());
        }
    }
}

#[test]
fn writer_text_ignores_earlier_text_and_signals() {
    let mut with_signal = sample_intf();
    with_signal.signals.push(dbus_codegen::model::Signal { name: "S".to_string(), args: vec![arg("", "s", 0, true)] });
    let mut a = String::new();
    write_intf_client(&mut a, &sample_intf()).unwrap();
    let mut b = String::from("earlier");
    write_intf_client(&mut b, &with_signal).unwrap();
    assert_eq!(b, "earlier".to_string() + &a);
    let mut c = String::new();
    write_intf_tree(&mut c, &sample_intf(), "MTFn").unwrap();
    let mut d = String::from("x");
    write_intf_tree(&mut d, &with_signal, "MTFn").unwrap();
    assert_eq!(d, "x".to_string() + &c);
    let mut twice = String::new();
    write_intf_client(&mut twice, &sample_intf()).unwrap();
    write_intf_client(&mut twice, &sample_intf()).unwrap();
    assert_eq!(twice, a.clone() + &a);
}
