use vstd::prelude::*;
use crate::emit::{appended, cat, emit_intf, emit_intf_client, emit_intf_tree, intf_client, intf_decl, intf_tree, Emitted};
use crate::errors::{ErrorModel, Fault, FaultModel, GenError};
use crate::model::{
    args_view, Arg, ArgModel, Intf, IntfModel, Method, MethodModel, Prop, PropModel, Signal, SignalModel,
};
use crate::text::same_text;
use crate::xmlsrc::{
    attr_value, attrs_view, find_attr, items_view, xml_events, xml_events_of, AttrModel, Attribute, XmlItem, XmlItemModel,
};

verus! {

/// What has been read and generated so far: the code, and the interface, method, signal
/// and property whose elements are open.
#[verifier::ext_equal]
pub struct GenModel {
    pub out: Seq<char>,
    pub intf: Option<IntfModel>,
    pub method: Option<MethodModel>,
    pub signal: Option<SignalModel>,
    pub prop: Option<PropModel>,
}

pub open spec fn opt_view<T: View>(o: Option<T>) -> Option<T::V> {
    match o {
        Some(x) => Some(x@),
        None => None,
    }
}

/// The state of generation.
pub struct GenState {
    pub out: String,
    pub intf: Option<Intf>,
    pub method: Option<Method>,
    pub signal: Option<Signal>,
    pub prop: Option<Prop>,
}

impl View for GenState {
    type V = GenModel;

    open spec fn view(&self) -> GenModel {
        GenModel {
            out: self.out@,
            intf: opt_view(self.intf),
            method: opt_view(self.method),
            signal: opt_view(self.signal),
            prop: opt_view(self.prop),
        }
    }
}

pub open spec fn initial() -> GenModel {
    GenModel { out: Seq::empty(), intf: None, method: None, signal: None, prop: None }
}

pub open spec fn fail(e: ErrorModel) -> Result<GenModel, FaultModel> {
    Err(FaultModel::Error(e))
}

/// All the code for one interface: its trait, the trait's client implementation, and,
/// where a method type is given, the function that builds it for an object tree.
pub open spec fn interface_code(i: IntfModel, mtype: Option<Seq<char>>) -> Emitted {
    cat(
        intf_decl(i),
        cat(
            intf_client(i),
            match mtype {
                Some(mt) => intf_tree(i, mt),
                None => Ok(Seq::empty()),
            },
        ),
    )
}

/// Whether an argument is handed out: always for a signal's argument; for a method's,
/// by its `direction` (`in` where there is none); `None` for another direction.
pub open spec fn arg_direction(st: GenModel, attrs: Seq<AttrModel>) -> Option<bool> {
    if st.signal is Some {
        Some(true)
    } else {
        match attr_value(attrs, "direction"@) {
            None => Some(false),
            Some(d) => if d == "in"@ {
                Some(false)
            } else if d == "out"@ {
                Some(true)
            } else {
                None
            },
        }
    }
}

/// The start of an `arg` element: the argument joins the open signal where there is one,
/// else the open method's output or input arguments.
pub open spec fn start_arg(st: GenModel, attrs: Seq<AttrModel>) -> Result<GenModel, FaultModel> {
    if st.method is None && st.signal is None {
        fail(ErrorModel::ArgOutsideMethodAndSignal)
    } else if st.intf is None {
        fail(ErrorModel::ArgOutsideInterface)
    } else {
        match attr_value(attrs, "type"@) {
            None => fail(ErrorModel::AttributeNotFound),
            Some(typ) => match arg_direction(st, attrs) {
                None => fail(ErrorModel::InvalidDirection),
                Some(is_out) => {
                    let name = match attr_value(attrs, "name"@) {
                        Some(n) => n,
                        None => Seq::empty(),
                    };
                    if st.signal is Some {
                        let sig = st.signal->Some_0;
                        let a = ArgModel { name, typ, idx: sig.args.len() as i32, is_out };
                        Ok(
                            GenModel {
                                signal: Some(SignalModel { name: sig.name, args: sig.args.push(a) }),
                                ..st
                            },
                        )
                    } else {
                        let m = st.method->Some_0;
                        if is_out {
                            let a = ArgModel { name, typ, idx: m.oargs.len() as i32, is_out };
                            Ok(
                                GenModel {
                                    method: Some(MethodModel { oargs: m.oargs.push(a), ..m }),
                                    ..st
                                },
                            )
                        } else {
                            let a = ArgModel { name, typ, idx: m.iargs.len() as i32, is_out };
                            Ok(
                                GenModel {
                                    method: Some(MethodModel { iargs: m.iargs.push(a), ..m }),
                                    ..st
                                },
                            )
                        }
                    }
                },
            },
        }
    }
}

/// The start of an `interface` element.
pub open spec fn start_interface(st: GenModel, attrs: Seq<AttrModel>) -> Result<GenModel, FaultModel> {
    if st.method is Some {
        fail(ErrorModel::InterfaceStartInsideMethod)
    } else if st.intf is Some {
        fail(ErrorModel::InterfaceStartInsideInterface)
    } else {
        match attr_value(attrs, "name"@) {
            None => fail(ErrorModel::AttributeNotFound),
            Some(n) => Ok(
                GenModel {
                    intf: Some(
                        IntfModel { name: n, methods: Seq::empty(), props: Seq::empty(), signals: Seq::empty() },
                    ),
                    ..st
                },
            ),
        }
    }
}

/// The start of a `method` element.
pub open spec fn start_method(st: GenModel, attrs: Seq<AttrModel>) -> Result<GenModel, FaultModel> {
    if st.method is Some {
        fail(ErrorModel::MethodStartInsideMethod)
    } else if st.intf is None {
        fail(ErrorModel::MethodStartOutsideInterface)
    } else {
        match attr_value(attrs, "name"@) {
            None => fail(ErrorModel::AttributeNotFound),
            Some(n) => Ok(
                GenModel {
                    method: Some(MethodModel { name: n, iargs: Seq::empty(), oargs: Seq::empty() }),
                    ..st
                },
            ),
        }
    }
}

/// The start of a `signal` element.
pub open spec fn start_signal(st: GenModel, attrs: Seq<AttrModel>) -> Result<GenModel, FaultModel> {
    if st.signal is Some {
        fail(ErrorModel::SignalStartInsideSignal)
    } else if st.intf is None {
        fail(ErrorModel::SignalStartOutsideInterface)
    } else {
        match attr_value(attrs, "name"@) {
            None => fail(ErrorModel::AttributeNotFound),
            Some(n) => Ok(GenModel { signal: Some(SignalModel { name: n, args: Seq::empty() }), ..st }),
        }
    }
}

/// The start of a `property` element.
pub open spec fn start_property(st: GenModel, attrs: Seq<AttrModel>) -> Result<GenModel, FaultModel> {
    if st.prop is Some {
        fail(ErrorModel::PropertyStartInsideProperty)
    } else if st.intf is None {
        fail(ErrorModel::PropertyStartOutsideInterface)
    } else {
        match (attr_value(attrs, "name"@), attr_value(attrs, "type"@), attr_value(attrs, "access"@)) {
            (Some(n), Some(t), Some(a)) => Ok(GenModel { prop: Some(PropModel { name: n, typ: t, access: a }), ..st }),
            _ => fail(ErrorModel::AttributeNotFound),
        }
    }
}

/// The start of an element.
pub open spec fn start_element(st: GenModel, name: Seq<char>, attrs: Seq<AttrModel>) -> Result<GenModel, FaultModel> {
    if name == "interface"@ {
        start_interface(st, attrs)
    } else if name == "method"@ {
        start_method(st, attrs)
    } else if name == "signal"@ {
        start_signal(st, attrs)
    } else if name == "property"@ {
        start_property(st, attrs)
    } else if name == "arg"@ {
        start_arg(st, attrs)
    } else {
        Ok(st)
    }
}

/// The end of an `interface` element, which generates the interface's code.
pub open spec fn end_interface(st: GenModel, mtype: Option<Seq<char>>) -> Result<GenModel, FaultModel> {
    if st.method is Some {
        fail(ErrorModel::InterfaceEndInsideMethod)
    } else if st.intf is None {
        fail(ErrorModel::InterfaceEndOutsideInterface)
    } else {
        match interface_code(st.intf->Some_0, mtype) {
            Ok(t) => Ok(GenModel { out: st.out + t, intf: None, ..st }),
            Err(f) => Err(f),
        }
    }
}

/// The end of a `method` element: the method joins the open interface.
pub open spec fn end_method(st: GenModel) -> Result<GenModel, FaultModel> {
    if st.method is None {
        fail(ErrorModel::MethodEndOutsideMethod)
    } else if st.intf is None {
        fail(ErrorModel::MethodEndOutsideInterface)
    } else {
        let i = st.intf->Some_0;
        Ok(
            GenModel {
                intf: Some(IntfModel { methods: i.methods.push(st.method->Some_0), ..i }),
                method: None,
                ..st
            },
        )
    }
}

/// The end of a `signal` element: the signal joins the open interface.
pub open spec fn end_signal(st: GenModel) -> Result<GenModel, FaultModel> {
    if st.signal is None {
        fail(ErrorModel::SignalEndOutsideSignal)
    } else if st.intf is None {
        fail(ErrorModel::SignalEndOutsideInterface)
    } else {
        let i = st.intf->Some_0;
        Ok(
            GenModel {
                intf: Some(IntfModel { signals: i.signals.push(st.signal->Some_0), ..i }),
                signal: None,
                ..st
            },
        )
    }
}

/// The end of a `property` element: the property joins the open interface.
pub open spec fn end_property(st: GenModel) -> Result<GenModel, FaultModel> {
    if st.prop is None {
        fail(ErrorModel::PropertyEndOutsideProperty)
    } else if st.intf is None {
        fail(ErrorModel::PropertyEndOutsideInterface)
    } else {
        let i = st.intf->Some_0;
        Ok(
            GenModel {
                intf: Some(IntfModel { props: i.props.push(st.prop->Some_0), ..i }),
                prop: None,
                ..st
            },
        )
    }
}

/// The end of an element.
pub open spec fn end_element(st: GenModel, name: Seq<char>, mtype: Option<Seq<char>>) -> Result<GenModel, FaultModel> {
    if name == "interface"@ {
        end_interface(st, mtype)
    } else if name == "method"@ {
        end_method(st)
    } else if name == "signal"@ {
        end_signal(st)
    } else if name == "property"@ {
        end_property(st)
    } else {
        Ok(st)
    }
}

/// One event.
pub open spec fn step(st: GenModel, ev: XmlItemModel, mtype: Option<Seq<char>>) -> Result<GenModel, FaultModel> {
    match ev {
        XmlItemModel::Start { name, attributes } => start_element(st, name, attributes),
        XmlItemModel::End { name } => end_element(st, name, mtype),
        XmlItemModel::Other => Ok(st),
        XmlItemModel::Failure(e) => fail(ErrorModel::Xml(e)),
    }
}

/// All the events, in order, from the initial state; the first failure decides.
pub open spec fn run(evs: Seq<XmlItemModel>, mtype: Option<Seq<char>>) -> Result<GenModel, FaultModel>
    decreases evs.len(),
{
    if evs.len() == 0 {
        Ok(initial())
    } else {
        match run(evs.drop_last(), mtype) {
            Ok(st) => step(st, evs.last(), mtype),
            Err(f) => Err(f),
        }
    }
}

/// The code generated from the events of a document: the code of its interfaces, in
/// order; an error where an interface is not closed at the end.
pub open spec fn generated(evs: Seq<XmlItemModel>, mtype: Option<Seq<char>>) -> Emitted {
    match run(evs, mtype) {
        Ok(st) => if st.intf is Some {
            Err(FaultModel::Error(ErrorModel::UnterminatedInterface))
        } else {
            Ok(st.out)
        },
        Err(f) => Err(f),
    }
}

/// `after` is the state that `e` gives and `r` reports success, or `r` reports why `e`
/// stops; then the code generated so far has at most grown, the open interface has at
/// most been closed, and nothing else has changed.
pub open spec fn stepped(
    before: GenModel,
    after: GenModel,
    r: Result<(), Fault>,
    e: Result<GenModel, FaultModel>,
) -> bool {
    match e {
        Ok(m) => r matches Ok(_) && after == m,
        Err(f) => {
            &&& r matches Err(rf) && rf@ == f
            &&& before.out.is_prefix_of(after.out)
            &&& after.intf == before.intf || after.intf is None
            &&& after.method == before.method
            &&& after.signal == before.signal
            &&& after.prop == before.prop
        },
    }
}

pub open spec fn opt_str(o: Option<&str>) -> Option<Seq<char>> {
    match o {
        Some(x) => Some(x@),
        None => None,
    }
}

/// Appends all the code for one interface.
pub fn emit_interface(s: &mut String, intf: &Intf, mtype: Option<&str>) -> (r: Result<(), Fault>)
    ensures
        appended(old(s)@, final(s)@, r, interface_code(intf@, opt_str(mtype))),
{
    let ghost i = intf@;
    let ghost out0 = s@;
    match emit_intf(s, intf) {
        Ok(_) => {},
        Err(f) => return Err(f),
    }
    match emit_intf_client(s, intf) {
        Ok(_) => {},
        Err(f) => return Err(f),
    }
    match mtype {
        Some(mt) => {
            match emit_intf_tree(s, intf, mt) {
                Ok(_) => {},
                Err(f) => return Err(f),
            }
        },
        None => {},
    }
    proof {
        let ta = intf_decl(i)->Ok_0;
        let tb = intf_client(i)->Ok_0;
        let tc = match opt_str(mtype) {
            Some(mt) => intf_tree(i, mt)->Ok_0,
            None => Seq::<char>::empty(),
        };
        assert(s@ =~= out0 + (ta + (tb + tc)));
    }
    Ok(())
}

impl GenState {
    /// Nothing read, nothing generated.
    pub fn new() -> (st: GenState)
        ensures
            st@ == initial(),
    {
        GenState { out: String::new(), intf: None, method: None, signal: None, prop: None }
    }

    fn start_interface(&mut self, attributes: &Vec<Attribute>) -> (r: Result<(), Fault>)
        ensures
            stepped(old(self)@, final(self)@, r, start_interface(old(self)@, attrs_view(*attributes))),
    {
        if self.method.is_some() {
            return Err(Fault::Error(GenError::InterfaceStartInsideMethod));
        }
        if self.intf.is_some() {
            return Err(Fault::Error(GenError::InterfaceStartInsideInterface));
        }
        let n = match find_attr(attributes, "name") {
            Ok(n) => n,
            Err(e) => return Err(Fault::Error(e)),
        };
        let i = Intf { name: String::from_str(n), methods: Vec::new(), props: Vec::new(), signals: Vec::new() };
        assert(i@ =~~= IntfModel { name: n@, methods: Seq::empty(), props: Seq::empty(), signals: Seq::empty() });
        self.intf = Some(i);
        Ok(())
    }

    fn start_method(&mut self, attributes: &Vec<Attribute>) -> (r: Result<(), Fault>)
        ensures
            stepped(old(self)@, final(self)@, r, start_method(old(self)@, attrs_view(*attributes))),
    {
        if self.method.is_some() {
            return Err(Fault::Error(GenError::MethodStartInsideMethod));
        }
        if self.intf.is_none() {
            return Err(Fault::Error(GenError::MethodStartOutsideInterface));
        }
        let n = match find_attr(attributes, "name") {
            Ok(n) => n,
            Err(e) => return Err(Fault::Error(e)),
        };
        let m = Method { name: String::from_str(n), iargs: Vec::new(), oargs: Vec::new() };
        assert(m@ =~~= MethodModel { name: n@, iargs: Seq::empty(), oargs: Seq::empty() });
        self.method = Some(m);
        Ok(())
    }

    fn start_signal(&mut self, attributes: &Vec<Attribute>) -> (r: Result<(), Fault>)
        ensures
            stepped(old(self)@, final(self)@, r, start_signal(old(self)@, attrs_view(*attributes))),
    {
        if self.signal.is_some() {
            return Err(Fault::Error(GenError::SignalStartInsideSignal));
        }
        if self.intf.is_none() {
            return Err(Fault::Error(GenError::SignalStartOutsideInterface));
        }
        let n = match find_attr(attributes, "name") {
            Ok(n) => n,
            Err(e) => return Err(Fault::Error(e)),
        };
        let sig = Signal { name: String::from_str(n), args: Vec::new() };
        assert(sig@ =~~= SignalModel { name: n@, args: Seq::empty() });
        self.signal = Some(sig);
        Ok(())
    }

    fn start_property(&mut self, attributes: &Vec<Attribute>) -> (r: Result<(), Fault>)
        ensures
            stepped(old(self)@, final(self)@, r, start_property(old(self)@, attrs_view(*attributes))),
    {
        if self.prop.is_some() {
            return Err(Fault::Error(GenError::PropertyStartInsideProperty));
        }
        if self.intf.is_none() {
            return Err(Fault::Error(GenError::PropertyStartOutsideInterface));
        }
        let n = match find_attr(attributes, "name") {
            Ok(n) => n,
            Err(e) => return Err(Fault::Error(e)),
        };
        let t = match find_attr(attributes, "type") {
            Ok(t) => t,
            Err(e) => return Err(Fault::Error(e)),
        };
        let a = match find_attr(attributes, "access") {
            Ok(a) => a,
            Err(e) => return Err(Fault::Error(e)),
        };
        self.prop = Some(Prop { name: String::from_str(n), typ: String::from_str(t), access: String::from_str(a) });
        Ok(())
    }

    fn start_arg(&mut self, attributes: &Vec<Attribute>) -> (r: Result<(), Fault>)
        ensures
            stepped(old(self)@, final(self)@, r, start_arg(old(self)@, attrs_view(*attributes))),
    {
        let ghost st = self@;
        let ghost attrs = attrs_view(*attributes);
        if self.method.is_none() && self.signal.is_none() {
            return Err(Fault::Error(GenError::ArgOutsideMethodAndSignal));
        }
        if self.intf.is_none() {
            return Err(Fault::Error(GenError::ArgOutsideInterface));
        }
        let typ = match find_attr(attributes, "type") {
            Ok(t) => t,
            Err(e) => return Err(Fault::Error(e)),
        };
        let is_out = if self.signal.is_some() {
            true
        } else {
            match find_attr(attributes, "direction") {
                Err(_) => false,
                Ok(d) => {
                    if same_text(d, "in") {
                        false
                    } else if same_text(d, "out") {
                        true
                    } else {
                        return Err(Fault::Error(GenError::InvalidDirection));
                    }
                },
            }
        };
        assert(arg_direction(st, attrs) == Some(is_out));
        let name = match find_attr(attributes, "name") {
            Ok(n) => String::from_str(n),
            Err(_) => String::new(),
        };
        let ghost nm = match attr_value(attrs, "name"@) {
            Some(n) => n,
            None => Seq::<char>::empty(),
        };
        assert(name@ == nm);
        let typ = String::from_str(typ);
        if self.signal.is_some() {
            let mut sig = self.signal.take().unwrap();
            let ghost old_args = args_view(sig.args);
            let idx = sig.args.len() as i32;
            sig.args.push(Arg { name, typ, idx, is_out });
            assert(args_view(sig.args) =~= old_args.push(ArgModel { name: nm, typ: typ@, idx, is_out }));
            self.signal = Some(sig);
        } else {
            let mut m = self.method.take().unwrap();
            if is_out {
                let ghost old_args = args_view(m.oargs);
                let idx = m.oargs.len() as i32;
                m.oargs.push(Arg { name, typ, idx, is_out });
                assert(args_view(m.oargs) =~= old_args.push(ArgModel { name: nm, typ: typ@, idx, is_out }));
            } else {
                let ghost old_args = args_view(m.iargs);
                let idx = m.iargs.len() as i32;
                m.iargs.push(Arg { name, typ, idx, is_out });
                assert(args_view(m.iargs) =~= old_args.push(ArgModel { name: nm, typ: typ@, idx, is_out }));
            }
            self.method = Some(m);
        }
        assert(self@ =~~= start_arg(st, attrs)->Ok_0);
        Ok(())
    }

    /// The start of an element.
    pub fn start_element(&mut self, name: &str, attributes: &Vec<Attribute>) -> (r: Result<(), Fault>)
        ensures
            stepped(old(self)@, final(self)@, r, start_element(old(self)@, name@, attrs_view(*attributes))),
    {
        if same_text(name, "interface") {
            self.start_interface(attributes)
        } else if same_text(name, "method") {
            self.start_method(attributes)
        } else if same_text(name, "signal") {
            self.start_signal(attributes)
        } else if same_text(name, "property") {
            self.start_property(attributes)
        } else if same_text(name, "arg") {
            self.start_arg(attributes)
        } else {
            Ok(())
        }
    }

    fn end_interface(&mut self, mtype: Option<&str>) -> (r: Result<(), Fault>)
        ensures
            stepped(old(self)@, final(self)@, r, end_interface(old(self)@, opt_str(mtype))),
    {
        let ghost st = self@;
        if self.method.is_some() {
            return Err(Fault::Error(GenError::InterfaceEndInsideMethod));
        }
        if self.intf.is_none() {
            return Err(Fault::Error(GenError::InterfaceEndOutsideInterface));
        }
        let intf = self.intf.take().unwrap();
        emit_interface(&mut self.out, &intf, mtype)
    }

    fn end_method(&mut self) -> (r: Result<(), Fault>)
        ensures
            stepped(old(self)@, final(self)@, r, end_method(old(self)@)),
    {
        if self.method.is_none() {
            return Err(Fault::Error(GenError::MethodEndOutsideMethod));
        }
        if self.intf.is_none() {
            return Err(Fault::Error(GenError::MethodEndOutsideInterface));
        }
        let m = self.method.take().unwrap();
        let mut i = self.intf.take().unwrap();
        let ghost old_i = i@;
        i.methods.push(m);
        assert(i@ =~~= IntfModel { methods: old_i.methods.push(m@), ..old_i });
        self.intf = Some(i);
        Ok(())
    }

    fn end_signal(&mut self) -> (r: Result<(), Fault>)
        ensures
            stepped(old(self)@, final(self)@, r, end_signal(old(self)@)),
    {
        if self.signal.is_none() {
            return Err(Fault::Error(GenError::SignalEndOutsideSignal));
        }
        if self.intf.is_none() {
            return Err(Fault::Error(GenError::SignalEndOutsideInterface));
        }
        let sig = self.signal.take().unwrap();
        let mut i = self.intf.take().unwrap();
        let ghost old_i = i@;
        i.signals.push(sig);
        assert(i@ =~~= IntfModel { signals: old_i.signals.push(sig@), ..old_i });
        self.intf = Some(i);
        Ok(())
    }

    fn end_property(&mut self) -> (r: Result<(), Fault>)
        ensures
            stepped(old(self)@, final(self)@, r, end_property(old(self)@)),
    {
        if self.prop.is_none() {
            return Err(Fault::Error(GenError::PropertyEndOutsideProperty));
        }
        if self.intf.is_none() {
            return Err(Fault::Error(GenError::PropertyEndOutsideInterface));
        }
        let p = self.prop.take().unwrap();
        let mut i = self.intf.take().unwrap();
        let ghost old_i = i@;
        i.props.push(p);
        assert(i@ =~~= IntfModel { props: old_i.props.push(p@), ..old_i });
        self.intf = Some(i);
        Ok(())
    }

    /// The end of an element.
    pub fn end_element(&mut self, name: &str, mtype: Option<&str>) -> (r: Result<(), Fault>)
        ensures
            stepped(old(self)@, final(self)@, r, end_element(old(self)@, name@, opt_str(mtype))),
    {
        if same_text(name, "interface") {
            self.end_interface(mtype)
        } else if same_text(name, "method") {
            self.end_method()
        } else if same_text(name, "signal") {
            self.end_signal()
        } else if same_text(name, "property") {
            self.end_property()
        } else {
            Ok(())
        }
    }
}

/// Once a prefix of the events stops generation, so do all the events.
pub proof fn lemma_run_stops(evs: Seq<XmlItemModel>, mtype: Option<Seq<char>>, k: int)
    requires
        0 <= k <= evs.len(),
        run(evs.take(k), mtype) is Err,
    ensures
        run(evs, mtype) == run(evs.take(k), mtype),
    decreases evs.len(),
{
    if k < evs.len() {
        assert(evs.drop_last().take(k) =~= evs.take(k));
        lemma_run_stops(evs.drop_last(), mtype, k);
    } else {
        assert(evs.take(k) =~= evs);
    }
}

/// Generates the code for the events of a document, in order. Where an event on which
/// the generator has no Rust type for a type code is reached first, that is what it
/// reports.
pub fn generate_from_events(events: Vec<XmlItem>, mtype: Option<&str>) -> (r: Result<String, Fault>)
    ensures
        match generated(items_view(events), opt_str(mtype)) {
            Ok(t) => r matches Ok(x) && x@ == t,
            Err(f) => r matches Err(rf) && rf@ == f,
        },
{
    let ghost evs = items_view(events);
    let ghost mt = opt_str(mtype);
    let mut items = events;
    let mut st = GenState::new();
    let n = items.len();
    let mut k: usize = 0;
    while k < n
        invariant
            n == items.len(),
            n == evs.len(),
            evs == items_view(items),
            evs == items_view(events),
            mt == opt_str(mtype),
            k <= n,
            run(evs.take(k as int), mt) == Ok::<GenModel, FaultModel>(st@),
        decreases n - k,
    {
        assert(evs.take(k + 1).drop_last() =~= evs.take(k as int));
        assert(evs[k as int] == items@[k as int]@);
        assert(evs.take(k + 1).last() == evs[k as int]);
        let failed = matches!(items[k], XmlItem::Failure(_));
        if failed {
            let item = items.remove(k);
            match item {
                XmlItem::Failure(e) => {
                    proof {
                        assert(evs[k as int] == XmlItemModel::Failure(e));
                        assert(step(st@, evs[k as int], mt) is Err);
                        assert(run(evs.take(k + 1), mt) is Err);
                        lemma_run_stops(evs, mt, k + 1);
                    }
                    return Err(Fault::Error(GenError::Xml(e)));
                },
                _ => {
                    assert(false);
                    return Err(Fault::Error(GenError::UnterminatedInterface));
                },
            }
        }
        let r = match &items[k] {
            XmlItem::Start { name, attributes } => st.start_element(name.as_str(), attributes),
            XmlItem::End { name } => st.end_element(name.as_str(), mtype),
            _ => Ok(()),
        };
        match r {
            Ok(_) => {},
            Err(f) => {
                proof {
                    lemma_run_stops(evs, mt, k + 1);
                }
                return Err(f);
            },
        }
        k = k + 1;
    }
    assert(evs.take(n as int) =~= evs);
    if st.intf.is_some() {
        return Err(Fault::Error(GenError::UnterminatedInterface));
    }
    Ok(st.out)
}

/// Generates Rust code for the D-Bus interfaces described by the introspection XML
/// `xmldata`: for each interface a trait, the trait's client implementation, and, where
/// a method type `mtype` is given, the function that builds the interface for an object
/// tree.
pub fn generate(xmldata: &str, mtype: Option<&str>) -> (r: Result<String, GenError>)
    requires
        !(generated(xml_events_of(xmldata@), opt_str(mtype)) matches Err(FaultModel::Unsupported(_))),
    ensures
        match generated(xml_events_of(xmldata@), opt_str(mtype)) {
            Ok(t) => r matches Ok(x) && x@ == t,
            Err(FaultModel::Error(e)) => r matches Err(re) && re@ == e,
            Err(FaultModel::Unsupported(_)) => false,
        },
{
    let events = xml_events(xmldata);
    match generate_from_events(events, mtype) {
        Ok(s) => Ok(s),
        Err(Fault::Error(e)) => Err(e),
        Err(Fault::Unsupported(_)) => {
            assert(false);
            Err(GenError::UnterminatedInterface)
        },
    }
}

/// As [`generate`], for every input: `None` where generation reaches a type code that has
/// no Rust type before anything else stops it.
pub fn try_generate(xmldata: &str, mtype: Option<&str>) -> (r: Option<Result<String, GenError>>)
    ensures
        match generated(xml_events_of(xmldata@), opt_str(mtype)) {
            Ok(t) => r matches Some(Ok(x)) && x@ == t,
            Err(FaultModel::Error(e)) => r matches Some(Err(re)) && re@ == e,
            Err(FaultModel::Unsupported(_)) => r is None,
        },
{
    let events = xml_events(xmldata);
    match generate_from_events(events, mtype) {
        Err(Fault::Unsupported(_)) => None,
        _ => Some(generate(xmldata, mtype)),
    }
}

} // verus!
