use vstd::prelude::*;
use crate::errors::{ErrorModel, Fault, FaultModel, GenError};
use crate::model::{args_view, arg_type, can_get, can_set, varname, Arg, ArgModel, Intf, IntfModel, Method, MethodModel, Prop, PropModel};
use crate::names::{camel, make_camel, make_snake, snake};
use crate::sig::{sig_type, checked_type};
use crate::text::{lemma_grown, lemma_prefix_of_concat, same_text};

verus! {

/// Generated text, or why generation stopped.
pub type Emitted = Result<Seq<char>, FaultModel>;

/// `a` followed by `b`; the first of them that stops generation decides.
pub open spec fn cat(a: Emitted, b: Emitted) -> Emitted {
    match a {
        Ok(x) => match b {
            Ok(y) => Ok(x + y),
            Err(f) => Err(f),
        },
        Err(f) => Err(f),
    }
}

/// The texts of `f` for each item of `xs`, in order; the first item that stops
/// generation decides.
pub open spec fn emit_all<A>(xs: Seq<A>, f: spec_fn(A) -> Emitted) -> Emitted
    decreases xs.len(),
{
    if xs.len() == 0 {
        Ok(Seq::empty())
    } else {
        cat(emit_all(xs.drop_last(), f), f(xs.last()))
    }
}

/// `after` is `before` with the text of `e` appended and `r` reports success, or `r`
/// reports why `e` stops.
pub open spec fn appended(before: Seq<char>, after: Seq<char>, r: Result<(), Fault>, e: Emitted) -> bool {
    match e {
        Ok(t) => r matches Ok(_) && after == before + t,
        Err(f) => r matches Err(rf) && rf@ == f && before.is_prefix_of(after),
    }
}

/// The same, for the error type of the public writers.
pub open spec fn written(before: Seq<char>, after: Seq<char>, r: Result<(), GenError>, e: Emitted) -> bool {
    match e {
        Ok(t) => r matches Ok(_) && after == before + t,
        Err(FaultModel::Error(g)) => r matches Err(rg) && rg@ == g && before.is_prefix_of(after),
        Err(FaultModel::Unsupported(_)) => false,
    }
}

pub proof fn lemma_emit_all_step<A>(xs: Seq<A>, f: spec_fn(A) -> Emitted, i: int)
    requires
        0 <= i < xs.len(),
    ensures
        emit_all(xs.take(i + 1), f) == cat(emit_all(xs.take(i), f), f(xs[i])),
{
    assert(xs.take(i + 1).drop_last() =~= xs.take(i));
}

/// Once a prefix of the items stops generation, so do all the items.
pub proof fn lemma_emit_all_stops<A>(xs: Seq<A>, f: spec_fn(A) -> Emitted, i: int)
    requires
        0 <= i <= xs.len(),
        emit_all(xs.take(i), f) is Err,
    ensures
        emit_all(xs, f) == emit_all(xs.take(i), f),
    decreases xs.len(),
{
    if i < xs.len() {
        assert(xs.drop_last().take(i) =~= xs.take(i));
        lemma_emit_all_stops(xs.drop_last(), f, i);
    } else {
        assert(xs.take(i) =~= xs);
    }
}

/// All items' texts together succeed exactly when each item's text does.
pub proof fn lemma_emit_all_ok<A>(xs: Seq<A>, f: spec_fn(A) -> Emitted)
    ensures
        emit_all(xs, f) is Ok <==> forall|k: int| 0 <= k < xs.len() ==> #[trigger] f(xs[k]) is Ok,
    decreases xs.len(),
{
    if xs.len() > 0 {
        lemma_emit_all_ok(xs.drop_last(), f);
        if emit_all(xs, f) is Ok {
            assert forall|k: int| 0 <= k < xs.len() implies #[trigger] f(xs[k]) is Ok by {
                if k < xs.len() - 1 {
                    assert(xs.drop_last()[k] == xs[k]);
                }
            }
        }
        if forall|k: int| 0 <= k < xs.len() ==> #[trigger] f(xs[k]) is Ok {
            assert forall|k: int| 0 <= k < xs.drop_last().len() implies #[trigger] f(xs.drop_last()[k]) is Ok by {
                assert(xs.drop_last()[k] == xs[k]);
            }
            assert(f(xs[xs.len() - 1]) is Ok);
        }
    }
}

// ----- method declarations -----

/// An input parameter in a method's declaration: `, name: Type`.
pub open spec fn in_param(a: ArgModel) -> Emitted {
    cat(Ok(", "@ + varname(a) + ": "@), arg_type(a))
}

pub open spec fn in_param_fn() -> spec_fn(ArgModel) -> Emitted {
    |a: ArgModel| in_param(a)
}

/// A further output type in a method's result tuple: `, Type`.
pub open spec fn more_type(a: ArgModel) -> Emitted {
    cat(Ok(", "@), arg_type(a))
}

pub open spec fn more_type_fn() -> spec_fn(ArgModel) -> Emitted {
    |a: ArgModel| more_type(a)
}

/// The result type of a method's declaration: `()` for no output argument, the
/// output's type for one, a tuple of their types for more; wrapped in a `Result`.
#[verifier::opaque]
pub open spec fn ret_decl(os: Seq<ArgModel>) -> Emitted {
    if os.len() == 0 {
        Ok(") -> Result<(), ::dbus::Error>"@)
    } else if os.len() == 1 {
        cat(Ok(") -> Result<"@), cat(arg_type(os[0]), Ok(", ::dbus::Error>"@)))
    } else {
        cat(
            Ok(") -> Result<("@),
            cat(arg_type(os[0]), cat(emit_all(os.skip(1), more_type_fn()), Ok("), ::dbus::Error>"@))),
        )
    }
}

/// A method's declaration, without the terminating `;` or body.
#[verifier::opaque]
pub open spec fn method_decl(m: MethodModel) -> Emitted {
    cat(
        Ok("    fn "@ + snake(m.name) + "(&self"@),
        cat(emit_all(m.iargs, in_param_fn()), ret_decl(m.oargs)),
    )
}

fn emit_ret_decl(s: &mut String, os: &Vec<Arg>) -> (r: Result<(), Fault>)
    ensures
        appended(old(s)@, final(s)@, r, ret_decl(args_view(*os))),
{
    reveal(ret_decl);
    let ghost xs = args_view(*os);
    let ghost s0 = s@;
    let n = os.len();
    if n == 0 {
        s.append(") -> Result<(), ::dbus::Error>");
        return Ok(());
    }
    let t0 = match os[0].arg_type() {
        Ok(t) => t,
        Err(f) => return Err(f),
    };
    if n == 1 {
        s.append(") -> Result<");
        s.append(t0.as_str());
        s.append(", ::dbus::Error>");
        assert(s@ =~= s0 + (") -> Result<"@ + (t0@ + ", ::dbus::Error>"@)));
        return Ok(());
    }
    s.append(") -> Result<(");
    s.append(t0.as_str());
    let ghost s1 = s@;
    proof {
        assert(s1 =~= s0 + (") -> Result<("@ + t0@));
        lemma_prefix_of_concat(s0, ") -> Result<("@ + t0@);
    }
    let ghost rest = xs.skip(1);
    let mut j: usize = 1;
    while j < n
        invariant
            n == os.len(),
            n == xs.len(),
            xs == args_view(*os),
            rest == xs.skip(1),
            n >= 2,
            s0.is_prefix_of(s1),
            s0 == old(s)@,
            arg_type(xs[0]) == Ok::<Seq<char>, FaultModel>(t0@),
            1 <= j <= n,
            emit_all(rest.take(j - 1), more_type_fn()) matches Ok(t) && s@ == s1 + t,
        decreases n - j,
    {
        proof {
            lemma_emit_all_step(rest, more_type_fn(), j - 1);
        }
        let t = match os[j].arg_type() {
            Ok(t) => t,
            Err(f) => {
                proof {
                    reveal(ret_decl);
                    assert(rest[j - 1] == os@[j as int]@);
                    lemma_emit_all_stops(rest, more_type_fn(), j as int);
                    lemma_grown(s0, s1, emit_all(rest.take(j - 1), more_type_fn())->Ok_0, s@);
                }
                return Err(f);
            },
        };
        let ghost before = s@;
        s.append(", ");
        s.append(t.as_str());
        assert(s@ =~= before + (", "@ + t@));
        j = j + 1;
    }
    assert(rest.take(n - 1) =~= rest);
    s.append("), ::dbus::Error>");
    let ghost tr = emit_all(rest, more_type_fn())->Ok_0;
    assert(s@ =~= s0 + (") -> Result<("@ + (t0@ + (tr + "), ::dbus::Error>"@))));
    Ok(())
}

/// Appends a method's declaration (without `;` or body).
pub fn emit_method_decl(s: &mut String, m: &Method) -> (r: Result<(), Fault>)
    ensures
        appended(old(s)@, final(s)@, r, method_decl(m@)),
{
    reveal(method_decl);
    let ghost s0 = s@;
    let ghost xs = m@.iargs;
    s.append("    fn ");
    let name = make_snake(m.name.as_str());
    s.append(name.as_str());
    s.append("(&self");
    let ghost s1 = s@;
    assert(s1 =~= s0 + ("    fn "@ + snake(m.name@) + "(&self"@));
    proof {
        lemma_prefix_of_concat(s0, "    fn "@ + snake(m.name@) + "(&self"@);
    }
    let n = m.iargs.len();
    let mut i: usize = 0;
    while i < n
        invariant
            n == m.iargs.len(),
            n == xs.len(),
            xs == m@.iargs,
            i <= n,
            s0.is_prefix_of(s1),
            s0 == old(s)@,
            emit_all(xs.take(i as int), in_param_fn()) matches Ok(t) && s@ == s1 + t,
        decreases n - i,
    {
        proof {
            lemma_emit_all_step(xs, in_param_fn(), i as int);
        }
        let a = &m.iargs[i];
        let t = match a.arg_type() {
            Ok(t) => t,
            Err(f) => {
                proof {
                    reveal(method_decl);
                    lemma_emit_all_stops(xs, in_param_fn(), i + 1);
                    lemma_grown(s0, s1, emit_all(xs.take(i as int), in_param_fn())->Ok_0, s@);
                }
                return Err(f);
            },
        };
        let ghost before = s@;
        s.append(", ");
        let v = a.varname();
        s.append(v.as_str());
        s.append(": ");
        s.append(t.as_str());
        assert(s@ =~= before + ((", "@ + v@ + ": "@) + t@));
        i = i + 1;
    }
    assert(xs.take(n as int) =~= xs);
    let ghost s2 = s@;
    let rr = emit_ret_decl(s, &m.oargs);
    match rr {
        Ok(_) => {
            proof {
                let tp = emit_all(xs, in_param_fn())->Ok_0;
                let tr = ret_decl(m@.oargs)->Ok_0;
                assert(s@ =~= s0 + (("    fn "@ + snake(m.name@) + "(&self"@) + (tp + tr)));
            }
            Ok(())
        },
        Err(f) => Err(f),
    }
}

// ----- property declarations -----

/// A property's getter (`set` false) or setter (`set` true) declaration, without the
/// terminating `;` or body.
#[verifier::opaque]
pub open spec fn prop_decl(p: PropModel, set: bool) -> Emitted {
    match sig_type(p.typ, true) {
        Ok(t) => Ok(
            if set {
                "    fn set_"@ + snake(p.name) + "(&self, value: "@ + t
                    + ") -> Result<(), ::dbus::Error>"@
            } else {
                "    fn get_"@ + snake(p.name) + "(&self) -> Result<"@ + t + ", ::dbus::Error>"@
            },
        ),
        Err(f) => Err(f),
    }
}

/// Appends a property's getter or setter declaration.
pub fn emit_prop_decl(s: &mut String, p: &Prop, set: bool) -> (r: Result<(), Fault>)
    ensures
        appended(old(s)@, final(s)@, r, prop_decl(p@, set)),
        r is Err ==> final(s)@ == old(s)@,
{
    reveal(prop_decl);
    let ghost s0 = s@;
    let name = make_snake(p.name.as_str());
    let t = match checked_type(p.typ.as_str(), true) {
        Ok(t) => t,
        Err(f) => return Err(f),
    };
    if set {
        s.append("    fn set_");
        s.append(name.as_str());
        s.append("(&self, value: ");
        s.append(t.as_str());
        s.append(") -> Result<(), ::dbus::Error>");
    } else {
        s.append("    fn get_");
        s.append(name.as_str());
        s.append("(&self) -> Result<");
        s.append(t.as_str());
        s.append(", ::dbus::Error>");
    }
    assert(s@ =~= s0 + prop_decl(p@, set)->Ok_0);
    Ok(())
}

// ----- the trait of an interface -----

/// A method's declaration in the trait.
pub open spec fn method_item(m: MethodModel) -> Emitted {
    cat(method_decl(m), Ok(";\n"@))
}

pub open spec fn method_item_fn() -> spec_fn(MethodModel) -> Emitted {
    |m: MethodModel| method_item(m)
}

/// A property's declarations in the trait: its getter where it can be read, then its
/// setter where it can be written.
pub open spec fn prop_items(p: PropModel) -> Emitted {
    cat(
        if can_get(p) { cat(prop_decl(p, false), Ok(";\n"@)) } else { Ok(Seq::empty()) },
        if can_set(p) { cat(prop_decl(p, true), Ok(";\n"@)) } else { Ok(Seq::empty()) },
    )
}

pub open spec fn prop_items_fn() -> spec_fn(PropModel) -> Emitted {
    |p: PropModel| prop_items(p)
}

/// The trait of an interface: named after it in camel case, with a declaration for
/// each method and for each property's getter and setter.
#[verifier::opaque]
pub open spec fn intf_decl(i: IntfModel) -> Emitted {
    cat(
        Ok("\npub trait "@ + camel(i.name) + " {\n"@),
        cat(
            emit_all(i.methods, method_item_fn()),
            cat(emit_all(i.props, prop_items_fn()), Ok("}\n"@)),
        ),
    )
}

fn emit_prop_items(s: &mut String, p: &Prop) -> (r: Result<(), Fault>)
    ensures
        appended(old(s)@, final(s)@, r, prop_items(p@)),
{
    let ghost s0 = s@;
    if p.can_get() {
        match emit_prop_decl(s, p, false) {
            Ok(_) => {},
            Err(f) => return Err(f),
        }
        s.append(";\n");
    }
    let ghost s1 = s@;
    if p.can_set() {
        match emit_prop_decl(s, p, true) {
            Ok(_) => {},
            Err(f) => return Err(f),
        }
        s.append(";\n");
    }
    proof {
        let g = if can_get(p@) { prop_decl(p@, false)->Ok_0 + ";\n"@ } else { Seq::<char>::empty() };
        let h = if can_set(p@) { prop_decl(p@, true)->Ok_0 + ";\n"@ } else { Seq::<char>::empty() };
        assert(s1 =~= s0 + g);
        assert(s@ =~= s0 + (g + h));
    }
    Ok(())
}

/// Appends the trait of an interface.
pub fn emit_intf(s: &mut String, i: &Intf) -> (r: Result<(), Fault>)
    ensures
        appended(old(s)@, final(s)@, r, intf_decl(i@)),
{
    reveal(intf_decl);
    let ghost s0 = s@;
    let ghost ms = i@.methods;
    let ghost ps = i@.props;
    s.append("\npub trait ");
    let iname = make_camel(i.name.as_str());
    s.append(iname.as_str());
    s.append(" {\n");
    let ghost s1 = s@;
    assert(s1 =~= s0 + ("\npub trait "@ + camel(i.name@) + " {\n"@));
    proof {
        lemma_prefix_of_concat(s0, "\npub trait "@ + camel(i.name@) + " {\n"@);
    }
    let n = i.methods.len();
    let mut k: usize = 0;
    while k < n
        invariant
            n == i.methods.len(),
            n == ms.len(),
            ms == i@.methods,
            k <= n,
            s0.is_prefix_of(s1),
            s0 == old(s)@,
            emit_all(ms.take(k as int), method_item_fn()) matches Ok(t) && s@ == s1 + t,
        decreases n - k,
    {
        proof {
            lemma_emit_all_step(ms, method_item_fn(), k as int);
            assert(ms[k as int] == i.methods@[k as int]@);
        }
        let ghost before = s@;
        match emit_method_decl(s, &i.methods[k]) {
            Ok(_) => {},
            Err(f) => {
                proof {
                    reveal(intf_decl);
                    lemma_emit_all_stops(ms, method_item_fn(), k + 1);
                    lemma_grown(s0, s1, emit_all(ms.take(k as int), method_item_fn())->Ok_0, s@);
                }
                return Err(f);
            },
        }
        s.append(";\n");
        assert(s@ =~= before + (method_decl(ms[k as int])->Ok_0 + ";\n"@));
        k = k + 1;
    }
    assert(ms.take(n as int) =~= ms);
    let ghost s2 = s@;
    proof {
        lemma_grown(s0, s1, emit_all(ms, method_item_fn())->Ok_0, s2);
    }
    let np = i.props.len();
    let mut k: usize = 0;
    while k < np
        invariant
            np == i.props.len(),
            np == ps.len(),
            ps == i@.props,
            ms == i@.methods,
            emit_all(ms, method_item_fn()) is Ok,
            k <= np,
            s0.is_prefix_of(s2),
            s0 == old(s)@,
            emit_all(ps.take(k as int), prop_items_fn()) matches Ok(t) && s@ == s2 + t,
        decreases np - k,
    {
        proof {
            lemma_emit_all_step(ps, prop_items_fn(), k as int);
            assert(ps[k as int] == i.props@[k as int]@);
        }
        let ghost before = s@;
        match emit_prop_items(s, &i.props[k]) {
            Ok(_) => {},
            Err(f) => {
                proof {
                    reveal(intf_decl);
                    lemma_emit_all_stops(ps, prop_items_fn(), k + 1);
                    lemma_grown(s0, s2, emit_all(ps.take(k as int), prop_items_fn())->Ok_0, s@);
                }
                return Err(f);
            },
        }
        k = k + 1;
    }
    assert(ps.take(np as int) =~= ps);
    s.append("}\n");
    proof {
        let tm = emit_all(ms, method_item_fn())->Ok_0;
        let tp = emit_all(ps, prop_items_fn())->Ok_0;
        assert(s@ =~= s0 + (("\npub trait "@ + camel(i.name@) + " {\n"@) + (tm + (tp + "}\n"@))));
    }
    Ok(())
}

// ----- pieces that cannot fail -----

/// The texts of `f` for each item of `xs`, in order.
pub open spec fn concat_all<A>(xs: Seq<A>, f: spec_fn(A) -> Seq<char>) -> Seq<char>
    decreases xs.len(),
{
    if xs.len() == 0 {
        Seq::empty()
    } else {
        concat_all(xs.drop_last(), f) + f(xs.last())
    }
}

pub proof fn lemma_concat_all_step<A>(xs: Seq<A>, f: spec_fn(A) -> Seq<char>, i: int)
    requires
        0 <= i < xs.len(),
    ensures
        concat_all(xs.take(i + 1), f) == concat_all(xs.take(i), f) + f(xs[i]),
{
    assert(xs.take(i + 1).drop_last() =~= xs.take(i));
}

/// The Rust names of the arguments `args`, separated by `, `.
pub open spec fn varnames(args: Seq<ArgModel>) -> Seq<char> {
    crate::sig::join(args.map_values(|a: ArgModel| varname(a)), ", "@)
}

/// Appends the Rust names of the arguments `args`, separated by `, `.
fn push_varnames(s: &mut String, args: &Vec<Arg>)
    ensures
        final(s)@ == old(s)@ + varnames(args_view(*args)),
{
    let ghost s0 = s@;
    let ghost names = args_view(*args).map_values(|a: ArgModel| varname(a));
    let n = args.len();
    let mut k: usize = 0;
    while k < n
        invariant
            n == args.len(),
            names == args_view(*args).map_values(|a: ArgModel| varname(a)),
            names.len() == n,
            k <= n,
            s@ == s0 + crate::sig::join(names.take(k as int), ", "@),
        decreases n - k,
    {
        let ghost before = s@;
        if k != 0 {
            s.append(", ");
        }
        let v = args[k].varname();
        s.append(v.as_str());
        proof {
            assert(names[k as int] == v@);
            assert(names.take(k + 1).drop_last() =~= names.take(k as int));
            if k == 0 {
                assert(names.take(1) =~= seq![v@]);
            }
            assert(s@ =~= s0 + crate::sig::join(names.take(k + 1), ", "@));
        }
        k = k + 1;
    }
    assert(names.take(n as int) =~= names);
}

// ----- the client implementation of an interface -----

/// The line that appends an input argument to a method call.
pub open spec fn append_arg(a: ArgModel) -> Seq<char> {
    "            i.append("@ + varname(a) + ");\n"@
}

pub open spec fn append_arg_fn() -> spec_fn(ArgModel) -> Seq<char> {
    |a: ArgModel| append_arg(a)
}

/// The start of a client method's body: the call of the method, with its input arguments
/// appended to the message, and the check of the reply.
#[verifier::opaque]
pub open spec fn call_text(iname: Seq<char>, m: MethodModel) -> Seq<char> {
    " {\n"@ + "        let mut m = try!(self.method_call_with_args(&\""@ + iname + "\".into(), &\""@
        + m.name + "\".into(), |"@ + (if m.iargs.len() > 0 { "msg"@ } else { "_"@ }) + "| {\n"@
        + (if m.iargs.len() > 0 {
        "            let mut i = ::dbus::arg::IterAppend::new(msg);\n"@
    } else {
        Seq::empty()
    }) + concat_all(m.iargs, append_arg_fn()) + "        }));\n"@ + "        try!(m.as_result());\n"@
}

/// The line that reads an argument from a message.
pub open spec fn read_arg(a: ArgModel) -> Emitted {
    cat(Ok("        let "@ + varname(a) + ": "@), cat(arg_type(a), Ok(" = try!(i.read());\n"@)))
}

pub open spec fn read_arg_fn() -> spec_fn(ArgModel) -> Emitted {
    |a: ArgModel| read_arg(a)
}

/// The value a client method returns: its output argument, or a tuple of them.
pub open spec fn ret_value(os: Seq<ArgModel>) -> Seq<char> {
    if os.len() == 1 {
        "        Ok("@ + varname(os[0]) + ")\n"@
    } else {
        "        Ok(("@ + varnames(os) + "))\n"@
    }
}

/// The end of a client method's body: reading the output arguments from the reply and
/// returning them.
pub open spec fn client_reply(os: Seq<ArgModel>) -> Emitted {
    if os.len() == 0 {
        Ok("        Ok(())\n"@)
    } else {
        cat(
            Ok("        let mut i = m.iter_init();\n"@),
            cat(emit_all(os, read_arg_fn()), Ok(ret_value(os))),
        )
    }
}

/// A method of the client implementation.
#[verifier::opaque]
pub open spec fn client_method(iname: Seq<char>, m: MethodModel) -> Emitted {
    cat(
        Ok("\n"@),
        cat(method_decl(m), cat(Ok(call_text(iname, m)), cat(client_reply(m.oargs), Ok("    }\n"@)))),
    )
}

pub open spec fn client_method_fn(iname: Seq<char>) -> spec_fn(MethodModel) -> Emitted {
    |m: MethodModel| client_method(iname, m)
}

/// The body of a property getter in the client implementation.
#[verifier::opaque]
pub open spec fn getter_body(iname: Seq<char>, p: PropModel) -> Seq<char> {
    " {\n"@
        + "        let mut m = try!(self.method_call_with_args(&\"Org.Freedesktop.DBus.Properties\".into(), &\"Get\".into(), move |msg| {\n"@
        + "            let mut i = ::dbus::arg::IterAppend::new(msg);\n"@ + "            i.append(\""@
        + iname + "\");\n"@ + "            i.append(\""@ + p.name + "\");\n"@ + "        }));\n"@
        + "        Ok(try!(try!(m.as_result()).read1()))\n"@ + "    }\n"@
}

/// The body of a property setter in the client implementation.
#[verifier::opaque]
pub open spec fn setter_body(iname: Seq<char>, p: PropModel) -> Seq<char> {
    " {\n"@
        + "        let mut m = try!(self.method_call_with_args(&\"Org.Freedesktop.DBus.Properties\".into(), &\"Set\".into(), move |msg| {\n"@
        + "            let mut i = ::dbus::arg::IterAppend::new(msg);\n"@ + "            i.append(\""@
        + iname + "\");\n"@ + "            i.append(\""@ + p.name + "\");\n"@
        + "            i.append(value);\n"@ + "        }));\n"@ + "        m.as_result()\n"@ + "    }\n"@
}

/// A property getter of the client implementation, where the property can be read.
#[verifier::opaque]
pub open spec fn client_getter(iname: Seq<char>, p: PropModel) -> Emitted {
    if can_get(p) {
        cat(Ok("\n"@), cat(prop_decl(p, false), Ok(getter_body(iname, p))))
    } else {
        Ok(Seq::empty())
    }
}

pub open spec fn client_getter_fn(iname: Seq<char>) -> spec_fn(PropModel) -> Emitted {
    |p: PropModel| client_getter(iname, p)
}

/// A property setter of the client implementation, where the property can be written.
#[verifier::opaque]
pub open spec fn client_setter(iname: Seq<char>, p: PropModel) -> Emitted {
    if can_set(p) {
        cat(Ok("\n"@), cat(prop_decl(p, true), Ok(setter_body(iname, p))))
    } else {
        Ok(Seq::empty())
    }
}

pub open spec fn client_setter_fn(iname: Seq<char>) -> spec_fn(PropModel) -> Emitted {
    |p: PropModel| client_setter(iname, p)
}

/// The implementation of an interface's trait for a D-Bus connection path: its methods,
/// then the getters of the readable properties, then the setters of the writable ones.
#[verifier::opaque]
pub open spec fn intf_client(i: IntfModel) -> Emitted {
    cat(
        Ok(
            "\nimpl<'a, C: ::std::ops::Deref<Target=::dbus::Connection>> "@ + camel(i.name)
                + " for ::dbus::ConnPath<'a, C> {\n"@,
        ),
        cat(
            emit_all(i.methods, client_method_fn(i.name)),
            cat(
                emit_all(i.props, client_getter_fn(i.name)),
                cat(emit_all(i.props, client_setter_fn(i.name)), Ok("}\n"@)),
            ),
        ),
    )
}

fn push_call_text(s: &mut String, iname: &str, m: &Method)
    ensures
        final(s)@ == old(s)@ + call_text(iname@, m@),
{
    reveal(call_text);
    let ghost s0 = s@;
    let ghost xs = m@.iargs;
    let has_args = m.iargs.len() > 0;
    s.append(" {\n");
    s.append("        let mut m = try!(self.method_call_with_args(&\"");
    s.append(iname);
    s.append("\".into(), &\"");
    s.append(m.name.as_str());
    s.append("\".into(), |");
    s.append(if has_args { "msg" } else { "_" });
    s.append("| {\n");
    if has_args {
        s.append("            let mut i = ::dbus::arg::IterAppend::new(msg);\n");
    }
    let ghost s1 = s@;
    let n = m.iargs.len();
    let mut k: usize = 0;
    while k < n
        invariant
            n == m.iargs.len(),
            n == xs.len(),
            xs == m@.iargs,
            k <= n,
            s@ == s1 + concat_all(xs.take(k as int), append_arg_fn()),
        decreases n - k,
    {
        proof {
            lemma_concat_all_step(xs, append_arg_fn(), k as int);
            assert(xs[k as int] == m.iargs@[k as int]@);
        }
        let ghost before = s@;
        s.append("            i.append(");
        let v = m.iargs[k].varname();
        s.append(v.as_str());
        s.append(");\n");
        assert(s@ =~= before + append_arg(xs[k as int]));
        k = k + 1;
    }
    assert(xs.take(n as int) =~= xs);
    s.append("        }));\n");
    s.append("        try!(m.as_result());\n");
    assert(s@ =~= s0 + call_text(iname@, m@));
}

fn emit_client_reply(s: &mut String, os: &Vec<Arg>) -> (r: Result<(), Fault>)
    ensures
        appended(old(s)@, final(s)@, r, client_reply(args_view(*os))),
{
    let ghost s0 = s@;
    let ghost xs = args_view(*os);
    let n = os.len();
    if n == 0 {
        s.append("        Ok(())\n");
        return Ok(());
    }
    s.append("        let mut i = m.iter_init();\n");
    let ghost s1 = s@;
    proof {
        lemma_prefix_of_concat(s0, "        let mut i = m.iter_init();\n"@);
    }
    let mut k: usize = 0;
    while k < n
        invariant
            n == os.len(),
            n == xs.len(),
            n > 0,
            xs == args_view(*os),
            k <= n,
            s0.is_prefix_of(s1),
            s0 == old(s)@,
            emit_all(xs.take(k as int), read_arg_fn()) matches Ok(t) && s@ == s1 + t,
        decreases n - k,
    {
        proof {
            lemma_emit_all_step(xs, read_arg_fn(), k as int);
            assert(xs[k as int] == os@[k as int]@);
        }
        let t = match os[k].arg_type() {
            Ok(t) => t,
            Err(f) => {
                proof {
                    lemma_emit_all_stops(xs, read_arg_fn(), k + 1);
                    lemma_grown(s0, s1, emit_all(xs.take(k as int), read_arg_fn())->Ok_0, s@);
                }
                return Err(f);
            },
        };
        let ghost before = s@;
        s.append("        let ");
        let v = os[k].varname();
        s.append(v.as_str());
        s.append(": ");
        s.append(t.as_str());
        s.append(" = try!(i.read());\n");
        assert(s@ =~= before + (("        let "@ + v@ + ": "@) + (t@ + " = try!(i.read());\n"@)));
        k = k + 1;
    }
    assert(xs.take(n as int) =~= xs);
    let ghost s2 = s@;
    if n == 1 {
        s.append("        Ok(");
        let v = os[0].varname();
        s.append(v.as_str());
        s.append(")\n");
    } else {
        s.append("        Ok((");
        push_varnames(s, os);
        s.append("))\n");
    }
    assert(s@ =~= s2 + ret_value(xs));
    proof {
        let to = emit_all(xs, read_arg_fn())->Ok_0;
        assert(s@ =~= s0 + ("        let mut i = m.iter_init();\n"@ + (to + ret_value(xs))));
    }
    Ok(())
}

fn emit_client_method(s: &mut String, iname: &str, m: &Method) -> (r: Result<(), Fault>)
    ensures
        appended(old(s)@, final(s)@, r, client_method(iname@, m@)),
{
    reveal(client_method);
    let ghost s0 = s@;
    s.append("\n");
    match emit_method_decl(s, m) {
        Ok(_) => {},
        Err(f) => return Err(f),
    }
    let ghost s1 = s@;
    push_call_text(s, iname, m);
    let ghost s2 = s@;
    match emit_client_reply(s, &m.oargs) {
        Ok(_) => {},
        Err(f) => return Err(f),
    }
    s.append("    }\n");
    proof {
        let td = method_decl(m@)->Ok_0;
        let tr = client_reply(m@.oargs)->Ok_0;
        assert(s@ =~= s0 + ("\n"@ + (td + (call_text(iname@, m@) + (tr + "    }\n"@)))));
    }
    Ok(())
}

fn emit_client_getter(s: &mut String, iname: &str, p: &Prop) -> (r: Result<(), Fault>)
    ensures
        appended(old(s)@, final(s)@, r, client_getter(iname@, p@)),
{
    reveal(client_getter);
    reveal(getter_body);
    if !p.can_get() {
        assert(s@ =~= s@ + Seq::<char>::empty());
        return Ok(());
    }
    let ghost s0 = s@;
    s.append("\n");
    match emit_prop_decl(s, p, false) {
        Ok(_) => {},
        Err(f) => return Err(f),
    }
    let ghost s1 = s@;
    s.append(" {\n");
    s.append("        let mut m = try!(self.method_call_with_args(&\"Org.Freedesktop.DBus.Properties\".into(), &\"Get\".into(), move |msg| {\n");
    s.append("            let mut i = ::dbus::arg::IterAppend::new(msg);\n");
    s.append("            i.append(\"");
    s.append(iname);
    s.append("\");\n");
    s.append("            i.append(\"");
    s.append(p.name.as_str());
    s.append("\");\n");
    s.append("        }));\n");
    s.append("        Ok(try!(try!(m.as_result()).read1()))\n");
    s.append("    }\n");
    assert(s@ =~= s1 + getter_body(iname@, p@));
    proof {
        let td = prop_decl(p@, false)->Ok_0;
        assert(s@ =~= s0 + ("\n"@ + (td + getter_body(iname@, p@))));
    }
    Ok(())
}

fn emit_client_setter(s: &mut String, iname: &str, p: &Prop) -> (r: Result<(), Fault>)
    ensures
        appended(old(s)@, final(s)@, r, client_setter(iname@, p@)),
{
    reveal(client_setter);
    reveal(setter_body);
    if !p.can_set() {
        assert(s@ =~= s@ + Seq::<char>::empty());
        return Ok(());
    }
    let ghost s0 = s@;
    s.append("\n");
    match emit_prop_decl(s, p, true) {
        Ok(_) => {},
        Err(f) => return Err(f),
    }
    let ghost s1 = s@;
    s.append(" {\n");
    s.append("        let mut m = try!(self.method_call_with_args(&\"Org.Freedesktop.DBus.Properties\".into(), &\"Set\".into(), move |msg| {\n");
    s.append("            let mut i = ::dbus::arg::IterAppend::new(msg);\n");
    s.append("            i.append(\"");
    s.append(iname);
    s.append("\");\n");
    s.append("            i.append(\"");
    s.append(p.name.as_str());
    s.append("\");\n");
    s.append("            i.append(value);\n");
    s.append("        }));\n");
    s.append("        m.as_result()\n");
    s.append("    }\n");
    assert(s@ =~= s1 + setter_body(iname@, p@));
    proof {
        let td = prop_decl(p@, true)->Ok_0;
        assert(s@ =~= s0 + ("\n"@ + (td + setter_body(iname@, p@))));
    }
    Ok(())
}

fn emit_client_methods(s: &mut String, iname: &str, ms_exec: &Vec<Method>) -> (r: Result<(), Fault>)
    ensures
        appended(old(s)@, final(s)@, r, emit_all(ms_exec@.map_values(|m: Method| m@), client_method_fn(iname@))),
{
    let ghost s1 = s@;
    assert(s1.subrange(0, s1.len() as int) =~= s1);
    let ghost ms = ms_exec@.map_values(|m: Method| m@);
    let n = ms_exec.len();
    let mut k: usize = 0;
    while k < n
        invariant
            n == ms_exec.len(),
            n == ms.len(),
            ms == ms_exec@.map_values(|m: Method| m@),
            k <= n,
            s1 == old(s)@,
            s1.is_prefix_of(s1),
            emit_all(ms.take(k as int), client_method_fn(iname@)) matches Ok(t) && s@ == s1 + t,
        decreases n - k,
    {
        proof {
            lemma_emit_all_step(ms, client_method_fn(iname@), k as int);
            assert(ms[k as int] == ms_exec@[k as int]@);
        }
        match emit_client_method(s, iname, &ms_exec[k]) {
            Ok(_) => {},
            Err(f) => {
                proof {
                    lemma_emit_all_stops(ms, client_method_fn(iname@), k + 1);
                    lemma_grown(s1, s1, emit_all(ms.take(k as int), client_method_fn(iname@))->Ok_0, s@);
                }
                return Err(f);
            },
        }
        k = k + 1;
    }
    assert(ms.take(n as int) =~= ms);
    Ok(())
}

fn emit_client_props(s: &mut String, iname: &str, ps_exec: &Vec<Prop>, set: bool) -> (r: Result<(), Fault>)
    ensures
        appended(
            old(s)@,
            final(s)@,
            r,
            emit_all(
                ps_exec@.map_values(|p: Prop| p@),
                if set { client_setter_fn(iname@) } else { client_getter_fn(iname@) },
            ),
        ),
{
    let ghost s1 = s@;
    assert(s1.subrange(0, s1.len() as int) =~= s1);
    let ghost ps = ps_exec@.map_values(|p: Prop| p@);
    let ghost f = if set { client_setter_fn(iname@) } else { client_getter_fn(iname@) };
    let n = ps_exec.len();
    let mut k: usize = 0;
    while k < n
        invariant
            n == ps_exec.len(),
            n == ps.len(),
            ps == ps_exec@.map_values(|p: Prop| p@),
            f == (if set { client_setter_fn(iname@) } else { client_getter_fn(iname@) }),
            k <= n,
            s1 == old(s)@,
            s1.is_prefix_of(s1),
            emit_all(ps.take(k as int), f) matches Ok(t) && s@ == s1 + t,
        decreases n - k,
    {
        proof {
            lemma_emit_all_step(ps, f, k as int);
            assert(ps[k as int] == ps_exec@[k as int]@);
        }
        let rr = if set {
            emit_client_setter(s, iname, &ps_exec[k])
        } else {
            emit_client_getter(s, iname, &ps_exec[k])
        };
        match rr {
            Ok(_) => {},
            Err(e) => {
                proof {
                    lemma_emit_all_stops(ps, f, k + 1);
                    lemma_grown(s1, s1, emit_all(ps.take(k as int), f)->Ok_0, s@);
                }
                return Err(e);
            },
        }
        k = k + 1;
    }
    assert(ps.take(n as int) =~= ps);
    Ok(())
}

/// Appends the client implementation of an interface.
pub fn emit_intf_client(s: &mut String, i: &Intf) -> (r: Result<(), Fault>)
    ensures
        appended(old(s)@, final(s)@, r, intf_client(i@)),
{
    reveal(intf_client);
    let ghost s0 = s@;
    let iname = i.name.as_str();
    s.append("\nimpl<'a, C: ::std::ops::Deref<Target=::dbus::Connection>> ");
    let cname = make_camel(iname);
    s.append(cname.as_str());
    s.append(" for ::dbus::ConnPath<'a, C> {\n");
    let ghost hdr = "\nimpl<'a, C: ::std::ops::Deref<Target=::dbus::Connection>> "@ + camel(i.name@)
        + " for ::dbus::ConnPath<'a, C> {\n"@;
    assert(s@ =~= s0 + hdr);
    match emit_client_methods(s, iname, &i.methods) {
        Ok(_) => {},
        Err(f) => return Err(f),
    }
    match emit_client_props(s, iname, &i.props, false) {
        Ok(_) => {},
        Err(f) => return Err(f),
    }
    match emit_client_props(s, iname, &i.props, true) {
        Ok(_) => {},
        Err(f) => return Err(f),
    }
    s.append("}\n");
    proof {
        let tm = emit_all(i@.methods, client_method_fn(i.name@))->Ok_0;
        let tg = emit_all(i@.props, client_getter_fn(i.name@))->Ok_0;
        let ts = emit_all(i@.props, client_setter_fn(i.name@))->Ok_0;
        assert(s@ =~= s0 + (hdr + (tm + (tg + (ts + "}\n"@)))));
    }
    Ok(())
}

// ----- the server side of an interface -----

/// The head of the function that builds an interface for a D-Bus object tree, with
/// method type `mt`.
#[verifier::opaque]
pub open spec fn tree_header(i: IntfModel, mt: Seq<char>) -> Seq<char> {
    "\npub fn "@ + snake(i.name)
        + "_server<F, T, D>(factory: &::dbus::tree::Factory<::dbus::tree::"@ + mt
        + "<D>, D>, data: D::Interface, f: F) -> ::dbus::tree::Interface<::dbus::tree::"@ + mt
        + "<D>, D>\n"@ + "where D: ::dbus::tree::DataType, D::Method: Default, T: "@ + camel(i.name)
        + ", \n"@ + (if i.props.len() > 0 { "    D::Property: Default,"@ } else { Seq::empty() })
        + "    F: 'static + for <'z> Fn(& 'z ::dbus::tree::MethodInfo<::dbus::tree::"@ + mt
        + "<D>, D>) -> & 'z T {\n"@ + "    let i = factory.interface(\""@ + i.name + "\", data);\n"@
        + "    let f = ::std::sync::Arc::new(f);"@
}

/// The names that a method handler binds to the method's results.
pub open spec fn retargs(os: Seq<ArgModel>) -> Seq<char> {
    if os.len() == 0 {
        Seq::empty()
    } else if os.len() == 1 {
        "let "@ + varname(os[0]) + " = "@
    } else {
        "let ("@ + varnames(os) + ") = "@
    }
}

/// The line that appends a result to a method's reply.
pub open spec fn append1(a: ArgModel) -> Seq<char> {
    "        let rm = rm.append1("@ + varname(a) + ");\n"@
}

pub open spec fn append1_fn() -> spec_fn(ArgModel) -> Seq<char> {
    |a: ArgModel| append1(a)
}

/// The line that declares an input (`out` false) or output argument of a method.
pub open spec fn arg_info(a: ArgModel, out: bool) -> Seq<char> {
    (if out { "    let m = m.out_arg((\""@ } else { "    let m = m.in_arg((\""@ }) + a.name + "\", \""@
        + a.typ + "\"));\n"@
}

pub open spec fn arg_info_fn(out: bool) -> spec_fn(ArgModel) -> Seq<char> {
    |a: ArgModel| arg_info(a, out)
}

/// The start of a method's handler: the closure's head, and the iterator over the
/// call's arguments where it has any.
pub open spec fn handler_start(mt: Seq<char>, m: MethodModel) -> Seq<char> {
    "\n    let fclone = f.clone();\n"@
        + "    let h = move |minfo: &::dbus::tree::MethodInfo<::dbus::tree::"@ + mt + "<D>, D>| {\n"@
        + (if m.iargs.len() > 0 { "        let mut i = minfo.msg.iter_init();\n"@ } else { Seq::empty() })
}

/// The call of the trait's method in a method's handler, and the start of the reply.
#[verifier::opaque]
pub open spec fn handler_call(m: MethodModel) -> Seq<char> {
    "        let d = fclone(minfo);\n"@ + "        "@ + retargs(m.oargs) + "try!(d."@ + snake(m.name) + "("@
        + varnames(m.iargs) + "));\n"@ + "        let rm = minfo.msg.method_return();\n"@
}

/// The rest of a method's handler: the results appended to the reply, and the method's
/// registration with its arguments.
#[verifier::opaque]
pub open spec fn handler_register(m: MethodModel) -> Seq<char> {
    concat_all(m.oargs, append1_fn()) + "        Ok(vec!(rm))\n"@ + "    };\n"@
        + "    let m = factory.method(\""@ + m.name + "\", Default::default(), h);\n"@
        + concat_all(m.iargs, arg_info_fn(false)) + concat_all(m.oargs, arg_info_fn(true))
        + "    let i = i.add_m(m);\n"@
}

/// The end of a method's handler: the call of the trait's method, the reply, and the
/// registration of the method with its arguments.
pub open spec fn handler_end(m: MethodModel) -> Seq<char> {
    handler_call(m) + handler_register(m)
}

/// A method of the server side: its handler reads the input arguments from the call.
#[verifier::opaque]
pub open spec fn tree_method(mt: Seq<char>, m: MethodModel) -> Emitted {
    cat(Ok(handler_start(mt, m)), cat(emit_all(m.iargs, read_arg_fn()), Ok(handler_end(m))))
}

pub open spec fn tree_method_fn(mt: Seq<char>) -> spec_fn(MethodModel) -> Emitted {
    |m: MethodModel| tree_method(mt, m)
}

/// The `::dbus::tree::Access` variant for a property's access.
pub open spec fn access_variant(access: Seq<char>) -> Option<Seq<char>> {
    if access == "read"@ {
        Some("Read"@)
    } else if access == "readwrite"@ {
        Some("ReadWrite"@)
    } else if access == "write"@ {
        Some("Write"@)
    } else {
        None
    }
}

/// The callback that reads a property through the trait.
pub open spec fn get_callback(p: PropModel) -> Seq<char> {
    "    let fclone = f.clone();\n"@ + "    let p = p.on_get(move |a, pinfo| {\n"@
        + "        let minfo = pinfo.to_method_info();\n"@ + "        let d = fclone(&minfo);\n"@
        + "        a.append(try!(d.get_"@ + snake(p.name) + "()));\n"@ + "        Ok(())\n"@
        + "    });\n"@
}

/// The callback that writes a property through the trait.
pub open spec fn set_callback(p: PropModel) -> Seq<char> {
    "    let fclone = f.clone();\n"@ + "    let p = p.on_set(move |iter, pinfo| {\n"@
        + "        let minfo = pinfo.to_method_info();\n"@ + "        let d = fclone(&minfo);\n"@
        + "        try!(d.set_"@ + snake(p.name) + "(try!(iter.read())));\n"@ + "        Ok(())\n"@
        + "    });\n"@
}

/// A property of the server side, with its type in the borrowed form, its access, and
/// its callbacks.
#[verifier::opaque]
pub open spec fn tree_prop(p: PropModel) -> Emitted {
    match sig_type(p.typ, false) {
        Err(f) => Err(f),
        Ok(t) => match access_variant(p.access) {
            None => Err(FaultModel::Error(ErrorModel::UnexpectedAccess(p.access))),
            Some(a) => Ok(
                "\n    let p = factory.property::<"@ + t + ", _>(\""@ + p.name
                    + "\", Default::default());\n"@ + "    let p = p.access(::dbus::tree::Access::"@ + a
                    + ");\n"@ + (if can_get(p) { get_callback(p) } else { Seq::empty() }) + (if can_set(
                    p,
                ) {
                    set_callback(p)
                } else {
                    Seq::empty()
                }) + "    let i = i.add_p(p);\n"@,
            ),
        },
    }
}

pub open spec fn tree_prop_fn() -> spec_fn(PropModel) -> Emitted {
    |p: PropModel| tree_prop(p)
}

/// The function that builds an interface for a D-Bus object tree, with method type `mt`.
#[verifier::opaque]
pub open spec fn intf_tree(i: IntfModel, mt: Seq<char>) -> Emitted {
    cat(
        Ok(tree_header(i, mt)),
        cat(
            emit_all(i.methods, tree_method_fn(mt)),
            cat(emit_all(i.props, tree_prop_fn()), Ok("    i\n"@ + "}\n"@)),
        ),
    )
}

fn push_append1(s: &mut String, args: &Vec<Arg>)
    ensures
        final(s)@ == old(s)@ + concat_all(args_view(*args), append1_fn()),
{
    let ghost s0 = s@;
    let ghost xs = args_view(*args);
    let n = args.len();
    let mut k: usize = 0;
    while k < n
        invariant
            n == args.len(),
            n == xs.len(),
            xs == args_view(*args),
            k <= n,
            s@ == s0 + concat_all(xs.take(k as int), append1_fn()),
        decreases n - k,
    {
        proof {
            lemma_concat_all_step(xs, append1_fn(), k as int);
            assert(xs[k as int] == args@[k as int]@);
        }
        let ghost before = s@;
        s.append("        let rm = rm.append1(");
        let v = args[k].varname();
        s.append(v.as_str());
        s.append(");\n");
        assert(s@ =~= before + append1(xs[k as int]));
        k = k + 1;
    }
    assert(xs.take(n as int) =~= xs);
}

fn push_arg_info(s: &mut String, args: &Vec<Arg>, out: bool)
    ensures
        final(s)@ == old(s)@ + concat_all(args_view(*args), arg_info_fn(out)),
{
    let ghost s0 = s@;
    let ghost xs = args_view(*args);
    let n = args.len();
    let mut k: usize = 0;
    while k < n
        invariant
            n == args.len(),
            n == xs.len(),
            xs == args_view(*args),
            k <= n,
            s@ == s0 + concat_all(xs.take(k as int), arg_info_fn(out)),
        decreases n - k,
    {
        proof {
            lemma_concat_all_step(xs, arg_info_fn(out), k as int);
            assert(xs[k as int] == args@[k as int]@);
        }
        let ghost before = s@;
        s.append(if out { "    let m = m.out_arg((\"" } else { "    let m = m.in_arg((\"" });
        s.append(args[k].name.as_str());
        s.append("\", \"");
        s.append(args[k].typ.as_str());
        s.append("\"));\n");
        assert(s@ =~= before + arg_info(xs[k as int], out));
        k = k + 1;
    }
    assert(xs.take(n as int) =~= xs);
}

fn push_handler_call(s: &mut String, m: &Method)
    ensures
        final(s)@ == old(s)@ + handler_call(m@),
{
    reveal(handler_call);
    broadcast use crate::text::lemma_concat_assoc;

    let ghost s0 = s@;
    s.append("        let d = fclone(minfo);\n");
    s.append("        ");
    let no = m.oargs.len();
    if no == 1 {
        s.append("let ");
        let v = m.oargs[0].varname();
        s.append(v.as_str());
        s.append(" = ");
    } else if no > 1 {
        s.append("let (");
        push_varnames(s, &m.oargs);
        s.append(") = ");
    }
    let ghost s1 = s@;
    assert(s1 == s0 + ("        let d = fclone(minfo);\n"@ + "        "@ + retargs(m@.oargs)));
    s.append("try!(d.");
    let name = make_snake(m.name.as_str());
    s.append(name.as_str());
    s.append("(");
    push_varnames(s, &m.iargs);
    s.append("));\n");
    s.append("        let rm = minfo.msg.method_return();\n");
}

fn push_handler_register(s: &mut String, m: &Method)
    ensures
        final(s)@ == old(s)@ + handler_register(m@),
{
    reveal(handler_register);
    broadcast use crate::text::lemma_concat_assoc;

    push_append1(s, &m.oargs);
    s.append("        Ok(vec!(rm))\n");
    s.append("    };\n");
    s.append("    let m = factory.method(\"");
    s.append(m.name.as_str());
    s.append("\", Default::default(), h);\n");
    push_arg_info(s, &m.iargs, false);
    push_arg_info(s, &m.oargs, true);
    s.append("    let i = i.add_m(m);\n");
}

fn push_handler_end(s: &mut String, m: &Method)
    ensures
        final(s)@ == old(s)@ + handler_end(m@),
{
    broadcast use crate::text::lemma_concat_assoc;

    push_handler_call(s, m);
    push_handler_register(s, m);
}

fn emit_tree_method(s: &mut String, mt: &str, m: &Method) -> (r: Result<(), Fault>)
    ensures
        appended(old(s)@, final(s)@, r, tree_method(mt@, m@)),
{
    reveal(tree_method);
    let ghost s0 = s@;
    let ghost xs = m@.iargs;
    s.append("\n    let fclone = f.clone();\n");
    s.append("    let h = move |minfo: &::dbus::tree::MethodInfo<::dbus::tree::");
    s.append(mt);
    s.append("<D>, D>| {\n");
    if m.iargs.len() > 0 {
        s.append("        let mut i = minfo.msg.iter_init();\n");
    }
    let ghost s1 = s@;
    assert(s1 =~= s0 + handler_start(mt@, m@));
    proof {
        lemma_prefix_of_concat(s0, handler_start(mt@, m@));
    }
    let n = m.iargs.len();
    let mut k: usize = 0;
    while k < n
        invariant
            n == m.iargs.len(),
            n == xs.len(),
            xs == m@.iargs,
            k <= n,
            s0.is_prefix_of(s1),
            s0 == old(s)@,
            emit_all(xs.take(k as int), read_arg_fn()) matches Ok(t) && s@ == s1 + t,
        decreases n - k,
    {
        proof {
            lemma_emit_all_step(xs, read_arg_fn(), k as int);
            assert(xs[k as int] == m.iargs@[k as int]@);
        }
        let t = match m.iargs[k].arg_type() {
            Ok(t) => t,
            Err(f) => {
                proof {
                    reveal(tree_method);
                    lemma_emit_all_stops(xs, read_arg_fn(), k + 1);
                    lemma_grown(s0, s1, emit_all(xs.take(k as int), read_arg_fn())->Ok_0, s@);
                }
                return Err(f);
            },
        };
        let ghost before = s@;
        s.append("        let ");
        let v = m.iargs[k].varname();
        s.append(v.as_str());
        s.append(": ");
        s.append(t.as_str());
        s.append(" = try!(i.read());\n");
        assert(s@ =~= before + (("        let "@ + v@ + ": "@) + (t@ + " = try!(i.read());\n"@)));
        k = k + 1;
    }
    assert(xs.take(n as int) =~= xs);
    let ghost s2 = s@;
    push_handler_end(s, m);
    proof {
        let tr = emit_all(xs, read_arg_fn())->Ok_0;
        assert(s@ =~= s0 + (handler_start(mt@, m@) + (tr + handler_end(m@))));
    }
    Ok(())
}

fn push_get_callback(s: &mut String, p: &Prop)
    ensures
        final(s)@ == old(s)@ + get_callback(p@),
{
    let ghost s0 = s@;
    s.append("    let fclone = f.clone();\n");
    s.append("    let p = p.on_get(move |a, pinfo| {\n");
    s.append("        let minfo = pinfo.to_method_info();\n");
    s.append("        let d = fclone(&minfo);\n");
    s.append("        a.append(try!(d.get_");
    let name = make_snake(p.name.as_str());
    s.append(name.as_str());
    s.append("()));\n");
    s.append("        Ok(())\n");
    s.append("    });\n");
    assert(s@ =~= s0 + get_callback(p@));
}

fn push_set_callback(s: &mut String, p: &Prop)
    ensures
        final(s)@ == old(s)@ + set_callback(p@),
{
    let ghost s0 = s@;
    s.append("    let fclone = f.clone();\n");
    s.append("    let p = p.on_set(move |iter, pinfo| {\n");
    s.append("        let minfo = pinfo.to_method_info();\n");
    s.append("        let d = fclone(&minfo);\n");
    s.append("        try!(d.set_");
    let name = make_snake(p.name.as_str());
    s.append(name.as_str());
    s.append("(try!(iter.read())));\n");
    s.append("        Ok(())\n");
    s.append("    });\n");
    assert(s@ =~= s0 + set_callback(p@));
}

fn access_variant_exec(acc: &str) -> (r: Option<&'static str>)
    ensures
        match access_variant(acc@) {
            Some(a) => r matches Some(ra) && ra@ == a,
            None => r is None,
        },
{
    if same_text(acc, "read") {
        Some("Read")
    } else if same_text(acc, "readwrite") {
        Some("ReadWrite")
    } else if same_text(acc, "write") {
        Some("Write")
    } else {
        None
    }
}

fn emit_tree_prop(s: &mut String, p: &Prop) -> (r: Result<(), Fault>)
    ensures
        appended(old(s)@, final(s)@, r, tree_prop(p@)),
{
    reveal(tree_prop);
    let ghost s0 = s@;
    let t = match checked_type(p.typ.as_str(), false) {
        Ok(t) => t,
        Err(f) => return Err(f),
    };
    s.append("\n    let p = factory.property::<");
    s.append(t.as_str());
    s.append(", _>(\"");
    s.append(p.name.as_str());
    s.append("\", Default::default());\n");
    let a = match access_variant_exec(p.access.as_str()) {
        Some(a) => a,
        None => {
            proof {
                lemma_prefix_of_concat(s0, s@.subrange(s0.len() as int, s@.len() as int));
                assert(s0 + s@.subrange(s0.len() as int, s@.len() as int) =~= s@);
            }
            return Err(Fault::Error(GenError::UnexpectedAccess(p.access.clone())));
        },
    };
    s.append("    let p = p.access(::dbus::tree::Access::");
    s.append(a);
    s.append(");\n");
    let ghost s1 = s@;
    let ghost head = "\n    let p = factory.property::<"@ + t@ + ", _>(\""@ + p.name@
        + "\", Default::default());\n"@ + "    let p = p.access(::dbus::tree::Access::"@ + a@ + ");\n"@;
    assert(s1 =~= s0 + head);
    if p.can_get() {
        push_get_callback(s, p);
    }
    let ghost g = if can_get(p@) { get_callback(p@) } else { Seq::empty() };
    let ghost s2 = s@;
    assert(s2 =~= s1 + g);
    if p.can_set() {
        push_set_callback(s, p);
    }
    let ghost h = if can_set(p@) { set_callback(p@) } else { Seq::empty() };
    let ghost s3 = s@;
    assert(s3 =~= s2 + h);
    s.append("    let i = i.add_p(p);\n");
    assert(s@ =~= s0 + (head + g + h + "    let i = i.add_p(p);\n"@));
    Ok(())
}

fn push_tree_header(s: &mut String, i: &Intf, mt: &str)
    ensures
        final(s)@ == old(s)@ + tree_header(i@, mt@),
{
    reveal(tree_header);
    broadcast use crate::text::lemma_concat_assoc;

    let ghost s0 = s@;
    s.append("\npub fn ");
    let sname = make_snake(i.name.as_str());
    s.append(sname.as_str());
    s.append("_server<F, T, D>(factory: &::dbus::tree::Factory<::dbus::tree::");
    s.append(mt);
    s.append("<D>, D>, data: D::Interface, f: F) -> ::dbus::tree::Interface<::dbus::tree::");
    s.append(mt);
    s.append("<D>, D>\n");
    let ghost a = "\npub fn "@ + snake(i.name@)
        + "_server<F, T, D>(factory: &::dbus::tree::Factory<::dbus::tree::"@ + mt@
        + "<D>, D>, data: D::Interface, f: F) -> ::dbus::tree::Interface<::dbus::tree::"@ + mt@
        + "<D>, D>\n"@;
    assert(s@ =~= s0 + a);
    let ghost s1 = s@;
    s.append("where D: ::dbus::tree::DataType, D::Method: Default, T: ");
    let cname = make_camel(i.name.as_str());
    s.append(cname.as_str());
    s.append(", \n");
    if i.props.len() > 0 {
        s.append("    D::Property: Default,");
    }
    let ghost b = "where D: ::dbus::tree::DataType, D::Method: Default, T: "@ + camel(i.name@)
        + ", \n"@ + (if i@.props.len() > 0 { "    D::Property: Default,"@ } else { Seq::empty() });
    assert(s@ =~= s1 + b);
    let ghost s2 = s@;
    s.append("    F: 'static + for <'z> Fn(& 'z ::dbus::tree::MethodInfo<::dbus::tree::");
    s.append(mt);
    s.append("<D>, D>) -> & 'z T {\n");
    s.append("    let i = factory.interface(\"");
    s.append(i.name.as_str());
    s.append("\", data);\n");
    s.append("    let f = ::std::sync::Arc::new(f);");
    let ghost c = "    F: 'static + for <'z> Fn(& 'z ::dbus::tree::MethodInfo<::dbus::tree::"@ + mt@
        + "<D>, D>) -> & 'z T {\n"@ + "    let i = factory.interface(\""@ + i.name@ + "\", data);\n"@
        + "    let f = ::std::sync::Arc::new(f);"@;
    assert(s@ =~= s2 + c);
    assert(tree_header(i@, mt@) =~= a + b + c);
    assert(s@ =~= s0 + tree_header(i@, mt@));
}

fn emit_tree_methods(s: &mut String, mt: &str, ms_exec: &Vec<Method>) -> (r: Result<(), Fault>)
    ensures
        appended(old(s)@, final(s)@, r, emit_all(ms_exec@.map_values(|m: Method| m@), tree_method_fn(mt@))),
{
    let ghost s1 = s@;
    assert(s1.subrange(0, s1.len() as int) =~= s1);
    let ghost ms = ms_exec@.map_values(|m: Method| m@);
    let n = ms_exec.len();
    let mut k: usize = 0;
    while k < n
        invariant
            n == ms_exec.len(),
            n == ms.len(),
            ms == ms_exec@.map_values(|m: Method| m@),
            k <= n,
            s1 == old(s)@,
            s1.is_prefix_of(s1),
            emit_all(ms.take(k as int), tree_method_fn(mt@)) matches Ok(t) && s@ == s1 + t,
        decreases n - k,
    {
        proof {
            lemma_emit_all_step(ms, tree_method_fn(mt@), k as int);
            assert(ms[k as int] == ms_exec@[k as int]@);
        }
        match emit_tree_method(s, mt, &ms_exec[k]) {
            Ok(_) => {},
            Err(f) => {
                proof {
                    lemma_emit_all_stops(ms, tree_method_fn(mt@), k + 1);
                    lemma_grown(s1, s1, emit_all(ms.take(k as int), tree_method_fn(mt@))->Ok_0, s@);
                }
                return Err(f);
            },
        }
        k = k + 1;
    }
    assert(ms.take(n as int) =~= ms);
    Ok(())
}

fn emit_tree_props(s: &mut String, ps_exec: &Vec<Prop>) -> (r: Result<(), Fault>)
    ensures
        appended(old(s)@, final(s)@, r, emit_all(ps_exec@.map_values(|p: Prop| p@), tree_prop_fn())),
{
    let ghost s1 = s@;
    assert(s1.subrange(0, s1.len() as int) =~= s1);
    let ghost ps = ps_exec@.map_values(|p: Prop| p@);
    let n = ps_exec.len();
    let mut k: usize = 0;
    while k < n
        invariant
            n == ps_exec.len(),
            n == ps.len(),
            ps == ps_exec@.map_values(|p: Prop| p@),
            k <= n,
            s1 == old(s)@,
            s1.is_prefix_of(s1),
            emit_all(ps.take(k as int), tree_prop_fn()) matches Ok(t) && s@ == s1 + t,
        decreases n - k,
    {
        proof {
            lemma_emit_all_step(ps, tree_prop_fn(), k as int);
            assert(ps[k as int] == ps_exec@[k as int]@);
        }
        match emit_tree_prop(s, &ps_exec[k]) {
            Ok(_) => {},
            Err(f) => {
                proof {
                    lemma_emit_all_stops(ps, tree_prop_fn(), k + 1);
                    lemma_grown(s1, s1, emit_all(ps.take(k as int), tree_prop_fn())->Ok_0, s@);
                }
                return Err(f);
            },
        }
        k = k + 1;
    }
    assert(ps.take(n as int) =~= ps);
    Ok(())
}

/// Appends the function that builds an interface for a D-Bus object tree.
pub fn emit_intf_tree(s: &mut String, i: &Intf, mt: &str) -> (r: Result<(), Fault>)
    ensures
        appended(old(s)@, final(s)@, r, intf_tree(i@, mt@)),
{
    reveal(intf_tree);
    let ghost s0 = s@;
    push_tree_header(s, i, mt);
    match emit_tree_methods(s, mt, &i.methods) {
        Ok(_) => {},
        Err(f) => return Err(f),
    }
    match emit_tree_props(s, &i.props) {
        Ok(_) => {},
        Err(f) => return Err(f),
    }
    s.append("    i\n");
    s.append("}\n");
    proof {
        let tm = emit_all(i@.methods, tree_method_fn(mt@))->Ok_0;
        let tp = emit_all(i@.props, tree_prop_fn())->Ok_0;
        assert(s@ =~= s0 + (tree_header(i@, mt@) + (tm + (tp + ("    i\n"@ + "}\n"@)))));
    }
    Ok(())
}

// ----- the writers, for inputs on which no type code lacks a Rust type -----

/// Appends a method's declaration (without `;` or body).
pub fn write_method_decl(s: &mut String, m: &Method) -> (r: Result<(), GenError>)
    requires
        !(method_decl(m@) matches Err(FaultModel::Unsupported(_))),
    ensures
        written(old(s)@, final(s)@, r, method_decl(m@)),
{
    match emit_method_decl(s, m) {
        Ok(_) => Ok(()),
        Err(Fault::Error(e)) => Err(e),
        Err(Fault::Unsupported(_)) => {
            assert(false);
            Ok(())
        },
    }
}

/// Appends a property's getter (`set` false) or setter declaration.
pub fn write_prop_decl(s: &mut String, p: &Prop, set: bool) -> (r: Result<(), GenError>)
    requires
        !(prop_decl(p@, set) matches Err(FaultModel::Unsupported(_))),
    ensures
        written(old(s)@, final(s)@, r, prop_decl(p@, set)),
        r is Err ==> final(s)@ == old(s)@,
{
    match emit_prop_decl(s, p, set) {
        Ok(_) => Ok(()),
        Err(Fault::Error(e)) => Err(e),
        Err(Fault::Unsupported(_)) => {
            assert(false);
            Ok(())
        },
    }
}

/// Appends the trait of an interface.
pub fn write_intf(s: &mut String, i: &Intf) -> (r: Result<(), GenError>)
    requires
        !(intf_decl(i@) matches Err(FaultModel::Unsupported(_))),
    ensures
        written(old(s)@, final(s)@, r, intf_decl(i@)),
{
    match emit_intf(s, i) {
        Ok(_) => Ok(()),
        Err(Fault::Error(e)) => Err(e),
        Err(Fault::Unsupported(_)) => {
            assert(false);
            Ok(())
        },
    }
}

/// Appends the client implementation of an interface.
pub fn write_intf_client(s: &mut String, i: &Intf) -> (r: Result<(), GenError>)
    requires
        !(intf_client(i@) matches Err(FaultModel::Unsupported(_))),
    ensures
        written(old(s)@, final(s)@, r, intf_client(i@)),
{
    match emit_intf_client(s, i) {
        Ok(_) => Ok(()),
        Err(Fault::Error(e)) => Err(e),
        Err(Fault::Unsupported(_)) => {
            assert(false);
            Ok(())
        },
    }
}

/// Appends the function that builds an interface for a D-Bus object tree, with method type
/// `mtype`.
pub fn write_intf_tree(s: &mut String, i: &Intf, mtype: &str) -> (r: Result<(), GenError>)
    requires
        !(intf_tree(i@, mtype@) matches Err(FaultModel::Unsupported(_))),
    ensures
        written(old(s)@, final(s)@, r, intf_tree(i@, mtype@)),
{
    match emit_intf_tree(s, i, mtype) {
        Ok(_) => Ok(()),
        Err(Fault::Error(e)) => Err(e),
        Err(Fault::Unsupported(_)) => {
            assert(false);
            Ok(())
        },
    }
}

} // verus!
