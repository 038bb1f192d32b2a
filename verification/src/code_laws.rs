use vstd::prelude::*;
use crate::emit::{
    append_arg_fn, call_text, cat, client_method, client_method_fn, concat_all, emit_all, get_callback,
    handler_call, handler_register, intf_client, intf_decl, intf_tree, prop_decl, prop_items, prop_items_fn,
    set_callback, tree_method, tree_method_fn, tree_prop, tree_prop_fn, varnames, Emitted,
};
use crate::errors::FaultModel;
use crate::model::{arg_type, varname, ArgModel, IntfModel, MethodModel, PropModel};
use crate::names::snake;
use crate::sig::{join, parse_fields, parse_sig, sig_type};

verus! {

// ----- type signatures -----

pub open spec fn moved(r: Result<(Seq<char>, int), FaultModel>, d: int) -> Result<(Seq<char>, int), FaultModel> {
    match r {
        Ok((t, q)) => Ok((t, q + d)),
        Err(f) => Err(f),
    }
}

pub open spec fn fields_moved(r: Result<(Seq<Seq<char>>, int), FaultModel>, d: int) -> Result<(Seq<Seq<char>>, int), FaultModel> {
    match r {
        Ok((ts, q)) => Ok((ts, q + d)),
        Err(f) => Err(f),
    }
}

/// Reading a type moves forward, and not past the end.
proof fn lemma_parse_progress(t: Seq<char>, p: int, out: bool)
    ensures
        parse_sig(t, p, out) matches Ok((_, q)) ==> p < q <= t.len(),
    decreases t.len() - p, 0int,
{
    if 0 <= p < t.len() {
        if t[p] == 'a' {
            if p + 1 < t.len() && t[p + 1] == '{' {
                lemma_parse_progress(t, p + 2, out);
                if let Ok((_, q)) = parse_sig(t, p + 2, out) {
                    if p < q <= t.len() {
                        lemma_parse_progress(t, q, out);
                    }
                }
            } else {
                lemma_parse_progress(t, p + 1, out);
            }
        } else if t[p] == '(' {
            lemma_fields_progress(t, p + 1, out);
        }
    }
}

proof fn lemma_fields_progress(t: Seq<char>, p: int, out: bool)
    ensures
        parse_fields(t, p, out) matches Ok((_, q)) ==> p < q <= t.len(),
    decreases t.len() - p, 1int,
{
    if !(0 <= p < t.len() && t[p] == ')') {
        lemma_parse_progress(t, p, out);
        if let Ok((_, q)) = parse_sig(t, p, out) {
            if p < q <= t.len() {
                lemma_fields_progress(t, q, out);
            }
        }
    }
}

/// Reading a type does not look at what comes before it.
proof fn lemma_parse_moved(x: Seq<char>, t: Seq<char>, p: int, out: bool)
    requires
        0 <= p,
    ensures
        parse_sig(x + t, x.len() + p, out) == moved(parse_sig(t, p, out), x.len() as int),
    decreases t.len() - p, 0int,
{
    let s = x + t;
    let d = x.len() as int;
    if p < t.len() {
        assert(s[d + p] == t[p]);
        let c = t[p];
        if c == 'a' {
            if p + 1 < t.len() && t[p + 1] == '{' {
                assert(s[d + p + 1] == t[p + 1]);
                lemma_parse_moved(x, t, p + 2, out);
                if let Ok((k, q)) = parse_sig(t, p + 2, out) {
                    if p < q <= t.len() {
                        lemma_parse_moved(x, t, q, out);
                        lemma_parse_progress(t, q, out);
                        if let Ok((v, r)) = parse_sig(t, q, out) {
                            if 0 <= r < t.len() {
                                assert(s[d + r] == t[r]);
                            }
                        }
                    }
                }
            } else {
                if p + 1 < t.len() {
                    assert(s[d + p + 1] == t[p + 1]);
                }
                lemma_parse_moved(x, t, p + 1, out);
            }
            assert(parse_sig(s, d + p, out) == moved(parse_sig(t, p, out), d));
        } else if c == '(' {
            lemma_fields_moved(x, t, p + 1, out);
            assert(parse_sig(s, d + p, out) == moved(parse_sig(t, p, out), d));
        } else {
            assert(parse_sig(s, d + p, out) == moved(parse_sig(t, p, out), d));
        }
    }
}

proof fn lemma_fields_moved(x: Seq<char>, t: Seq<char>, p: int, out: bool)
    requires
        0 <= p,
    ensures
        parse_fields(x + t, x.len() + p, out) == fields_moved(parse_fields(t, p, out), x.len() as int),
    decreases t.len() - p, 1int,
{
    let s = x + t;
    let d = x.len() as int;
    if p < t.len() {
        assert(s[d + p] == t[p]);
    }
    if !(0 <= p < t.len() && t[p] == ')') {
        lemma_parse_moved(x, t, p, out);
        if let Ok((e, q)) = parse_sig(t, p, out) {
            if p < q <= t.len() {
                lemma_fields_moved(x, t, q, out);
            }
        }
    }
}

/// The Rust type of an array of a type `t` (not a dict entry) is `Vec<..>` of the Rust type
/// of `t` in the same form, owned or borrowed; the array fails where `t` fails, for the
/// same reason.
pub proof fn array_type(t: Seq<char>, out: bool)
    requires
        t.len() == 0 || t[0] != '{',
    ensures
        sig_type(seq!['a'] + t, out) == match sig_type(t, out) {
            Ok(r) => Ok::<Seq<char>, FaultModel>("Vec<"@ + r + ">"@),
            Err(f) => Err(f),
        },
{
    let s = seq!['a'] + t;
    assert(s[0] == 'a');
    if t.len() > 0 {
        assert(s[1] == t[0]);
    }
    lemma_parse_moved(seq!['a'], t, 0, out);
}

/// What follows a type that was read completely does not change how it was read.
proof fn lemma_parse_extended(t: Seq<char>, x: Seq<char>, p: int, out: bool)
    requires
        parse_sig(t, p, out) is Ok,
    ensures
        parse_sig(t + x, p, out) == parse_sig(t, p, out),
    decreases t.len() - p, 0int,
{
    let s = t + x;
    lemma_parse_progress(t, p, out);
    assert(s[p] == t[p]);
    let c = t[p];
    if c == 'a' {
        if p + 1 < t.len() && t[p + 1] == '{' {
            assert(s[p + 1] == t[p + 1]);
            lemma_parse_extended(t, x, p + 2, out);
            if let Ok((k, q)) = parse_sig(t, p + 2, out) {
                lemma_parse_progress(t, p + 2, out);
                lemma_parse_extended(t, x, q, out);
                lemma_parse_progress(t, q, out);
                if let Ok((v, r)) = parse_sig(t, q, out) {
                    assert(s[r] == t[r]);
                }
            }
        } else {
            if p + 1 < t.len() {
                assert(s[p + 1] == t[p + 1]);
            }
            lemma_parse_extended(t, x, p + 1, out);
        }
    } else if c == '(' {
        lemma_fields_extended(t, x, p + 1, out);
    }
}

proof fn lemma_fields_extended(t: Seq<char>, x: Seq<char>, p: int, out: bool)
    requires
        parse_fields(t, p, out) is Ok,
    ensures
        parse_fields(t + x, p, out) == parse_fields(t, p, out),
    decreases t.len() - p, 1int,
{
    let s = t + x;
    if 0 <= p < t.len() {
        assert(s[p] == t[p]);
    }
    if !(0 <= p < t.len() && t[p] == ')') {
        lemma_parse_progress(t, p, out);
        if p >= t.len() || p < 0 {
            assert(parse_sig(t, p, out) is Err);
        }
        lemma_parse_extended(t, x, p, out);
        if let Ok((e, q)) = parse_sig(t, p, out) {
            lemma_fields_extended(t, x, q, out);
        }
    }
}

/// The Rust type of a dict of a key type `k` and a value type `v` is a `HashMap` of their
/// Rust types in the same form, owned or borrowed.
pub proof fn dict_type(k: Seq<char>, v: Seq<char>, out: bool)
    requires
        sig_type(k, out) is Ok,
        sig_type(v, out) is Ok,
    ensures
        sig_type(seq!['a', '{'] + k + v + seq!['}'], out) == Ok::<Seq<char>, FaultModel>(
            "::std::collections::HashMap<"@ + sig_type(k, out)->Ok_0 + ", "@ + sig_type(v, out)->Ok_0 + ">"@,
        ),
{
    let s = seq!['a', '{'] + k + v + seq!['}'];
    let rest = v + seq!['}'];
    assert(s =~= seq!['a', '{'] + (k + rest));
    assert(s[0] == 'a');
    assert(s[1] == '{');
    lemma_parse_progress(k, 0, out);
    lemma_parse_extended(k, rest, 0, out);
    lemma_parse_moved(seq!['a', '{'], k + rest, 0, out);
    assert(s =~= (seq!['a', '{'] + k) + rest);
    lemma_parse_progress(v, 0, out);
    lemma_parse_extended(v, seq!['}'], 0, out);
    assert(rest =~= v + seq!['}']);
    lemma_parse_moved(seq!['a', '{'] + k, rest, 0, out);
    let d: int = (2 + k.len() + v.len()) as int;
    assert(s[d] == '}');
}

/// Signatures one after the other.
pub open spec fn glued(sigs: Seq<Seq<char>>) -> Seq<char>
    decreases sigs.len(),
{
    if sigs.len() == 0 {
        Seq::empty()
    } else {
        sigs[0] + glued(sigs.drop_first())
    }
}

pub open spec fn all_typed(sigs: Seq<Seq<char>>, out: bool) -> bool {
    forall|k: int| 0 <= k < sigs.len() ==> #[trigger] sig_type(sigs[k], out) is Ok
}

pub open spec fn rust_types(sigs: Seq<Seq<char>>, out: bool) -> Seq<Seq<char>> {
    sigs.map_values(|x: Seq<char>| sig_type(x, out)->Ok_0)
}

proof fn lemma_fields_of_glued(sigs: Seq<Seq<char>>, out: bool)
    requires
        all_typed(sigs, out),
    ensures
        parse_fields(glued(sigs) + seq![')'], 0, out) == Ok::<(Seq<Seq<char>>, int), FaultModel>(
            (rust_types(sigs, out), (glued(sigs).len() + 1) as int),
        ),
    decreases sigs.len(),
{
    let s = glued(sigs) + seq![')'];
    if sigs.len() == 0 {
        assert(s[0] == ')');
        assert(rust_types(sigs, out) =~= Seq::<Seq<char>>::empty());
    } else {
        let a = sigs[0];
        let rest = sigs.drop_first();
        assert(all_typed(rest, out)) by {
            assert forall|k: int| 0 <= k < rest.len() implies #[trigger] sig_type(rest[k], out) is Ok by {
                assert(rest[k] == sigs[k + 1]);
            }
        }
        assert(sig_type(sigs[0], out) is Ok);
        let r = glued(rest) + seq![')'];
        assert(s =~= a + r);
        lemma_parse_progress(a, 0, out);
        assert(a[0] != ')');
        assert(s[0] == a[0]);
        lemma_parse_extended(a, r, 0, out);
        lemma_fields_moved(a, r, 0, out);
        lemma_fields_of_glued(rest, out);
        assert(rust_types(sigs, out) =~= seq![sig_type(a, out)->Ok_0] + rust_types(rest, out));
    }
}

/// The Rust type of a struct of field types `sigs` is the tuple of their Rust types, in
/// order, in the same form, owned or borrowed.
pub proof fn struct_type(sigs: Seq<Seq<char>>, out: bool)
    requires
        all_typed(sigs, out),
    ensures
        sig_type(seq!['('] + glued(sigs) + seq![')'], out) == Ok::<Seq<char>, FaultModel>(
            "("@ + listed(rust_types(sigs, out)) + ")"@,
        ),
{
    let g = glued(sigs) + seq![')'];
    let s = seq!['('] + glued(sigs) + seq![')'];
    assert(s =~= seq!['('] + g);
    assert(s[0] == '(');
    lemma_fields_of_glued(sigs, out);
    lemma_fields_moved(seq!['('], g, 0, out);
    lemma_listed(rust_types(sigs, out));
}

// ----- texts within texts -----

/// `x` stands somewhere in `t`.
pub open spec fn occurs(x: Seq<char>, t: Seq<char>) -> bool {
    exists|k: int| 0 <= k && k + x.len() <= t.len() && #[trigger] t.subrange(k, k + x.len()) == x
}

proof fn lemma_occurs_in(a: Seq<char>, x: Seq<char>, b: Seq<char>)
    ensures
        occurs(x, a + x + b),
{
    let t = a + x + b;
    assert(t.subrange(a.len() as int, (a.len() + x.len()) as int) =~= x);
}

proof fn lemma_occurs_trans(x: Seq<char>, u: Seq<char>, t: Seq<char>)
    requires
        occurs(x, u),
        occurs(u, t),
    ensures
        occurs(x, t),
{
    let k1 = choose|k: int| 0 <= k && k + x.len() <= u.len() && #[trigger] u.subrange(k, k + x.len()) == x;
    let k2 = choose|k: int| 0 <= k && k + u.len() <= t.len() && #[trigger] t.subrange(k, k + u.len()) == u;
    assert(t.subrange(k2 + k1, k2 + k1 + x.len()) =~= x) by {
        assert forall|j: int| 0 <= j < x.len() implies t.subrange(k2 + k1, k2 + k1 + x.len())[j] == x[j] by {
            assert(u.subrange(k1, k1 + x.len())[j] == u[k1 + j]);
            assert(t.subrange(k2, k2 + u.len())[k1 + j] == t[k2 + k1 + j]);
        }
    }
}

/// The text of each item stands in the text of all the items.
proof fn lemma_emit_all_part<A>(xs: Seq<A>, f: spec_fn(A) -> Emitted, k: int)
    requires
        0 <= k < xs.len(),
        emit_all(xs, f) is Ok,
    ensures
        f(xs[k]) is Ok,
        occurs(f(xs[k])->Ok_0, emit_all(xs, f)->Ok_0),
    decreases xs.len(),
{
    let dl = xs.drop_last();
    let t = emit_all(xs, f)->Ok_0;
    let a = emit_all(dl, f)->Ok_0;
    let b = f(xs.last())->Ok_0;
    assert(t == a + b);
    if k == xs.len() - 1 {
        assert(a + b + Seq::<char>::empty() =~= t);
        lemma_occurs_in(a, b, Seq::empty());
    } else {
        lemma_emit_all_part(dl, f, k);
        assert(dl[k] == xs[k]);
        assert(Seq::<char>::empty() + a + b =~= t);
        lemma_occurs_in(Seq::empty(), a, b);
        lemma_occurs_trans(f(xs[k])->Ok_0, a, t);
    }
}

/// The items' texts read from the front.
proof fn lemma_concat_all_front<A>(xs: Seq<A>, f: spec_fn(A) -> Seq<char>)
    requires
        xs.len() > 0,
    ensures
        concat_all(xs, f) == f(xs[0]) + concat_all(xs.drop_first(), f),
    decreases xs.len(),
{
    if xs.len() == 1 {
        assert(xs.drop_first() =~= Seq::<A>::empty());
        assert(xs.drop_last() =~= Seq::<A>::empty());
        assert(f(xs[0]) + Seq::<char>::empty() =~= Seq::<char>::empty() + f(xs[0]));
    } else {
        let dl = xs.drop_last();
        lemma_concat_all_front(dl, f);
        assert(dl.drop_first() =~= xs.drop_first().drop_last());
        assert(xs.drop_first().last() == xs.last());
        assert(dl[0] == xs[0]);
        assert((f(xs[0]) + concat_all(dl.drop_first(), f)) + f(xs.last()) =~= f(xs[0]) + (concat_all(
            dl.drop_first(),
            f,
        ) + f(xs.last())));
    }
}

/// A list joined with `sep`, read from the front.
proof fn lemma_join_front(ns: Seq<Seq<char>>, sep: Seq<char>)
    requires
        ns.len() >= 2,
    ensures
        join(ns, sep) == ns[0] + sep + join(ns.drop_first(), sep),
    decreases ns.len(),
{
    let dl = ns.drop_last();
    if ns.len() == 2 {
        assert(dl.len() == 1);
        assert(ns.drop_first().len() == 1);
        assert(join(dl, sep) == dl[0]);
        assert(join(ns.drop_first(), sep) == ns.drop_first()[0]);
        assert(join(ns, sep) == join(dl, sep) + sep + ns.last());
    } else {
        lemma_join_front(dl, sep);
        assert(dl.drop_first() =~= ns.drop_first().drop_last());
        assert(ns.drop_first().last() == ns.last());
        assert(dl[0] == ns[0]);
        assert(join(ns, sep) == join(dl, sep) + sep + ns.last());
        assert(join(ns.drop_first(), sep) == join(ns.drop_first().drop_last(), sep) + sep + ns.drop_first().last());
        assert((ns[0] + sep + join(dl.drop_first(), sep)) + sep + ns.last() =~= ns[0] + sep + (join(
            dl.drop_first(),
            sep,
        ) + sep + ns.last()));
    }
}

// ----- the order of a method's arguments -----

/// The lines that append the arguments `args` to a call, in order.
pub open spec fn append_lines(args: Seq<ArgModel>) -> Seq<char>
    decreases args.len(),
{
    if args.len() == 0 {
        Seq::empty()
    } else {
        "            i.append("@ + varname(args[0]) + ");\n"@ + append_lines(args.drop_first())
    }
}

/// Names separated by `, `, from the first to the last.
pub open spec fn listed(ns: Seq<Seq<char>>) -> Seq<char>
    decreases ns.len(),
{
    if ns.len() == 0 {
        Seq::empty()
    } else if ns.len() == 1 {
        ns[0]
    } else {
        ns[0] + ", "@ + listed(ns.drop_first())
    }
}

proof fn lemma_append_lines(args: Seq<ArgModel>)
    ensures
        concat_all(args, append_arg_fn()) == append_lines(args),
    decreases args.len(),
{
    if args.len() > 0 {
        lemma_concat_all_front(args, append_arg_fn());
        lemma_append_lines(args.drop_first());
    }
}

proof fn lemma_listed(ns: Seq<Seq<char>>)
    ensures
        join(ns, ", "@) == listed(ns),
    decreases ns.len(),
{
    if ns.len() >= 2 {
        lemma_join_front(ns, ", "@);
        lemma_listed(ns.drop_first());
    } else if ns.len() == 1 {
    }
}

/// In the client implementation of an interface, each method that takes arguments
/// appends them to its call in the order in which they are declared.
pub proof fn client_sends_arguments_in_order(i: IntfModel, k: int)
    requires
        0 <= k < i.methods.len(),
        i.methods[k].iargs.len() > 0,
        intf_client(i) is Ok,
    ensures
        occurs(
            "            let mut i = ::dbus::arg::IterAppend::new(msg);\n"@ + append_lines(i.methods[k].iargs)
                + "        }));\n"@,
            intf_client(i)->Ok_0,
        ),
{
    let m = i.methods[k];
    reveal(intf_client);
    reveal(client_method);
    reveal(call_text);
    lemma_emit_all_part(i.methods, client_method_fn(i.name), k);
    lemma_append_lines(m.iargs);
    let x = "            let mut i = ::dbus::arg::IterAppend::new(msg);\n"@ + append_lines(m.iargs)
        + "        }));\n"@;
    let cm = client_method(i.name, m)->Ok_0;
    let ct = call_text(i.name, m);
    let pre = " {\n"@ + "        let mut m = try!(self.method_call_with_args(&\""@ + i.name + "\".into(), &\""@
        + m.name + "\".into(), |"@ + "msg"@ + "| {\n"@;
    assert(ct =~= pre + x + "        try!(m.as_result());\n"@);
    lemma_occurs_in(pre, x, "        try!(m.as_result());\n"@);
    let d = crate::emit::method_decl(m)->Ok_0;
    let r = crate::emit::client_reply(m.oargs)->Ok_0;
    assert(cm =~= ("\n"@ + d) + ct + (r + "    }\n"@));
    lemma_occurs_in("\n"@ + d, ct, r + "    }\n"@);
    lemma_occurs_trans(x, ct, cm);
    let t = intf_client(i)->Ok_0;
    let tm = emit_all(i.methods, client_method_fn(i.name))->Ok_0;
    let h = "\nimpl<'a, C: ::std::ops::Deref<Target=::dbus::Connection>> "@ + crate::names::camel(i.name)
        + " for ::dbus::ConnPath<'a, C> {\n"@;
    let rest = t.subrange((h.len() + tm.len()) as int, t.len() as int);
    assert(t =~= h + tm + rest);
    lemma_occurs_in(h, tm, rest);
    lemma_occurs_trans(cm, tm, t);
    lemma_occurs_trans(x, cm, t);
}

/// In the function that builds an interface for an object tree, the handler of each
/// method calls the trait's method with the method's arguments in the order in which they
/// are declared.
pub proof fn handler_passes_arguments_in_order(i: IntfModel, mt: Seq<char>, k: int)
    requires
        0 <= k < i.methods.len(),
        intf_tree(i, mt) is Ok,
    ensures
        occurs(
            "try!(d."@ + snake(i.methods[k].name) + "("@ + listed(
                i.methods[k].iargs.map_values(|a: ArgModel| varname(a)),
            ) + "));\n"@,
            intf_tree(i, mt)->Ok_0,
        ),
{
    let m = i.methods[k];
    reveal(intf_tree);
    reveal(tree_method);
    reveal(handler_call);
    lemma_emit_all_part(i.methods, tree_method_fn(mt), k);
    lemma_listed(m.iargs.map_values(|a: ArgModel| varname(a)));
    let x = "try!(d."@ + snake(m.name) + "("@ + listed(m.iargs.map_values(|a: ArgModel| varname(a))) + "));\n"@;
    assert(varnames(m.iargs) == listed(m.iargs.map_values(|a: ArgModel| varname(a))));
    let hc = handler_call(m);
    let pre = "        let d = fclone(minfo);\n"@ + "        "@ + crate::emit::retargs(m.oargs);
    let post = "        let rm = minfo.msg.method_return();\n"@;
    assert(hc =~= pre + x + post);
    lemma_occurs_in(pre, x, post);
    let tmm = tree_method(mt, m)->Ok_0;
    let hs = crate::emit::handler_start(mt, m);
    let reads = emit_all(m.iargs, crate::emit::read_arg_fn())->Ok_0;
    assert(tmm =~= (hs + reads) + hc + handler_register(m));
    lemma_occurs_in(hs + reads, hc, handler_register(m));
    lemma_occurs_trans(x, hc, tmm);
    let t = intf_tree(i, mt)->Ok_0;
    let tm = emit_all(i.methods, tree_method_fn(mt))->Ok_0;
    let h = crate::emit::tree_header(i, mt);
    let rest = t.subrange((h.len() + tm.len()) as int, t.len() as int);
    assert(t =~= h + tm + rest);
    lemma_occurs_in(h, tm, rest);
    lemma_occurs_trans(tmm, tm, t);
    lemma_occurs_trans(x, tmm, t);
}

// ----- properties -----

/// The `::dbus::tree::Access` variant named after a property's access value.
pub open spec fn access_name(access: Seq<char>) -> Seq<char> {
    if access == "read"@ {
        "Read"@
    } else if access == "readwrite"@ {
        "ReadWrite"@
    } else {
        "Write"@
    }
}

/// Whether an access value lets a property be read.
pub open spec fn readable(access: Seq<char>) -> bool {
    access == "read"@ || access == "readwrite"@
}

/// Whether an access value lets a property be written.
pub open spec fn writable(access: Seq<char>) -> bool {
    access == "write"@ || access == "readwrite"@
}

/// How the object-tree function serves a property of Rust type `t`: registered with the
/// access variant named after its access value, with a callback that reads it where it can
/// be read and one that writes it where it can be written.
pub open spec fn served_property(p: PropModel, t: Seq<char>) -> Seq<char> {
    "\n    let p = factory.property::<"@ + t + ", _>(\""@ + p.name + "\", Default::default());\n"@
        + "    let p = p.access(::dbus::tree::Access::"@ + access_name(p.access) + ");\n"@ + (if readable(
        p.access,
    ) {
        get_callback(p)
    } else {
        Seq::empty()
    }) + (if writable(p.access) {
        set_callback(p)
    } else {
        Seq::empty()
    }) + "    let i = i.add_p(p);\n"@
}

proof fn lemma_tree_prop_text(p: PropModel)
    requires
        tree_prop(p) is Ok,
    ensures
        sig_type(p.typ, false) is Ok,
        p.access == "read"@ || p.access == "readwrite"@ || p.access == "write"@,
        tree_prop(p) == Ok::<Seq<char>, FaultModel>(served_property(p, sig_type(p.typ, false)->Ok_0)),
{
    reveal(tree_prop);
    reveal_strlit("read");
    reveal_strlit("readwrite");
    reveal_strlit("write");
    assert("read"@.len() == 4 && "write"@.len() == 5 && "readwrite"@.len() == 9);
    assert("read"@ != "write"@);
    assert("readwrite"@ != "write"@);
    assert("read"@ != "readwrite"@);
}

/// Where the object-tree function of an interface can be generated, each property has a
/// Rust type in its borrowed form and an access value `read`, `readwrite` or `write`, and
/// the function serves it accordingly.
pub proof fn tree_serves_properties(i: IntfModel, mt: Seq<char>, k: int)
    requires
        0 <= k < i.props.len(),
        intf_tree(i, mt) is Ok,
    ensures
        sig_type(i.props[k].typ, false) is Ok,
        i.props[k].access == "read"@ || i.props[k].access == "readwrite"@ || i.props[k].access == "write"@,
        occurs(served_property(i.props[k], sig_type(i.props[k].typ, false)->Ok_0), intf_tree(i, mt)->Ok_0),
{
    let p = i.props[k];
    reveal(intf_tree);
    lemma_emit_all_part(i.props, tree_prop_fn(), k);
    assert(tree_prop_fn()(p) == tree_prop(p));
    lemma_tree_prop_text(p);
    let x = served_property(p, sig_type(p.typ, false)->Ok_0);
    let t = intf_tree(i, mt)->Ok_0;
    let h = crate::emit::tree_header(i, mt);
    let tm = emit_all(i.methods, tree_method_fn(mt))->Ok_0;
    let tp = emit_all(i.props, tree_prop_fn())->Ok_0;
    let tail = "    i\n"@ + "}\n"@;
    assert(t =~= (h + tm) + tp + tail);
    lemma_occurs_in(h + tm, tp, tail);
    lemma_occurs_trans(x, tp, t);
}

/// A property's declarations in the trait, with Rust type `t`: a getter where it can be
/// read, and a setter where it can be written.
pub open spec fn declared_property(p: PropModel, t: Seq<char>) -> Seq<char> {
    (if p.access != "write"@ {
        "    fn get_"@ + snake(p.name) + "(&self) -> Result<"@ + t + ", ::dbus::Error>"@ + ";\n"@
    } else {
        Seq::empty()
    }) + (if writable(p.access) {
        "    fn set_"@ + snake(p.name) + "(&self, value: "@ + t + ") -> Result<(), ::dbus::Error>"@ + ";\n"@
    } else {
        Seq::empty()
    })
}

proof fn lemma_prop_items_declared(p: PropModel)
    requires
        sig_type(p.typ, true) is Ok,
    ensures
        prop_items(p) == Ok::<Seq<char>, FaultModel>(declared_property(p, sig_type(p.typ, true)->Ok_0)),
{
    reveal(prop_decl);
}

/// Adding a property (with a Rust type in its owned form) to an interface adds exactly its
/// declarations to the interface's trait, just before the trait's closing brace.
pub proof fn trait_with_property(i: IntfModel, p: PropModel)
    requires
        sig_type(p.typ, true) is Ok,
    ensures
        intf_decl(i) matches Ok(t) ==> {
            &&& t.len() >= 2
            &&& t.subrange(t.len() - 2, t.len() as int) == "}\n"@
            &&& intf_decl(IntfModel { props: i.props.push(p), ..i }) == Ok::<Seq<char>, FaultModel>(
                t.subrange(0, t.len() - 2) + declared_property(p, sig_type(p.typ, true)->Ok_0) + "}\n"@,
            )
        },
{
    reveal(intf_decl);
    reveal_strlit("}\n");
    let j = IntfModel { props: i.props.push(p), ..i };
    assert(i.props.push(p).drop_last() =~= i.props);
    assert(j.props.last() == p);
    let ty = sig_type(p.typ, true)->Ok_0;
    lemma_prop_items_declared(p);
    if let Ok(t) = intf_decl(i) {
        let h = "\npub trait "@ + crate::names::camel(i.name) + " {\n"@;
        let tm = emit_all(i.methods, crate::emit::method_item_fn())->Ok_0;
        let tp = emit_all(i.props, prop_items_fn())->Ok_0;
        assert(t =~= h + tm + tp + "}\n"@);
        assert(t.subrange(0, t.len() - 2) =~= h + tm + tp);
        assert(t.subrange(t.len() - 2, t.len() as int) =~= "}\n"@);
        let u = intf_decl(j)->Ok_0;
        assert(u =~= h + tm + tp + declared_property(p, ty) + "}\n"@);
    }
}

// ----- the full order of a method's arguments and results -----

/// The items' texts, all of which succeed, read from the front.
proof fn lemma_emit_all_front<A>(xs: Seq<A>, f: spec_fn(A) -> Emitted)
    requires
        xs.len() > 0,
        emit_all(xs, f) is Ok,
    ensures
        f(xs[0]) is Ok,
        emit_all(xs.drop_first(), f) is Ok,
        emit_all(xs, f)->Ok_0 == f(xs[0])->Ok_0 + emit_all(xs.drop_first(), f)->Ok_0,
    decreases xs.len(),
{
    let dl = xs.drop_last();
    if xs.len() == 1 {
        assert(xs.drop_first() =~= Seq::<A>::empty());
        assert(dl =~= Seq::<A>::empty());
        assert(Seq::<char>::empty() + f(xs[0])->Ok_0 =~= f(xs[0])->Ok_0 + Seq::<char>::empty());
    } else {
        lemma_emit_all_front(dl, f);
        assert(dl.drop_first() =~= xs.drop_first().drop_last());
        assert(xs.drop_first().last() == xs.last());
        assert(dl[0] == xs[0]);
        let a = f(xs[0])->Ok_0;
        let b = emit_all(dl.drop_first(), f)->Ok_0;
        let c = f(xs.last())->Ok_0;
        assert((a + b) + c =~= a + (b + c));
    }
}

/// The Rust type of an argument that has one.
pub open spec fn ty(a: ArgModel) -> Seq<char> {
    arg_type(a)->Ok_0
}

pub open spec fn names(args: Seq<ArgModel>) -> Seq<Seq<char>> {
    args.map_values(|a: ArgModel| varname(a))
}

/// The lines that read the arguments `args` from a message, in order.
pub open spec fn read_lines(args: Seq<ArgModel>) -> Seq<char>
    decreases args.len(),
{
    if args.len() == 0 {
        Seq::empty()
    } else {
        "        let "@ + varname(args[0]) + ": "@ + ty(args[0]) + " = try!(i.read());\n"@ + read_lines(
            args.drop_first(),
        )
    }
}

proof fn lemma_read_lines(args: Seq<ArgModel>)
    requires
        emit_all(args, crate::emit::read_arg_fn()) is Ok,
    ensures
        emit_all(args, crate::emit::read_arg_fn()) == Ok::<Seq<char>, FaultModel>(read_lines(args)),
    decreases args.len(),
{
    if args.len() > 0 {
        lemma_emit_all_front(args, crate::emit::read_arg_fn());
        lemma_read_lines(args.drop_first());
        let a = args[0];
        assert(crate::emit::read_arg(a)->Ok_0 =~= "        let "@ + varname(a) + ": "@ + ty(a) + " = try!(i.read());\n"@);
    }
}

/// What a client method returns: its only result, or the tuple of its results in order.
pub open spec fn returned(os: Seq<ArgModel>) -> Seq<char> {
    if os.len() == 1 {
        "        Ok("@ + varname(os[0]) + ")\n"@
    } else {
        "        Ok(("@ + listed(names(os)) + "))\n"@
    }
}

/// In the client implementation of an interface, each method with results reads them
/// from the reply in the order in which they are declared, and returns them in that order.
pub proof fn client_reads_results_in_order(i: IntfModel, k: int)
    requires
        0 <= k < i.methods.len(),
        i.methods[k].oargs.len() > 0,
        intf_client(i) is Ok,
    ensures
        occurs(
            "        let mut i = m.iter_init();\n"@ + read_lines(i.methods[k].oargs) + returned(i.methods[k].oargs),
            intf_client(i)->Ok_0,
        ),
{
    let m = i.methods[k];
    let os = m.oargs;
    reveal(intf_client);
    reveal(client_method);
    lemma_emit_all_part(i.methods, client_method_fn(i.name), k);
    let reply = crate::emit::client_reply(os)->Ok_0;
    lemma_read_lines(os);
    lemma_listed(names(os));
    let x = "        let mut i = m.iter_init();\n"@ + read_lines(os) + returned(os);
    assert(reply =~= x);
    let cm = client_method(i.name, m)->Ok_0;
    let d = crate::emit::method_decl(m)->Ok_0;
    let pre = "\n"@ + d + call_text(i.name, m);
    assert(cm =~= pre + x + "    }\n"@);
    lemma_occurs_in(pre, x, "    }\n"@);
    let t = intf_client(i)->Ok_0;
    let tm = emit_all(i.methods, client_method_fn(i.name))->Ok_0;
    let h = "\nimpl<'a, C: ::std::ops::Deref<Target=::dbus::Connection>> "@ + crate::names::camel(i.name)
        + " for ::dbus::ConnPath<'a, C> {\n"@;
    let rest = t.subrange((h.len() + tm.len()) as int, t.len() as int);
    assert(t =~= h + tm + rest);
    lemma_occurs_in(h, tm, rest);
    lemma_occurs_trans(cm, tm, t);
    lemma_occurs_trans(x, cm, t);
}

/// How a method handler binds the results of the trait's method: nothing for none, the
/// one name for one, a tuple of the names in order for more.
pub open spec fn binding(os: Seq<ArgModel>) -> Seq<char> {
    if os.len() == 0 {
        Seq::empty()
    } else if os.len() == 1 {
        "let "@ + varname(os[0]) + " = "@
    } else {
        "let ("@ + listed(names(os)) + ") = "@
    }
}

/// The lines that append the results `os` to a reply, in order.
pub open spec fn reply_lines(os: Seq<ArgModel>) -> Seq<char>
    decreases os.len(),
{
    if os.len() == 0 {
        Seq::empty()
    } else {
        "        let rm = rm.append1("@ + varname(os[0]) + ");\n"@ + reply_lines(os.drop_first())
    }
}

/// The lines that declare the arguments `args` of a method, inputs (`out` false) or
/// outputs, in order, with their names and signatures.
pub open spec fn declared_args(args: Seq<ArgModel>, out: bool) -> Seq<char>
    decreases args.len(),
{
    if args.len() == 0 {
        Seq::empty()
    } else {
        (if out { "    let m = m.out_arg((\""@ } else { "    let m = m.in_arg((\""@ }) + args[0].name + "\", \""@
            + args[0].typ + "\"));\n"@ + declared_args(args.drop_first(), out)
    }
}

proof fn lemma_reply_lines(os: Seq<ArgModel>)
    ensures
        concat_all(os, crate::emit::append1_fn()) == reply_lines(os),
    decreases os.len(),
{
    if os.len() > 0 {
        lemma_concat_all_front(os, crate::emit::append1_fn());
        lemma_reply_lines(os.drop_first());
    }
}

proof fn lemma_declared_args(args: Seq<ArgModel>, out: bool)
    ensures
        concat_all(args, crate::emit::arg_info_fn(out)) == declared_args(args, out),
    decreases args.len(),
{
    if args.len() > 0 {
        lemma_concat_all_front(args, crate::emit::arg_info_fn(out));
        lemma_declared_args(args.drop_first(), out);
    }
}

/// The call of the trait's method in a handler: with the arguments in order, binding the
/// results in order.
pub open spec fn call_part(m: MethodModel) -> Seq<char> {
    "        let d = fclone(minfo);\n"@ + "        "@ + binding(m.oargs) + "try!(d."@ + snake(m.name) + "("@
        + listed(names(m.iargs)) + "));\n"@ + "        let rm = minfo.msg.method_return();\n"@
}

/// The rest of a handler: the results appended to the reply in order, and the method
/// registered with its arguments and results in order.
pub open spec fn register_part(m: MethodModel) -> Seq<char> {
    reply_lines(m.oargs) + "        Ok(vec!(rm))\n"@ + "    };\n"@ + "    let m = factory.method(\""@ + m.name
        + "\", Default::default(), h);\n"@ + declared_args(m.iargs, false) + declared_args(m.oargs, true)
        + "    let i = i.add_m(m);\n"@
}

/// The handler of a method in the object-tree function: it reads the arguments in order,
/// calls the trait's method with them in order, binds its results, appends them to the
/// reply in order, and registers the method with its arguments and results in order.
pub open spec fn handler_text(m: MethodModel) -> Seq<char> {
    read_lines(m.iargs) + call_part(m) + register_part(m)
}

proof fn lemma_call_part(m: MethodModel)
    ensures
        handler_call(m) == call_part(m),
{
    reveal(handler_call);
    lemma_listed(names(m.iargs));
    lemma_listed(names(m.oargs));
    assert(crate::emit::retargs(m.oargs) == binding(m.oargs));
    assert(handler_call(m) =~= call_part(m));
}

proof fn lemma_register_part(m: MethodModel)
    ensures
        handler_register(m) == register_part(m),
{
    reveal(handler_register);
    lemma_reply_lines(m.oargs);
    lemma_declared_args(m.iargs, false);
    lemma_declared_args(m.oargs, true);
    assert(handler_register(m) =~= register_part(m));
}

proof fn lemma_tree_method_text(mt: Seq<char>, m: MethodModel)
    requires
        tree_method(mt, m) is Ok,
    ensures
        tree_method(mt, m)->Ok_0 == crate::emit::handler_start(mt, m) + handler_text(m),
{
    reveal(tree_method);
    lemma_read_lines(m.iargs);
    lemma_call_part(m);
    lemma_register_part(m);
    let hs = crate::emit::handler_start(mt, m);
    let r = read_lines(m.iargs);
    assert(tree_method(mt, m)->Ok_0 == hs + (r + (handler_call(m) + handler_register(m))));
    assert(hs + (r + (call_part(m) + register_part(m))) =~= hs + handler_text(m));
}

/// Where the object-tree function of an interface can be generated, it holds the handler
/// of each method.
pub proof fn tree_handles_methods(i: IntfModel, mt: Seq<char>, k: int)
    requires
        0 <= k < i.methods.len(),
        intf_tree(i, mt) is Ok,
    ensures
        occurs(handler_text(i.methods[k]), intf_tree(i, mt)->Ok_0),
{
    let m = i.methods[k];
    reveal(intf_tree);
    lemma_emit_all_part(i.methods, tree_method_fn(mt), k);
    lemma_tree_method_text(mt, m);
    let x = handler_text(m);
    let tmm = tree_method(mt, m)->Ok_0;
    let hs = crate::emit::handler_start(mt, m);
    assert(tmm =~= hs + x + Seq::<char>::empty());
    lemma_occurs_in(hs, x, Seq::empty());
    let t = intf_tree(i, mt)->Ok_0;
    let tm = emit_all(i.methods, tree_method_fn(mt))->Ok_0;
    let h = crate::emit::tree_header(i, mt);
    let rest = t.subrange((h.len() + tm.len()) as int, t.len() as int);
    assert(t =~= h + tm + rest);
    lemma_occurs_in(h, tm, rest);
    lemma_occurs_trans(tmm, tm, t);
    lemma_occurs_trans(x, tmm, t);
}

// ----- method declarations -----

/// The parameters of a method declaration for the arguments `args`, in order.
pub open spec fn params(args: Seq<ArgModel>) -> Seq<char>
    decreases args.len(),
{
    if args.len() == 0 {
        Seq::empty()
    } else {
        ", "@ + varname(args[0]) + ": "@ + ty(args[0]) + params(args.drop_first())
    }
}

pub open spec fn types(args: Seq<ArgModel>) -> Seq<Seq<char>> {
    args.map_values(|a: ArgModel| ty(a))
}

/// The result type of a method declaration for the results `os`: a unit, the one result's
/// type, or the tuple of the results' types in order; wrapped in a `Result`.
pub open spec fn result_type(os: Seq<ArgModel>) -> Seq<char> {
    if os.len() == 0 {
        ") -> Result<(), ::dbus::Error>"@
    } else if os.len() == 1 {
        ") -> Result<"@ + ty(os[0]) + ", ::dbus::Error>"@
    } else {
        ") -> Result<("@ + listed(types(os)) + "), ::dbus::Error>"@
    }
}

/// Each of the texts `ns` with `, ` in front of it.
pub open spec fn prefixed(ns: Seq<Seq<char>>) -> Seq<char>
    decreases ns.len(),
{
    if ns.len() == 0 {
        Seq::empty()
    } else {
        ", "@ + ns[0] + prefixed(ns.drop_first())
    }
}

proof fn lemma_listed_prefixed(ns: Seq<Seq<char>>)
    requires
        ns.len() >= 1,
    ensures
        listed(ns) == ns[0] + prefixed(ns.drop_first()),
    decreases ns.len(),
{
    let df = ns.drop_first();
    if ns.len() == 1 {
        assert(df.len() == 0);
        assert(ns[0] + Seq::<char>::empty() =~= ns[0]);
    } else {
        lemma_listed_prefixed(df);
        assert((ns[0] + ", "@) + (df[0] + prefixed(df.drop_first())) =~= ns[0] + ((", "@ + df[0]) + prefixed(
            df.drop_first(),
        )));
    }
}

proof fn lemma_params(args: Seq<ArgModel>)
    requires
        emit_all(args, crate::emit::in_param_fn()) is Ok,
    ensures
        emit_all(args, crate::emit::in_param_fn()) == Ok::<Seq<char>, FaultModel>(params(args)),
    decreases args.len(),
{
    if args.len() > 0 {
        lemma_emit_all_front(args, crate::emit::in_param_fn());
        lemma_params(args.drop_first());
        let a = args[0];
        assert(crate::emit::in_param(a)->Ok_0 =~= ", "@ + varname(a) + ": "@ + ty(a));
    }
}

proof fn lemma_more_types(args: Seq<ArgModel>)
    requires
        emit_all(args, crate::emit::more_type_fn()) is Ok,
    ensures
        emit_all(args, crate::emit::more_type_fn()) == Ok::<Seq<char>, FaultModel>(prefixed(types(args))),
    decreases args.len(),
{
    if args.len() > 0 {
        lemma_emit_all_front(args, crate::emit::more_type_fn());
        lemma_more_types(args.drop_first());
        assert(types(args).drop_first() =~= types(args.drop_first()));
        assert(types(args)[0] == ty(args[0]));
    }
}

/// A method's declaration: its name in snake case, its parameters in the order of its
/// arguments, and its result type from its results in order.
pub proof fn method_declaration(m: MethodModel)
    requires
        crate::emit::method_decl(m) is Ok,
    ensures
        crate::emit::method_decl(m) == Ok::<Seq<char>, FaultModel>(
            "    fn "@ + snake(m.name) + "(&self"@ + params(m.iargs) + result_type(m.oargs),
        ),
{
    reveal(crate::emit::method_decl);
    reveal(crate::emit::ret_decl);
    lemma_params(m.iargs);
    let os = m.oargs;
    if os.len() >= 2 {
        assert(os.skip(1) =~= os.drop_first());
        lemma_more_types(os.drop_first());
        lemma_listed_prefixed(types(os));
        assert(types(os).drop_first() =~= types(os.drop_first()));
        assert(types(os)[0] == ty(os[0]));
    }
    let h = "    fn "@ + snake(m.name) + "(&self"@;
    let r = crate::emit::ret_decl(os)->Ok_0;
    assert(r == result_type(os)) by {
        if os.len() >= 2 {
            let c = ty(os[0]);
            let pr = prefixed(types(os.drop_first()));
            assert(r =~= ") -> Result<("@ + (c + (pr + "), ::dbus::Error>"@)));
            assert(result_type(os) =~= ") -> Result<("@ + (c + (pr + "), ::dbus::Error>"@)));
        } else if os.len() == 1 {
            assert(r =~= result_type(os));
        }
    }
    assert(h + (params(m.iargs) + r) =~= h + params(m.iargs) + r);
}

// ----- order of methods and properties -----

/// `x` stands in `t`, and `y` stands after it.
pub open spec fn ordered(x: Seq<char>, y: Seq<char>, t: Seq<char>) -> bool {
    exists|p: int, q: int|
        0 <= p && p + x.len() <= q && q + y.len() <= t.len() && #[trigger] t.subrange(p, p + x.len()) == x
            && #[trigger] t.subrange(q, q + y.len()) == y
}

proof fn lemma_ordered_in(x: Seq<char>, y: Seq<char>, u: Seq<char>, t: Seq<char>)
    requires
        ordered(x, y, u),
        occurs(u, t),
    ensures
        ordered(x, y, t),
{
    let (p, q) = choose|p: int, q: int|
        0 <= p && p + x.len() <= q && q + y.len() <= u.len() && #[trigger] u.subrange(p, p + x.len()) == x
            && #[trigger] u.subrange(q, q + y.len()) == y;
    let k = choose|k: int| 0 <= k && k + u.len() <= t.len() && #[trigger] t.subrange(k, k + u.len()) == u;
    assert(t.subrange(k + p, k + p + x.len()) =~= x) by {
        assert forall|j: int| 0 <= j < x.len() implies t.subrange(k + p, k + p + x.len())[j] == x[j] by {
            assert(u.subrange(p, p + x.len())[j] == u[p + j]);
            assert(t.subrange(k, k + u.len())[p + j] == t[k + p + j]);
        }
    }
    assert(t.subrange(k + q, k + q + y.len()) =~= y) by {
        assert forall|j: int| 0 <= j < y.len() implies t.subrange(k + q, k + q + y.len())[j] == y[j] by {
            assert(u.subrange(q, q + y.len())[j] == u[q + j]);
            assert(t.subrange(k, k + u.len())[q + j] == t[k + q + j]);
        }
    }
}

/// Parts of two texts that stand in order stand in the same order.
proof fn lemma_ordered_parts(
    ax: Seq<char>,
    x: Seq<char>,
    bx: Seq<char>,
    ay: Seq<char>,
    y: Seq<char>,
    by: Seq<char>,
    t: Seq<char>,
)
    requires
        ordered(ax + x + bx, ay + y + by, t),
    ensures
        ordered(x, y, t),
{
    let xx = ax + x + bx;
    let yy = ay + y + by;
    let (p, q) = choose|p: int, q: int|
        0 <= p && p + xx.len() <= q && q + yy.len() <= t.len() && #[trigger] t.subrange(p, p + xx.len()) == xx
            && #[trigger] t.subrange(q, q + yy.len()) == yy;
    let p2 = p + ax.len();
    let q2 = q + ay.len();
    assert(t.subrange(p2, p2 + x.len()) =~= x) by {
        assert forall|j: int| 0 <= j < x.len() implies t.subrange(p2, p2 + x.len())[j] == x[j] by {
            assert(xx[ax.len() + j] == x[j]);
            assert(t.subrange(p, p + xx.len())[ax.len() + j] == t[p2 + j]);
        }
    }
    assert(t.subrange(q2, q2 + y.len()) =~= y) by {
        assert forall|j: int| 0 <= j < y.len() implies t.subrange(q2, q2 + y.len())[j] == y[j] by {
            assert(yy[ay.len() + j] == y[j]);
            assert(t.subrange(q, q + yy.len())[ay.len() + j] == t[q2 + j]);
        }
    }
}

/// The texts of two items stand in the text of all the items in the items' order.
proof fn lemma_emit_all_ordered<A>(xs: Seq<A>, f: spec_fn(A) -> Emitted, j: int, k: int)
    requires
        0 <= j < k < xs.len(),
        emit_all(xs, f) is Ok,
    ensures
        ordered(f(xs[j])->Ok_0, f(xs[k])->Ok_0, emit_all(xs, f)->Ok_0),
    decreases xs.len(),
{
    let dl = xs.drop_last();
    let t = emit_all(xs, f)->Ok_0;
    let a = emit_all(dl, f)->Ok_0;
    let b = f(xs.last())->Ok_0;
    assert(t == a + b);
    assert(dl[j] == xs[j]);
    let x = f(xs[j])->Ok_0;
    if k == xs.len() - 1 {
        lemma_emit_all_part(dl, f, j);
        let p = choose|p: int| 0 <= p && p + x.len() <= a.len() && #[trigger] a.subrange(p, p + x.len()) == x;
        assert(t.subrange(p, p + x.len()) =~= a.subrange(p, p + x.len()));
        assert(t.subrange(a.len() as int, (a.len() + b.len()) as int) =~= b);
    } else {
        assert(dl[k] == xs[k]);
        lemma_emit_all_ordered(dl, f, j, k);
        assert(Seq::<char>::empty() + a + b =~= t);
        lemma_occurs_in(Seq::empty(), a, b);
        lemma_ordered_in(x, f(xs[k])->Ok_0, a, t);
    }
}

/// The trait of an interface declares its methods in their order.
pub proof fn trait_methods_in_order(i: IntfModel, j: int, k: int)
    requires
        0 <= j < k < i.methods.len(),
        intf_decl(i) is Ok,
    ensures
        ordered(
            crate::emit::method_decl(i.methods[j])->Ok_0 + ";\n"@,
            crate::emit::method_decl(i.methods[k])->Ok_0 + ";\n"@,
            intf_decl(i)->Ok_0,
        ),
{
    reveal(intf_decl);
    let f = crate::emit::method_item_fn();
    lemma_emit_all_ordered(i.methods, f, j, k);
    let t = intf_decl(i)->Ok_0;
    let h = "\npub trait "@ + crate::names::camel(i.name) + " {\n"@;
    let tm = emit_all(i.methods, f)->Ok_0;
    let rest = t.subrange((h.len() + tm.len()) as int, t.len() as int);
    assert(t =~= h + tm + rest);
    lemma_occurs_in(h, tm, rest);
    lemma_emit_all_part(i.methods, f, j);
    lemma_emit_all_part(i.methods, f, k);
    assert(f(i.methods[j])->Ok_0 == crate::emit::method_decl(i.methods[j])->Ok_0 + ";\n"@);
    assert(f(i.methods[k])->Ok_0 == crate::emit::method_decl(i.methods[k])->Ok_0 + ";\n"@);
    lemma_ordered_in(f(i.methods[j])->Ok_0, f(i.methods[k])->Ok_0, tm, t);
}

/// The client implementation of an interface implements its methods in their order.
pub proof fn client_methods_in_order(i: IntfModel, j: int, k: int)
    requires
        0 <= j < k < i.methods.len(),
        intf_client(i) is Ok,
    ensures
        ordered(
            client_method(i.name, i.methods[j])->Ok_0,
            client_method(i.name, i.methods[k])->Ok_0,
            intf_client(i)->Ok_0,
        ),
{
    reveal(intf_client);
    let f = client_method_fn(i.name);
    lemma_emit_all_ordered(i.methods, f, j, k);
    let t = intf_client(i)->Ok_0;
    let h = "\nimpl<'a, C: ::std::ops::Deref<Target=::dbus::Connection>> "@ + crate::names::camel(i.name)
        + " for ::dbus::ConnPath<'a, C> {\n"@;
    let tm = emit_all(i.methods, f)->Ok_0;
    let rest = t.subrange((h.len() + tm.len()) as int, t.len() as int);
    assert(t =~= h + tm + rest);
    lemma_occurs_in(h, tm, rest);
    lemma_ordered_in(f(i.methods[j])->Ok_0, f(i.methods[k])->Ok_0, tm, t);
}

/// The object-tree function of an interface holds the handlers of its methods in their
/// order.
pub proof fn tree_methods_in_order(i: IntfModel, mt: Seq<char>, j: int, k: int)
    requires
        0 <= j < k < i.methods.len(),
        intf_tree(i, mt) is Ok,
    ensures
        ordered(handler_text(i.methods[j]), handler_text(i.methods[k]), intf_tree(i, mt)->Ok_0),
{
    reveal(intf_tree);
    let f = tree_method_fn(mt);
    lemma_emit_all_ordered(i.methods, f, j, k);
    lemma_emit_all_part(i.methods, f, j);
    lemma_emit_all_part(i.methods, f, k);
    let mj = i.methods[j];
    let mk = i.methods[k];
    lemma_tree_method_text(mt, mj);
    lemma_tree_method_text(mt, mk);
    let t = intf_tree(i, mt)->Ok_0;
    let h = crate::emit::tree_header(i, mt);
    let tm = emit_all(i.methods, f)->Ok_0;
    let rest = t.subrange((h.len() + tm.len()) as int, t.len() as int);
    assert(t =~= h + tm + rest);
    lemma_occurs_in(h, tm, rest);
    let xj = f(mj)->Ok_0;
    let xk = f(mk)->Ok_0;
    lemma_ordered_in(xj, xk, tm, t);
    let e = Seq::<char>::empty();
    assert(xj =~= crate::emit::handler_start(mt, mj) + handler_text(mj) + e);
    assert(xk =~= crate::emit::handler_start(mt, mk) + handler_text(mk) + e);
    lemma_ordered_parts(
        crate::emit::handler_start(mt, mj),
        handler_text(mj),
        e,
        crate::emit::handler_start(mt, mk),
        handler_text(mk),
        e,
        t,
    );
}

/// The object-tree function of an interface serves its properties in their order.
pub proof fn tree_properties_in_order(i: IntfModel, mt: Seq<char>, j: int, k: int)
    requires
        0 <= j < k < i.props.len(),
        intf_tree(i, mt) is Ok,
    ensures
        ordered(
            served_property(i.props[j], sig_type(i.props[j].typ, false)->Ok_0),
            served_property(i.props[k], sig_type(i.props[k].typ, false)->Ok_0),
            intf_tree(i, mt)->Ok_0,
        ),
{
    reveal(intf_tree);
    let f = tree_prop_fn();
    lemma_emit_all_ordered(i.props, f, j, k);
    lemma_emit_all_part(i.props, f, j);
    lemma_emit_all_part(i.props, f, k);
    assert(f(i.props[j]) == tree_prop(i.props[j]));
    assert(f(i.props[k]) == tree_prop(i.props[k]));
    lemma_tree_prop_text(i.props[j]);
    lemma_tree_prop_text(i.props[k]);
    let t = intf_tree(i, mt)->Ok_0;
    let h = crate::emit::tree_header(i, mt);
    let tm = emit_all(i.methods, tree_method_fn(mt))->Ok_0;
    let tp = emit_all(i.props, f)->Ok_0;
    let tail = "    i\n"@ + "}\n"@;
    assert(t =~= (h + tm) + tp + tail);
    lemma_occurs_in(h + tm, tp, tail);
    lemma_ordered_in(f(i.props[j])->Ok_0, f(i.props[k])->Ok_0, tp, t);
}

// ----- the client's properties, and the names that tie the texts together -----

/// The client's getter of property `p` of interface `iname`, with Rust type `t`: it calls
/// `Get` of the standard properties interface with the interface's and the property's
/// names, and returns what the reply holds.
pub open spec fn client_getter_text(iname: Seq<char>, p: PropModel, t: Seq<char>) -> Seq<char> {
    "\n"@ + ("    fn get_"@ + snake(p.name) + "(&self) -> Result<"@ + t + ", ::dbus::Error>"@) + " {\n"@
        + "        let mut m = try!(self.method_call_with_args(&\"Org.Freedesktop.DBus.Properties\".into(), &\"Get\".into(), move |msg| {\n"@
        + "            let mut i = ::dbus::arg::IterAppend::new(msg);\n"@ + "            i.append(\""@ + iname
        + "\");\n"@ + "            i.append(\""@ + p.name + "\");\n"@ + "        }));\n"@
        + "        Ok(try!(try!(m.as_result()).read1()))\n"@ + "    }\n"@
}

/// The client's setter of property `p` of interface `iname`, with Rust type `t`: it calls
/// `Set` of the standard properties interface with the interface's and the property's
/// names and the new value.
pub open spec fn client_setter_text(iname: Seq<char>, p: PropModel, t: Seq<char>) -> Seq<char> {
    "\n"@ + ("    fn set_"@ + snake(p.name) + "(&self, value: "@ + t + ") -> Result<(), ::dbus::Error>"@) + " {\n"@
        + "        let mut m = try!(self.method_call_with_args(&\"Org.Freedesktop.DBus.Properties\".into(), &\"Set\".into(), move |msg| {\n"@
        + "            let mut i = ::dbus::arg::IterAppend::new(msg);\n"@ + "            i.append(\""@ + iname
        + "\");\n"@ + "            i.append(\""@ + p.name + "\");\n"@ + "            i.append(value);\n"@
        + "        }));\n"@ + "        m.as_result()\n"@ + "    }\n"@
}

proof fn lemma_client_getter(iname: Seq<char>, p: PropModel)
    requires
        crate::emit::client_getter(iname, p) is Ok,
    ensures
        p.access != "write"@ ==> sig_type(p.typ, true) is Ok && crate::emit::client_getter(iname, p)
            == Ok::<Seq<char>, FaultModel>(client_getter_text(iname, p, sig_type(p.typ, true)->Ok_0)),
        p.access == "write"@ ==> crate::emit::client_getter(iname, p) == Ok::<Seq<char>, FaultModel>(Seq::empty()),
{
    reveal(crate::emit::client_getter);
    reveal(crate::emit::getter_body);
    reveal(prop_decl);
    if p.access != "write"@ {
        assert(crate::emit::client_getter(iname, p)->Ok_0 =~= client_getter_text(iname, p, sig_type(p.typ, true)->Ok_0));
    }
}

proof fn lemma_client_setter(iname: Seq<char>, p: PropModel)
    requires
        crate::emit::client_setter(iname, p) is Ok,
    ensures
        writable(p.access) ==> sig_type(p.typ, true) is Ok && crate::emit::client_setter(iname, p)
            == Ok::<Seq<char>, FaultModel>(client_setter_text(iname, p, sig_type(p.typ, true)->Ok_0)),
        !writable(p.access) ==> crate::emit::client_setter(iname, p) == Ok::<Seq<char>, FaultModel>(Seq::empty()),
{
    reveal(crate::emit::client_setter);
    reveal(crate::emit::setter_body);
    reveal(prop_decl);
    if writable(p.access) {
        assert(crate::emit::client_setter(iname, p)->Ok_0 =~= client_setter_text(iname, p, sig_type(p.typ, true)->Ok_0));
    }
}

/// The client implementation of an interface has a getter for each property that can be
/// read and a setter for each property that can be written, and none for the others.
pub proof fn client_serves_properties(i: IntfModel, k: int)
    requires
        0 <= k < i.props.len(),
        intf_client(i) is Ok,
    ensures
        i.props[k].access != "write"@ ==> sig_type(i.props[k].typ, true) is Ok && occurs(
            client_getter_text(i.name, i.props[k], sig_type(i.props[k].typ, true)->Ok_0),
            intf_client(i)->Ok_0,
        ),
        writable(i.props[k].access) ==> sig_type(i.props[k].typ, true) is Ok && occurs(
            client_setter_text(i.name, i.props[k], sig_type(i.props[k].typ, true)->Ok_0),
            intf_client(i)->Ok_0,
        ),
        i.props[k].access == "write"@ ==> crate::emit::client_getter(i.name, i.props[k]) == Ok::<Seq<char>, FaultModel>(
            Seq::empty(),
        ),
        !writable(i.props[k].access) ==> crate::emit::client_setter(i.name, i.props[k]) == Ok::<Seq<char>, FaultModel>(
            Seq::empty(),
        ),
{
    let p = i.props[k];
    reveal(intf_client);
    let fg = crate::emit::client_getter_fn(i.name);
    let fs = crate::emit::client_setter_fn(i.name);
    lemma_emit_all_part(i.props, fg, k);
    lemma_emit_all_part(i.props, fs, k);
    assert(fg(p) == crate::emit::client_getter(i.name, p));
    assert(fs(p) == crate::emit::client_setter(i.name, p));
    lemma_client_getter(i.name, p);
    lemma_client_setter(i.name, p);
    let t = intf_client(i)->Ok_0;
    let h = "\nimpl<'a, C: ::std::ops::Deref<Target=::dbus::Connection>> "@ + crate::names::camel(i.name)
        + " for ::dbus::ConnPath<'a, C> {\n"@;
    let tm = emit_all(i.methods, client_method_fn(i.name))->Ok_0;
    let tg = emit_all(i.props, fg)->Ok_0;
    let ts = emit_all(i.props, fs)->Ok_0;
    assert(t =~= (h + tm) + tg + (ts + "}\n"@));
    assert(t =~= (h + tm + tg) + ts + "}\n"@);
    lemma_occurs_in(h + tm, tg, ts + "}\n"@);
    lemma_occurs_in(h + tm + tg, ts, "}\n"@);
    if p.access != "write"@ {
        lemma_occurs_trans(client_getter_text(i.name, p, sig_type(p.typ, true)->Ok_0), tg, t);
    }
    if writable(p.access) {
        lemma_occurs_trans(client_setter_text(i.name, p, sig_type(p.typ, true)->Ok_0), ts, t);
    }
}

/// The trait of an interface and its client implementation carry the interface's name in
/// camel case; the client implementation is that trait's, for a connection path.
pub proof fn names_of_interface(i: IntfModel)
    ensures
        intf_decl(i) matches Ok(t) ==> ("\npub trait "@ + crate::names::camel(i.name) + " {\n"@).is_prefix_of(t),
        intf_client(i) matches Ok(t) ==> ("\nimpl<'a, C: ::std::ops::Deref<Target=::dbus::Connection>> "@
            + crate::names::camel(i.name) + " for ::dbus::ConnPath<'a, C> {\n"@).is_prefix_of(t),
{
    reveal(intf_decl);
    reveal(intf_client);
    if let Ok(t) = intf_decl(i) {
        let h = "\npub trait "@ + crate::names::camel(i.name) + " {\n"@;
        assert(t.subrange(0, h.len() as int) =~= h);
    }
    if let Ok(t) = intf_client(i) {
        let h = "\nimpl<'a, C: ::std::ops::Deref<Target=::dbus::Connection>> "@ + crate::names::camel(i.name)
            + " for ::dbus::ConnPath<'a, C> {\n"@;
        assert(t.subrange(0, h.len() as int) =~= h);
    }
}

/// The text of each method stands in the client implementation.
proof fn lemma_client_method_in(i: IntfModel, k: int)
    requires
        0 <= k < i.methods.len(),
        intf_client(i) is Ok,
    ensures
        client_method(i.name, i.methods[k]) is Ok,
        occurs(client_method(i.name, i.methods[k])->Ok_0, intf_client(i)->Ok_0),
{
    reveal(intf_client);
    lemma_emit_all_part(i.methods, client_method_fn(i.name), k);
    let cm = client_method(i.name, i.methods[k])->Ok_0;
    let t = intf_client(i)->Ok_0;
    let tm = emit_all(i.methods, client_method_fn(i.name))->Ok_0;
    let h = "\nimpl<'a, C: ::std::ops::Deref<Target=::dbus::Connection>> "@ + crate::names::camel(i.name)
        + " for ::dbus::ConnPath<'a, C> {\n"@;
    let rest2 = t.subrange((h.len() + tm.len()) as int, t.len() as int);
    assert(t =~= h + tm + rest2);
    lemma_occurs_in(h, tm, rest2);
    lemma_occurs_trans(cm, tm, t);
}

proof fn lemma_call_names(iname: Seq<char>, m: MethodModel)
    requires
        client_method(iname, m) is Ok,
    ensures
        occurs(
            "        let mut m = try!(self.method_call_with_args(&\""@ + iname + "\".into(), &\""@ + m.name
                + "\".into(), |"@,
            client_method(iname, m)->Ok_0,
        ),
{
    reveal(client_method);
    reveal(call_text);
    let x = "        let mut m = try!(self.method_call_with_args(&\""@ + iname + "\".into(), &\""@ + m.name
        + "\".into(), |"@;
    let ct = call_text(iname, m);
    let rest = (if m.iargs.len() > 0 { "msg"@ } else { "_"@ }) + "| {\n"@ + (if m.iargs.len() > 0 {
        "            let mut i = ::dbus::arg::IterAppend::new(msg);\n"@
    } else {
        Seq::empty()
    }) + concat_all(m.iargs, append_arg_fn()) + "        }));\n"@ + "        try!(m.as_result());\n"@;
    assert(ct =~= " {\n"@ + x + rest);
    lemma_occurs_in(" {\n"@, x, rest);
    let cm = client_method(iname, m)->Ok_0;
    let d = crate::emit::method_decl(m)->Ok_0;
    let r = crate::emit::client_reply(m.oargs)->Ok_0;
    assert(cm =~= ("\n"@ + d) + ct + (r + "    }\n"@));
    lemma_occurs_in("\n"@ + d, ct, r + "    }\n"@);
    lemma_occurs_trans(x, ct, cm);
}

/// The client's call of each method names the interface and then the method.
pub proof fn client_calls_by_name(i: IntfModel, k: int)
    requires
        0 <= k < i.methods.len(),
        intf_client(i) is Ok,
    ensures
        occurs(
            "        let mut m = try!(self.method_call_with_args(&\""@ + i.name + "\".into(), &\""@
                + i.methods[k].name + "\".into(), |"@,
            intf_client(i)->Ok_0,
        ),
{
    lemma_client_method_in(i, k);
    lemma_call_names(i.name, i.methods[k]);
    lemma_occurs_trans(
        "        let mut m = try!(self.method_call_with_args(&\""@ + i.name + "\".into(), &\""@ + i.methods[k].name
            + "\".into(), |"@,
        client_method(i.name, i.methods[k])->Ok_0,
        intf_client(i)->Ok_0,
    );
}

/// The client implements each method with the signature that the trait declares for it.
pub proof fn client_matches_trait(i: IntfModel, k: int)
    requires
        0 <= k < i.methods.len(),
        intf_decl(i) is Ok,
        intf_client(i) is Ok,
    ensures
        crate::emit::method_decl(i.methods[k]) is Ok,
        occurs(crate::emit::method_decl(i.methods[k])->Ok_0 + ";\n"@, intf_decl(i)->Ok_0),
        occurs("\n"@ + crate::emit::method_decl(i.methods[k])->Ok_0 + " {\n"@, intf_client(i)->Ok_0),
{
    let m = i.methods[k];
    reveal(intf_decl);
    let f = crate::emit::method_item_fn();
    lemma_emit_all_part(i.methods, f, k);
    let d = crate::emit::method_decl(m)->Ok_0;
    assert(f(m)->Ok_0 == d + ";\n"@);
    let t = intf_decl(i)->Ok_0;
    let h = "\npub trait "@ + crate::names::camel(i.name) + " {\n"@;
    let tm = emit_all(i.methods, f)->Ok_0;
    let rest = t.subrange((h.len() + tm.len()) as int, t.len() as int);
    assert(t =~= h + tm + rest);
    lemma_occurs_in(h, tm, rest);
    lemma_occurs_trans(d + ";\n"@, tm, t);
    lemma_client_method_in(i, k);
    reveal(client_method);
    reveal(call_text);
    let cm = client_method(i.name, m)->Ok_0;
    let x = "\n"@ + d + " {\n"@;
    let after = cm.subrange(x.len() as int, cm.len() as int);
    assert(cm =~= Seq::<char>::empty() + x + after);
    lemma_occurs_in(Seq::empty(), x, after);
    lemma_occurs_trans(x, cm, intf_client(i)->Ok_0);
}

/// The object-tree function of an interface is named after the interface in snake case,
/// serves the interface's trait in camel case, registers the interface under its name, and
/// returns the interface.
pub proof fn tree_function_names(i: IntfModel, mt: Seq<char>)
    requires
        intf_tree(i, mt) is Ok,
    ensures
        ("\npub fn "@ + snake(i.name) + "_server<F, T, D>(factory: &::dbus::tree::Factory<::dbus::tree::"@ + mt
            + "<D>, D>, data: D::Interface, f: F) -> ::dbus::tree::Interface<::dbus::tree::"@ + mt + "<D>, D>\n"@
            + "where D: ::dbus::tree::DataType, D::Method: Default, T: "@ + crate::names::camel(i.name) + ", \n"@).is_prefix_of(
            intf_tree(i, mt)->Ok_0,
        ),
        occurs("    let i = factory.interface(\""@ + i.name + "\", data);\n"@, intf_tree(i, mt)->Ok_0),
        ("    i\n"@ + "}\n"@).is_suffix_of(intf_tree(i, mt)->Ok_0),
{
    reveal(intf_tree);
    reveal(crate::emit::tree_header);
    let t = intf_tree(i, mt)->Ok_0;
    let h = crate::emit::tree_header(i, mt);
    let tm = emit_all(i.methods, tree_method_fn(mt))->Ok_0;
    let tp = emit_all(i.props, tree_prop_fn())->Ok_0;
    let tail = "    i\n"@ + "}\n"@;
    assert(t =~= h + (tm + tp) + tail);
    let a = "\npub fn "@ + snake(i.name) + "_server<F, T, D>(factory: &::dbus::tree::Factory<::dbus::tree::"@ + mt
        + "<D>, D>, data: D::Interface, f: F) -> ::dbus::tree::Interface<::dbus::tree::"@ + mt + "<D>, D>\n"@
        + "where D: ::dbus::tree::DataType, D::Method: Default, T: "@ + crate::names::camel(i.name) + ", \n"@;
    let b = (if i.props.len() > 0 { "    D::Property: Default,"@ } else { Seq::<char>::empty() })
        + "    F: 'static + for <'z> Fn(& 'z ::dbus::tree::MethodInfo<::dbus::tree::"@ + mt + "<D>, D>) -> & 'z T {\n"@;
    let x = "    let i = factory.interface(\""@ + i.name + "\", data);\n"@;
    let c = "    let f = ::std::sync::Arc::new(f);"@;
    assert(h =~= a + b + x + c);
    assert(t.subrange(0, a.len() as int) =~= a);
    assert(t =~= (a + b) + x + (c + (tm + tp) + tail));
    lemma_occurs_in(a + b, x, c + (tm + tp) + tail);
    assert(t.subrange(t.len() - tail.len(), t.len() as int) =~= tail);
}

} // verus!
