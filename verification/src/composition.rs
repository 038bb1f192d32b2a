use vstd::prelude::*;
use crate::emit::{cat, emit_all, intf_client, intf_decl, intf_tree, Emitted};
use crate::errors::FaultModel;
use crate::generate::{
    end_element, end_interface, generated, initial, interface_code, run, start_element, step, GenModel,
};
use crate::laws::{code_ignores_signals, same_but_signals};
use crate::model::IntfModel;
use crate::xmlsrc::{attr_value, XmlItemModel};

verus! {

// ----- generation does not read the code generated so far -----

/// `st` with `p` in front of the code generated so far.
pub open spec fn with_prefix(p: Seq<char>, st: GenModel) -> GenModel {
    GenModel { out: p + st.out, ..st }
}

/// `st` with the code generated so far replaced by `o`.
pub open spec fn with_out(o: Seq<char>, st: GenModel) -> GenModel {
    GenModel { out: o, ..st }
}

/// A step's outcome with `p` in front of the code generated so far.
pub open spec fn shifted(p: Seq<char>, r: Result<GenModel, FaultModel>) -> Result<GenModel, FaultModel> {
    match r {
        Ok(st) => Ok(with_prefix(p, st)),
        Err(f) => Err(f),
    }
}

/// A step's outcome with the code generated so far replaced by `o`.
pub open spec fn out_set(o: Seq<char>, r: Result<GenModel, FaultModel>) -> Result<GenModel, FaultModel> {
    match r {
        Ok(st) => Ok(with_out(o, st)),
        Err(f) => Err(f),
    }
}

/// The end of an `interface` element: the only event that generates code.
pub open spec fn is_intf_end(e: XmlItemModel) -> bool {
    e matches XmlItemModel::End { name } && name == "interface"@
}

proof fn lemma_step_out(st: GenModel, e: XmlItemModel, mt: Option<Seq<char>>, p: Seq<char>, o: Seq<char>)
    ensures
        step(with_prefix(p, st), e, mt) == shifted(p, step(st, e, mt)),
        !is_intf_end(e) ==> step(with_out(o, st), e, mt) == out_set(o, step(st, e, mt)),
        !is_intf_end(e) ==> step(st, e, mt) == step(st, e, None),
        !is_intf_end(e) ==> (step(st, e, mt) matches Ok(s) ==> s.out == st.out),
{
    broadcast use crate::text::lemma_concat_assoc;

    match e {
        XmlItemModel::Start { name, attributes } => {
            assert(start_element(with_prefix(p, st), name, attributes) =~~= shifted(p, start_element(st, name, attributes)));
            assert(start_element(with_out(o, st), name, attributes) =~~= out_set(o, start_element(st, name, attributes)));
        },
        XmlItemModel::End { name } => {
            assert(end_element(with_prefix(p, st), name, mt) =~~= shifted(p, end_element(st, name, mt)));
            if name != "interface"@ {
                assert(end_element(with_out(o, st), name, mt) =~~= out_set(o, end_element(st, name, mt)));
            }
        },
        _ => {},
    }
}

// ----- documents one after the other -----

/// The events `evs` succeed and leave no element open.
pub open spec fn closes_all(evs: Seq<XmlItemModel>, mt: Option<Seq<char>>) -> bool {
    run(evs, mt) matches Ok(st) && st.intf is None && st.method is None && st.signal is None
        && st.prop is None
}

proof fn lemma_run_after(a: Seq<XmlItemModel>, b: Seq<XmlItemModel>, mt: Option<Seq<char>>)
    requires
        closes_all(a, mt),
    ensures
        run(a + b, mt) == shifted(run(a, mt)->Ok_0.out, run(b, mt)),
    decreases b.len(),
{
    let st1 = run(a, mt)->Ok_0;
    let p = st1.out;
    if b.len() == 0 {
        assert(a + b =~= a);
        assert(with_prefix(p, initial()) =~~= st1);
    } else {
        let bl = b.drop_last();
        assert((a + b).drop_last() =~= a + bl);
        assert((a + b).last() == b.last());
        lemma_run_after(a, bl, mt);
        match run(bl, mt) {
            Ok(s) => {
                lemma_step_out(s, b.last(), mt, p, p);
            },
            Err(_) => {},
        }
    }
}

/// Where the events of a first part succeed and leave no element open (as a sequence of
/// complete `interface` elements does), the code generated from it followed by a second
/// part is the first part's code followed by the second part's; an error of the second
/// part is the outcome of the whole.
pub proof fn documents_concatenate(a: Seq<XmlItemModel>, b: Seq<XmlItemModel>, mt: Option<Seq<char>>)
    requires
        closes_all(a, mt),
    ensures
        generated(a + b, mt) == cat(generated(a, mt), generated(b, mt)),
{
    lemma_run_after(a, b, mt);
}

// ----- signals do not matter -----

/// Two states that differ at most in the signals of the open interface.
pub open spec fn sim(x: GenModel, y: GenModel) -> bool {
    &&& x.out == y.out
    &&& x.method == y.method
    &&& x.signal == y.signal
    &&& x.prop == y.prop
    &&& (x.intf is None <==> y.intf is None)
    &&& x.intf is Some ==> same_but_signals(x.intf->Some_0, y.intf->Some_0)
}

/// Two outcomes that are both successes with such states, or the same failure.
pub open spec fn sim_outcome(r1: Result<GenModel, FaultModel>, r2: Result<GenModel, FaultModel>) -> bool {
    match (r1, r2) {
        (Ok(x), Ok(y)) => sim(x, y),
        (Err(f), Err(g)) => f == g,
        _ => false,
    }
}

proof fn lemma_step_sim(x: GenModel, y: GenModel, e: XmlItemModel, mt: Option<Seq<char>>)
    requires
        sim(x, y),
    ensures
        sim_outcome(step(x, e, mt), step(y, e, mt)),
{
    if let XmlItemModel::End { name } = e {
        if name == "interface"@ && x.intf is Some {
            code_ignores_signals(x.intf->Some_0, y.intf->Some_0, mt);
        }
    }
}

proof fn lemma_run_sim(a: Seq<XmlItemModel>, b: Seq<XmlItemModel>, p: Seq<XmlItemModel>, mt: Option<Seq<char>>)
    requires
        sim_outcome(run(a, mt), run(b, mt)),
    ensures
        sim_outcome(run(a + p, mt), run(b + p, mt)),
    decreases p.len(),
{
    if p.len() == 0 {
        assert(a + p =~= a);
        assert(b + p =~= b);
    } else {
        let pl = p.drop_last();
        assert((a + p).drop_last() =~= a + pl);
        assert((b + p).drop_last() =~= b + pl);
        assert((a + p).last() == p.last());
        assert((b + p).last() == p.last());
        lemma_run_sim(a, b, pl, mt);
        match (run(a + pl, mt), run(b + pl, mt)) {
            (Ok(x), Ok(y)) => lemma_step_sim(x, y, p.last(), mt),
            _ => {},
        }
    }
}

/// A complete `signal` element as events: its start with a `name` attribute; then starts
/// of `arg` elements that each have a `type` attribute, ends of `arg` elements and other
/// events (text, comments); then its end.
pub open spec fn signal_events(sig: Seq<XmlItemModel>) -> bool {
    &&& sig.len() >= 2
    &&& sig[0] matches XmlItemModel::Start { name, attributes } && name == "signal"@
        && attr_value(attributes, "name"@) is Some
    &&& sig.last() matches XmlItemModel::End { name } && name == "signal"@
    &&& forall|k: int|
        1 <= k < sig.len() - 1 ==> match #[trigger] sig[k] {
            XmlItemModel::Start { name, attributes } => name == "arg"@ && attr_value(attributes, "type"@) is Some,
            XmlItemModel::End { name } => name == "arg"@,
            XmlItemModel::Other => true,
            XmlItemModel::Failure(_) => false,
        }
}

proof fn lemma_element_names_differ()
    ensures
        "arg"@ != "interface"@,
        "arg"@ != "method"@,
        "arg"@ != "signal"@,
        "arg"@ != "property"@,
        "signal"@ != "interface"@,
        "signal"@ != "method"@,
{
    reveal_strlit("arg");
    reveal_strlit("interface");
    reveal_strlit("method");
    reveal_strlit("signal");
    reveal_strlit("property");
    assert("signal"@[0] != "method"@[0]);
    assert("arg"@[0] != "interface"@[0]);
    assert("arg"@[0] != "property"@[0]);
}

/// Inside the signal element: after its start and any of its children, the state is as
/// it was but for the open signal.
proof fn lemma_signal_inside(pre: Seq<XmlItemModel>, sig: Seq<XmlItemModel>, mt: Option<Seq<char>>, st: GenModel, k: int)
    requires
        signal_events(sig),
        1 <= k <= sig.len() - 1,
        run(pre, mt) == Ok::<GenModel, FaultModel>(st),
        st.intf is Some,
        st.signal is None,
    ensures
        run(pre + sig.take(k), mt) matches Ok(x) && x.out == st.out && x.intf == st.intf && x.method
            == st.method && x.prop == st.prop && x.signal is Some,
    decreases k,
{
    lemma_element_names_differ();
    assert((pre + sig.take(k)).drop_last() =~= pre + sig.take(k - 1));
    assert((pre + sig.take(k)).last() == sig[k - 1]);
    if k == 1 {
        assert(pre + sig.take(0) =~= pre);
    } else {
        lemma_signal_inside(pre, sig, mt, st, k - 1);
    }
}

/// Inside an open interface with no open signal, the events of a complete signal element
/// leave the state as it was, but for the signals of the open interface.
proof fn lemma_signal_block(pre: Seq<XmlItemModel>, sig: Seq<XmlItemModel>, mt: Option<Seq<char>>)
    requires
        signal_events(sig),
        run(pre, mt) matches Ok(st) ==> st.intf is Some && st.signal is None,
    ensures
        sim_outcome(run(pre + sig, mt), run(pre, mt)),
{
    lemma_element_names_differ();
    match run(pre, mt) {
        Err(f) => {
            assert((pre + sig).take(pre.len() as int) =~= pre);
            crate::generate::lemma_run_stops(pre + sig, mt, pre.len() as int);
        },
        Ok(st) => {
            let n: int = sig.len() as int;
            lemma_signal_inside(pre, sig, mt, st, n - 1);
            assert((pre + sig.take(n)).drop_last() =~= pre + sig.take(n - 1));
            assert((pre + sig.take(n)).last() == sig[n - 1]);
            assert(sig.take(n) =~= sig);
        },
    }
}

/// Removing a complete `signal` element (one with a `name` attribute whose children are
/// `arg` elements with a `type` attribute) from inside an open interface changes neither
/// whether generation succeeds nor the code it generates.
pub proof fn signals_do_not_matter(
    pre: Seq<XmlItemModel>,
    sig: Seq<XmlItemModel>,
    post: Seq<XmlItemModel>,
    mt: Option<Seq<char>>,
)
    requires
        signal_events(sig),
        run(pre, mt) matches Ok(st) ==> st.intf is Some && st.signal is None,
    ensures
        generated(pre + sig + post, mt) == generated(pre + post, mt),
{
    lemma_signal_block(pre, sig, mt);
    lemma_run_sim(pre + sig, pre, post, mt);
}

// ----- with and without a method type -----

pub open spec fn intf_code_fn(mt: Option<Seq<char>>) -> spec_fn(IntfModel) -> Emitted {
    |i: IntfModel| interface_code(i, mt)
}

/// The code of the interfaces `is`, one after the other.
pub open spec fn code_of(is: Seq<IntfModel>, mt: Option<Seq<char>>) -> Emitted {
    emit_all(is, intf_code_fn(mt))
}

/// The interfaces whose elements the events close, in order.
pub open spec fn closed_interfaces(evs: Seq<XmlItemModel>, mt: Option<Seq<char>>) -> Seq<IntfModel>
    decreases evs.len(),
{
    if evs.len() == 0 {
        Seq::empty()
    } else {
        let prev = closed_interfaces(evs.drop_last(), mt);
        match run(evs.drop_last(), mt) {
            Ok(s) => if is_intf_end(evs.last()) && s.intf is Some {
                prev.push(s.intf->Some_0)
            } else {
                prev
            },
            Err(_) => prev,
        }
    }
}

/// With a method type, the code of an interface is its code without one, followed by the
/// function that builds it for an object tree.
pub proof fn interface_code_with_tree(i: IntfModel, mt: Seq<char>)
    ensures
        interface_code(i, Some(mt)) == cat(interface_code(i, None), intf_tree(i, mt)),
{
    broadcast use crate::text::lemma_concat_assoc;

    if let (Ok(a), Ok(b)) = (intf_decl(i), intf_client(i)) {
        assert(b + Seq::<char>::empty() =~= b);
    }
}

/// The code generated so far is the code of the interfaces closed so far.
proof fn lemma_out_is_code(evs: Seq<XmlItemModel>, mt: Option<Seq<char>>)
    ensures
        run(evs, mt) matches Ok(st) ==> code_of(closed_interfaces(evs, mt), mt) == Ok::<Seq<char>, FaultModel>(st.out),
    decreases evs.len(),
{
    if evs.len() > 0 {
        let dl = evs.drop_last();
        let e = evs.last();
        lemma_out_is_code(dl, mt);
        if let Ok(s) = run(dl, mt) {
            let prev = closed_interfaces(dl, mt);
            lemma_step_out(s, e, mt, Seq::empty(), Seq::empty());
            if is_intf_end(e) && s.intf is Some {
                let i = s.intf->Some_0;
                assert(prev.push(i).drop_last() =~= prev);
            }
        }
    }
}

/// Without a method type, the events give the same states, but for the code, and close
/// the same interfaces.
proof fn lemma_without_tree(evs: Seq<XmlItemModel>, mt: Seq<char>)
    ensures
        run(evs, Some(mt)) matches Ok(x) ==> (run(evs, None) matches Ok(y) && y == with_out(y.out, x)
            && closed_interfaces(evs, None) == closed_interfaces(evs, Some(mt))),
    decreases evs.len(),
{
    if evs.len() == 0 {
        assert(initial() =~~= with_out(initial().out, initial()));
    } else {
        let dl = evs.drop_last();
        let e = evs.last();
        lemma_without_tree(dl, mt);
        if let (Ok(xs), Ok(ys)) = (run(dl, Some(mt)), run(dl, None)) {
            lemma_step_out(xs, e, Some(mt), Seq::empty(), ys.out);
            lemma_step_out(xs, e, None, Seq::empty(), ys.out);
            if is_intf_end(e) {
                if let Ok(x) = step(xs, e, Some(mt)) {
                    let i = xs.intf->Some_0;
                    interface_code_with_tree(i, mt);
                    assert(end_interface(ys, None) matches Ok(y) && y =~~= with_out(y.out, x));
                }
            } else {
                if let Ok(x) = step(xs, e, Some(mt)) {
                    assert(with_out(ys.out, xs) == ys);
                    assert(with_out(ys.out, x) =~~= with_out(with_out(ys.out, x).out, x));
                }
            }
        }
    }
}

/// Where generation with method type `mt` succeeds, generation without one succeeds too,
/// and the two codes are those of the same interfaces: without a method type each
/// interface's code lacks only the function that builds it for an object tree (see
/// [`interface_code_with_tree`]). For a single interface, the code without a method type
/// is thus a proper beginning of the code with one.
pub proof fn trees_are_the_only_difference(evs: Seq<XmlItemModel>, mt: Seq<char>)
    requires
        generated(evs, Some(mt)) is Ok,
    ensures
        generated(evs, None) is Ok,
        generated(evs, None) == code_of(closed_interfaces(evs, Some(mt)), None),
        generated(evs, Some(mt)) == code_of(closed_interfaces(evs, Some(mt)), Some(mt)),
        closed_interfaces(evs, Some(mt)).len() == 1 ==> (generated(evs, None)->Ok_0).is_prefix_of(
            generated(evs, Some(mt))->Ok_0,
        ) && generated(evs, None)->Ok_0.len() < generated(evs, Some(mt))->Ok_0.len(),
{
    lemma_without_tree(evs, mt);
    lemma_out_is_code(evs, Some(mt));
    lemma_out_is_code(evs, None);
    let is = closed_interfaces(evs, Some(mt));
    if is.len() == 1 {
        let i = is[0];
        assert(is.drop_last() =~= Seq::<IntfModel>::empty());
        interface_code_with_tree(i, mt);
        let t0 = interface_code(i, None)->Ok_0;
        let tt = intf_tree(i, mt)->Ok_0;
        assert(Seq::<char>::empty() + t0 =~= t0);
        assert(Seq::<char>::empty() + (t0 + tt) =~= t0 + tt);
        crate::text::lemma_prefix_of_concat(t0, tt);
        reveal(intf_tree);
        reveal(crate::emit::tree_header);
        reveal_strlit("\npub fn ");
        assert(tt.len() > 0);
        assert(is.last() == i);
        assert(code_of(is, None) == cat(code_of(is.drop_last(), None), interface_code(i, None)));
        assert(code_of(is, Some(mt)) == cat(code_of(is.drop_last(), Some(mt)), interface_code(i, Some(mt))));
        assert(generated(evs, None)->Ok_0 == t0);
        assert(generated(evs, Some(mt))->Ok_0 == t0 + tt);
    }
}

} // verus!
