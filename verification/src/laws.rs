use vstd::prelude::*;
use crate::emit::{
    client_getter, client_getter_fn, client_method, client_method_fn, client_setter, client_setter_fn, emit_all,
    in_param_fn, intf_client, intf_decl, intf_tree, lemma_emit_all_ok, method_decl, method_item_fn,
    more_type_fn, prop_decl, prop_items, prop_items_fn, read_arg_fn, ret_decl, tree_method, tree_method_fn,
    tree_prop, tree_prop_fn, written, Emitted,
};
use crate::errors::{ErrorModel, FaultModel, GenError};
use crate::generate::interface_code;
use crate::model::{arg_type, can_get, can_set, ArgModel, IntfModel, MethodModel, PropModel};
use crate::names::{camel, camel_piece, is_alnum, is_digit, is_lower, is_upper, snake, snake_piece, upper};
use crate::sig::{parse_fields, parse_sig, sig_type};

verus! {

// ----- names -----

proof fn lemma_upper_alnum(c: char)
    requires
        is_alnum(c),
    ensures
        is_alnum(upper(c)),
        !is_lower(upper(c)),
{
}

/// Every character of a camel-case form is an ASCII letter or digit, and the form does
/// not start with a lower-case letter.
pub proof fn camel_chars(s: Seq<char>)
    ensures
        forall|k: int| 0 <= k < camel(s).len() ==> is_alnum(#[trigger] camel(s)[k]),
        camel(s).len() > 0 ==> !is_lower(camel(s)[0]),
    decreases s.len(),
{
    if s.len() > 0 {
        let t = s.drop_last();
        let n = s.len() - 1;
        camel_chars(t);
        if is_alnum(s[n]) {
            lemma_upper_alnum(s[n]);
        }
        if n > 0 && is_alnum(s[n - 1]) {
            assert(t.last() == s[n - 1]);
            assert(camel(t).len() > 0);
        }
        let c = camel(s);
        assert forall|k: int| 0 <= k < c.len() implies is_alnum(#[trigger] c[k]) by {
            if k < camel(t).len() {
                assert(c[k] == camel(t)[k]);
            }
        }
    }
}

/// The camel-case form of text made of ASCII letters and digits alone is that text with
/// its first character in upper case.
proof fn lemma_camel_of_alnum(t: Seq<char>)
    requires
        forall|k: int| 0 <= k < t.len() ==> is_alnum(#[trigger] t[k]),
    ensures
        camel(t) == (if t.len() == 0 { t } else { t.update(0, upper(t[0])) }),
    decreases t.len(),
{
    if t.len() > 0 {
        let u = t.drop_last();
        assert forall|k: int| 0 <= k < u.len() implies is_alnum(#[trigger] u[k]) by {
            assert(u[k] == t[k]);
        }
        lemma_camel_of_alnum(u);
        if t.len() == 1 {
            assert(camel(t) =~= t.update(0, upper(t[0])));
        } else {
            assert(is_alnum(t[t.len() - 2]));
            assert(camel(t) =~= t.update(0, upper(t[0])));
        }
    }
}

/// Turning a name into camel case twice gives what turning it once gives.
pub proof fn camel_idempotent(s: Seq<char>)
    ensures
        camel(camel(s)) == camel(s),
{
    let t = camel(s);
    camel_chars(s);
    lemma_camel_of_alnum(t);
    if t.len() > 0 {
        assert(upper(t[0]) == t[0]);
        assert(t.update(0, upper(t[0])) =~= t);
    }
}

/// Every character of a snake-case form is a lower-case ASCII letter, a digit or `_`.
pub proof fn snake_chars(s: Seq<char>)
    ensures
        forall|k: int|
            0 <= k < snake(s).len() ==> is_lower(#[trigger] snake(s)[k]) || is_digit(snake(s)[k])
                || snake(s)[k] == '_',
    decreases s.len(),
{
    if s.len() > 0 {
        let t = s.drop_last();
        snake_chars(t);
        let c = snake(s);
        let piece = snake_piece(s, s.len() - 1);
        assert forall|k: int| 0 <= k < c.len() implies is_lower(#[trigger] c[k]) || is_digit(c[k]) || c[k] == '_' by {
            if k < snake(t).len() {
                assert(c[k] == snake(t)[k]);
            } else {
                assert(c[k] == piece[k - snake(t).len()]);
            }
        }
    }
}

/// A character that is not an ASCII letter or digit separates words: the camel-case form
/// of two texts joined by it is the camel-case forms of the two, one after the other.
pub proof fn camel_separates(a: Seq<char>, c: char, b: Seq<char>)
    requires
        !is_alnum(c),
    ensures
        camel(a + seq![c] + b) == camel(a) + camel(b),
    decreases b.len(),
{
    let s = a + seq![c] + b;
    if b.len() == 0 {
        assert(s.drop_last() =~= a);
        assert(camel(a) + Seq::<char>::empty() =~= camel(a));
    } else {
        let bl = b.drop_last();
        camel_separates(a, c, bl);
        assert(s.drop_last() =~= a + seq![c] + bl);
        let n = s.len() - 1;
        assert(s[n] == b.last());
        if b.len() == 1 {
            assert(s[n - 1] == c);
            assert(bl.len() == 0);
            assert(b.drop_last() =~= bl);
        } else {
            assert(s[n - 1] == b[b.len() - 2]);
        }
        assert(camel_piece(s, n) == camel_piece(b, b.len() - 1));
        assert(camel(a) + camel(bl) + camel_piece(b, b.len() - 1) =~= camel(a) + (camel(bl) + camel_piece(
            b,
            b.len() - 1,
        )));
    }
}

/// The camel-case form of a text made of ASCII letters and digits alone is that text with
/// its first character in upper case.
pub proof fn camel_of_word(t: Seq<char>)
    requires
        forall|k: int| 0 <= k < t.len() ==> is_alnum(#[trigger] t[k]),
    ensures
        camel(t) == (if t.len() == 0 { t } else { t.update(0, upper(t[0])) }),
        t.len() > 0 && 'a' <= t[0] <= 'z' ==> camel(t)[0] == ((t[0] as int) - 32) as char,
{
    lemma_camel_of_alnum(t);
}

/// The snake-case form of two texts one after the other is their snake-case forms one
/// after the other, with `_` between them where the second starts with an upper-case
/// letter that follows a character of the first that is not one.
pub proof fn snake_joins(a: Seq<char>, b: Seq<char>)
    ensures
        snake(a + b) == snake(a) + (if a.len() > 0 && b.len() > 0 && !is_upper(a.last()) && is_upper(b[0]) {
            seq!['_']
        } else {
            Seq::empty()
        }) + snake(b),
    decreases b.len(),
{
    let s = a + b;
    let u = if a.len() > 0 && b.len() > 0 && !is_upper(a.last()) && is_upper(b[0]) {
        seq!['_']
    } else {
        Seq::<char>::empty()
    };
    if b.len() == 0 {
        assert(s =~= a);
        assert(snake(a) + u + Seq::<char>::empty() =~= snake(a));
    } else {
        let bl = b.drop_last();
        snake_joins(a, bl);
        assert(s.drop_last() =~= a + bl);
        let n = s.len() - 1;
        assert(s[n] == b.last());
        if b.len() == 1 {
            assert(bl.len() == 0);
            assert(snake(bl) == Seq::<char>::empty());
            assert(snake(b) == snake_piece(b, 0));
            if a.len() > 0 {
                assert(s[n - 1] == a.last());
            }
            let c = b[0];
            if is_upper(c) && a.len() > 0 && !is_upper(a.last()) {
                assert(snake_piece(s, n) =~= seq!['_'] + snake_piece(b, 0));
            } else {
                assert(snake_piece(s, n) == snake_piece(b, 0));
            }
            assert(snake(a + bl) == snake(a) + Seq::<char>::empty() + Seq::<char>::empty()) by {
                assert(a + bl =~= a);
            }
            assert(snake(s) =~= snake(a) + u + snake(b));
        } else {
            assert(s[n - 1] == b[b.len() - 2]);
            assert(bl[0] == b[0]);
            assert(snake_piece(s, n) == snake_piece(b, b.len() - 1));
            assert(snake(a) + u + snake(bl) + snake_piece(b, b.len() - 1) =~= snake(a) + u + (snake(bl)
                + snake_piece(b, b.len() - 1)));
        }
    }
}

/// Lower-case ASCII letters and digits stand for themselves in snake case; an upper-case
/// ASCII letter becomes its lower-case letter; any other character is dropped.
pub proof fn snake_of_char(c: char)
    ensures
        ('a' <= c <= 'z' || '0' <= c <= '9') ==> snake(seq![c]) == seq![c],
        'A' <= c <= 'Z' ==> snake(seq![c]) == seq![((c as int) + 32) as char],
        !('a' <= c <= 'z' || '0' <= c <= '9' || 'A' <= c <= 'Z') ==> snake(seq![c]).len() == 0,
{
    let s = seq![c];
    assert(s.drop_last() =~= Seq::<char>::empty());
    assert(snake(s.drop_last()) == Seq::<char>::empty());
    assert(snake(s) == snake(s.drop_last()) + snake_piece(s, 0));
    assert(Seq::<char>::empty() + snake_piece(s, 0) =~= snake_piece(s, 0));
    if 'a' <= c <= 'z' || '0' <= c <= '9' {
        assert(snake_piece(s, 0) =~= seq![c]);
    }
    if 'A' <= c <= 'Z' {
        assert(snake_piece(s, 0) =~= seq![((c as int) + 32) as char]);
    }
}

// ----- properties -----

/// Every property can be read or written (or both).
pub proof fn prop_accessible(p: PropModel)
    ensures
        can_get(p) || can_set(p),
{
}

// ----- type signatures -----

/// Whether a type is read in its owned or its borrowed form makes no difference to where
/// it ends, or to whether and why reading it fails.
pub proof fn parse_sig_direction(s: Seq<char>, p: int)
    ensures
        match (parse_sig(s, p, true), parse_sig(s, p, false)) {
            (Ok((_, q1)), Ok((_, q2))) => q1 == q2,
            (Err(e1), Err(e2)) => e1 == e2,
            _ => false,
        },
    decreases s.len() - p, 0int,
{
    if 0 <= p < s.len() {
        let c = s[p];
        if c == 'a' {
            if p + 1 < s.len() && s[p + 1] == '{' {
                parse_sig_direction(s, p + 2);
                match parse_sig(s, p + 2, true) {
                    Ok((_, q)) => {
                        if p < q <= s.len() {
                            parse_sig_direction(s, q);
                        }
                    },
                    Err(_) => {},
                }
            } else {
                parse_sig_direction(s, p + 1);
            }
        } else if c == '(' {
            parse_fields_direction(s, p + 1);
        }
    }
}

/// The same, for the fields of a struct.
pub proof fn parse_fields_direction(s: Seq<char>, p: int)
    ensures
        match (parse_fields(s, p, true), parse_fields(s, p, false)) {
            (Ok((_, q1)), Ok((_, q2))) => q1 == q2,
            (Err(e1), Err(e2)) => e1 == e2,
            _ => false,
        },
    decreases s.len() - p, 1int,
{
    if !(0 <= p < s.len() && s[p] == ')') {
        parse_sig_direction(s, p);
        match parse_sig(s, p, true) {
            Ok((_, q)) => {
                if p < q <= s.len() {
                    parse_fields_direction(s, q);
                }
            },
            Err(_) => {},
        }
    }
}

/// A signature has a Rust type in its owned form exactly when it has one in its
/// borrowed form, and fails for the same reason otherwise.
pub proof fn sig_type_direction(s: Seq<char>)
    ensures
        sig_type(s, true) is Ok <==> sig_type(s, false) is Ok,
        sig_type(s, true) is Err ==> sig_type(s, true) == sig_type(s, false),
{
    parse_sig_direction(s, 0);
}

// ----- interfaces -----

/// All argument types are known to have a Rust type.
pub open spec fn args_typed(args: Seq<ArgModel>) -> bool {
    forall|k: int| 0 <= k < args.len() ==> #[trigger] arg_type(args[k]) is Ok
}

proof fn lemma_method_decl_typed(m: MethodModel)
    requires
        method_decl(m) is Ok,
    ensures
        args_typed(m.iargs),
        args_typed(m.oargs),
{
    reveal(method_decl);
    reveal(ret_decl);
    lemma_emit_all_ok(m.iargs, in_param_fn());
    assert forall|k: int| 0 <= k < m.iargs.len() implies #[trigger] arg_type(m.iargs[k]) is Ok by {
        assert(in_param_fn()(m.iargs[k]) is Ok);
    }
    let os = m.oargs;
    if os.len() >= 2 {
        lemma_emit_all_ok(os.skip(1), more_type_fn());
        assert forall|k: int| 0 <= k < os.len() implies #[trigger] arg_type(os[k]) is Ok by {
            if k > 0 {
                assert(os.skip(1)[k - 1] == os[k]);
                assert(more_type_fn()(os.skip(1)[k - 1]) is Ok);
            }
        }
    }
}

proof fn lemma_reads_ok(args: Seq<ArgModel>)
    requires
        args_typed(args),
    ensures
        emit_all(args, read_arg_fn()) is Ok,
{
    lemma_emit_all_ok(args, read_arg_fn());
    assert forall|k: int| 0 <= k < args.len() implies #[trigger] read_arg_fn()(args[k]) is Ok by {
        assert(arg_type(args[k]) is Ok);
    }
}

proof fn lemma_prop_typed(p: PropModel)
    requires
        prop_items(p) is Ok,
    ensures
        sig_type(p.typ, true) is Ok,
        sig_type(p.typ, false) is Ok,
{
    reveal(prop_decl);
    sig_type_direction(p.typ);
}

/// Where an interface's trait can be generated, all its methods' argument types and all
/// its properties' types have Rust types.
proof fn lemma_intf_decl_typed(i: IntfModel)
    requires
        intf_decl(i) is Ok,
    ensures
        forall|k: int| 0 <= k < i.methods.len() ==> #[trigger] method_decl(i.methods[k]) is Ok,
        forall|k: int|
            0 <= k < i.methods.len() ==> args_typed(#[trigger] i.methods[k].iargs) && args_typed(
                i.methods[k].oargs,
            ),
        forall|k: int|
            0 <= k < i.props.len() ==> sig_type(#[trigger] i.props[k].typ, true) is Ok && sig_type(
                i.props[k].typ,
                false,
            ) is Ok,
{
    reveal(intf_decl);
    lemma_emit_all_ok(i.methods, method_item_fn());
    lemma_emit_all_ok(i.props, prop_items_fn());
    assert forall|k: int| 0 <= k < i.methods.len() implies #[trigger] method_decl(i.methods[k]) is Ok by {
        assert(method_item_fn()(i.methods[k]) is Ok);
    }
    assert forall|k: int|
        0 <= k < i.methods.len() implies args_typed(#[trigger] i.methods[k].iargs) && args_typed(
        i.methods[k].oargs,
    ) by {
        assert(method_decl(i.methods[k]) is Ok);
        lemma_method_decl_typed(i.methods[k]);
    }
    assert forall|k: int|
        0 <= k < i.props.len() implies sig_type(#[trigger] i.props[k].typ, true) is Ok && sig_type(
        i.props[k].typ,
        false,
    ) is Ok by {
        assert(prop_items_fn()(i.props[k]) is Ok);
        lemma_prop_typed(i.props[k]);
    }
}

/// Where an interface's trait can be generated, so can its client implementation.
pub proof fn client_follows_trait(i: IntfModel)
    requires
        intf_decl(i) is Ok,
    ensures
        intf_client(i) is Ok,
{
    lemma_intf_decl_typed(i);
    reveal(intf_client);
    reveal(client_method);
    reveal(client_getter);
    reveal(client_setter);
    reveal(prop_decl);
    lemma_emit_all_ok(i.methods, client_method_fn(i.name));
    assert forall|k: int| 0 <= k < i.methods.len() implies #[trigger] client_method_fn(i.name)(i.methods[k]) is Ok by {
        let m = i.methods[k];
        assert(method_decl(m) is Ok);
        assert(args_typed(m.iargs));
        assert(args_typed(m.oargs));
        lemma_reads_ok(m.oargs);
    }
    lemma_emit_all_ok(i.props, client_getter_fn(i.name));
    assert forall|k: int| 0 <= k < i.props.len() implies #[trigger] client_getter_fn(i.name)(i.props[k]) is Ok by {
        assert(sig_type(i.props[k].typ, true) is Ok);
    }
    lemma_emit_all_ok(i.props, client_setter_fn(i.name));
    assert forall|k: int| 0 <= k < i.props.len() implies #[trigger] client_setter_fn(i.name)(i.props[k]) is Ok by {
        assert(sig_type(i.props[k].typ, true) is Ok);
    }
}

/// A text that succeeds, or fails on a property's access value.
pub open spec fn ok_or_access(e: Emitted) -> bool {
    e is Ok || e matches Err(FaultModel::Error(ErrorModel::UnexpectedAccess(_)))
}

proof fn lemma_tree_props(ps: Seq<PropModel>)
    requires
        forall|k: int| 0 <= k < ps.len() ==> sig_type(#[trigger] ps[k].typ, false) is Ok,
    ensures
        ok_or_access(emit_all(ps, tree_prop_fn())),
    decreases ps.len(),
{
    if ps.len() > 0 {
        let qs = ps.drop_last();
        assert forall|k: int| 0 <= k < qs.len() implies sig_type(#[trigger] qs[k].typ, false) is Ok by {
            assert(qs[k] == ps[k]);
        }
        lemma_tree_props(qs);
        reveal(tree_prop);
        assert(sig_type(ps[ps.len() - 1].typ, false) is Ok);
    }
}

/// Where an interface's trait can be generated, its object-tree function can be too,
/// unless a property's access is not `read`, `readwrite` or `write`.
pub proof fn tree_follows_trait(i: IntfModel, mt: Seq<char>)
    requires
        intf_decl(i) is Ok,
    ensures
        ok_or_access(intf_tree(i, mt)),
{
    lemma_intf_decl_typed(i);
    reveal(intf_tree);
    reveal(tree_method);
    lemma_emit_all_ok(i.methods, tree_method_fn(mt));
    assert forall|k: int| 0 <= k < i.methods.len() implies #[trigger] tree_method_fn(mt)(i.methods[k]) is Ok by {
        let m = i.methods[k];
        assert(args_typed(m.iargs));
        lemma_reads_ok(m.iargs);
    }
    lemma_tree_props(i.props);
}

/// The code of an interface fails only where its trait fails, or, with a method type,
/// on a property's access value.
pub proof fn interface_code_fails_in_trait(i: IntfModel, mtype: Option<Seq<char>>)
    ensures
        interface_code(i, mtype) is Err ==> interface_code(i, mtype) == intf_decl(i) || (mtype is Some
            && interface_code(i, mtype) matches Err(FaultModel::Error(ErrorModel::UnexpectedAccess(_)))),
{
    if intf_decl(i) is Ok {
        client_follows_trait(i);
        if let Some(mt) = mtype {
            tree_follows_trait(i, mt);
        }
    }
}

// ----- what the code of an interface depends on -----

/// Two interfaces with the same name, methods and properties; their signals may differ.
pub open spec fn same_but_signals(a: IntfModel, b: IntfModel) -> bool {
    a.name == b.name && a.methods == b.methods && a.props == b.props
}

/// The code of an interface does not depend on its signals.
pub proof fn code_ignores_signals(a: IntfModel, b: IntfModel, mtype: Option<Seq<char>>)
    requires
        same_but_signals(a, b),
    ensures
        intf_decl(a) == intf_decl(b),
        intf_client(a) == intf_client(b),
        forall|mt: Seq<char>| #[trigger] intf_tree(a, mt) == intf_tree(b, mt),
        interface_code(a, mtype) == interface_code(b, mtype),
{
    reveal(intf_decl);
    reveal(intf_client);
    reveal(intf_tree);
    reveal(crate::emit::tree_header);
    assert forall|mt: Seq<char>| #[trigger] intf_tree(a, mt) == intf_tree(b, mt) by {
        assert(crate::emit::tree_header(a, mt) == crate::emit::tree_header(b, mt));
    }
    match mtype {
        Some(mt) => assert(intf_tree(a, mt) == intf_tree(b, mt)),
        None => {},
    }
}

/// The text that a writer appended to `before`, giving `after`.
pub open spec fn added(before: Seq<char>, after: Seq<char>) -> Seq<char> {
    after.subrange(before.len() as int, after.len() as int)
}

/// Two writes of the text `e` to any strings: each keeps what was there, both succeed or
/// both fail with the same error, and where they succeed they append the same text.
proof fn lemma_same_text_written(
    e: Emitted,
    a0: Seq<char>,
    a1: Seq<char>,
    ra: Result<(), GenError>,
    b0: Seq<char>,
    b1: Seq<char>,
    rb: Result<(), GenError>,
)
    requires
        written(a0, a1, ra, e),
        written(b0, b1, rb, e),
    ensures
        a0.is_prefix_of(a1),
        b0.is_prefix_of(b1),
        ra is Ok <==> rb is Ok,
        ra matches Err(x) ==> rb matches Err(y) && x@ == y@,
        ra is Ok ==> a1 == a0 + added(a0, a1) && added(a0, a1) == added(b0, b1),
{
    if let Ok(t) = e {
        assert(added(a0, a1) =~= t);
        assert(added(b0, b1) =~= t);
        crate::text::lemma_prefix_of_concat(a0, t);
        crate::text::lemma_prefix_of_concat(b0, t);
    }
}

/// What `write_intf_client` appends depends neither on the string it appends to nor on
/// the interface's signals; on failure the text already written stays.
pub proof fn client_text_independent(
    a: IntfModel,
    b: IntfModel,
    a0: Seq<char>,
    a1: Seq<char>,
    ra: Result<(), GenError>,
    b0: Seq<char>,
    b1: Seq<char>,
    rb: Result<(), GenError>,
)
    requires
        same_but_signals(a, b),
        written(a0, a1, ra, intf_client(a)),
        written(b0, b1, rb, intf_client(b)),
    ensures
        a0.is_prefix_of(a1),
        b0.is_prefix_of(b1),
        ra is Ok <==> rb is Ok,
        ra matches Err(x) ==> rb matches Err(y) && x@ == y@,
        ra is Ok ==> a1 == a0 + added(a0, a1) && added(a0, a1) == added(b0, b1),
{
    code_ignores_signals(a, b, None);
    lemma_same_text_written(intf_client(a), a0, a1, ra, b0, b1, rb);
}

/// What `write_intf_tree` appends depends neither on the string it appends to nor on the
/// interface's signals; on failure the text already written stays.
pub proof fn tree_text_independent(
    a: IntfModel,
    b: IntfModel,
    mt: Seq<char>,
    a0: Seq<char>,
    a1: Seq<char>,
    ra: Result<(), GenError>,
    b0: Seq<char>,
    b1: Seq<char>,
    rb: Result<(), GenError>,
)
    requires
        same_but_signals(a, b),
        written(a0, a1, ra, intf_tree(a, mt)),
        written(b0, b1, rb, intf_tree(b, mt)),
    ensures
        a0.is_prefix_of(a1),
        b0.is_prefix_of(b1),
        ra is Ok <==> rb is Ok,
        ra matches Err(x) ==> rb matches Err(y) && x@ == y@,
        ra is Ok ==> a1 == a0 + added(a0, a1) && added(a0, a1) == added(b0, b1),
{
    code_ignores_signals(a, b, None);
    assert(intf_tree(a, mt) == intf_tree(b, mt));
    lemma_same_text_written(intf_tree(a, mt), a0, a1, ra, b0, b1, rb);
}

/// Writing the client implementation of the same interface twice appends its text twice.
pub proof fn client_text_repeats(
    i: IntfModel,
    s0: Seq<char>,
    s1: Seq<char>,
    r1: Result<(), GenError>,
    s2: Seq<char>,
    r2: Result<(), GenError>,
)
    requires
        written(s0, s1, r1, intf_client(i)),
        written(s1, s2, r2, intf_client(i)),
        r1 is Ok,
    ensures
        r2 is Ok,
        s2 == s0 + added(s0, s1) + added(s0, s1),
{
    let t = intf_client(i)->Ok_0;
    assert(added(s0, s1) =~= t);
}

} // verus!
