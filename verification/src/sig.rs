use vstd::prelude::*;
use crate::errors::{ErrorModel, Fault, FaultModel, GenError};
use crate::text::chars_of;

verus! {

/// The codes of D-Bus argument types, as `dbus::arg::ArgType` lists them.
pub open spec fn is_arg_type_code(c: char) -> bool {
    ||| c == 'v' || c == 'a' || c == 'r' || c == 's' || c == 'e' || c == 'o'
    ||| c == 'g' || c == 'h' || c == 'b' || c == 'y' || c == 'n' || c == 'i'
    ||| c == 'x' || c == 'q' || c == 'u' || c == 't' || c == 'd' || (c as u32) == 0
}

/// Calls `dbus::arg::ArgType::from_i32` on the code of `c`. As the crate's source shows,
/// it accepts exactly the codes of the listed argument types and returns the type whose
/// code equals its argument; the type is handed back here as that code.
#[verifier::external_body]
fn arg_type_code(c: char) -> (r: Option<i32>)
    ensures
        r == (if is_arg_type_code(c) { Some(c as i32) } else { None::<i32> }),
{
    match dbus::arg::ArgType::from_i32(c as i32) {
        Ok(t) => Some(t as i32),
        Err(_) => None,
    }
}

/// The Rust type for a single-character D-Bus type code; `out` selects the owned
/// form used for values handed out, where it differs from the borrowed form.
pub open spec fn basic_type_name(c: char, out: bool) -> Option<Seq<char>> {
    if c == 'y' {
        Some("u8"@)
    } else if c == 'b' {
        Some("bool"@)
    } else if c == 'n' {
        Some("i16"@)
    } else if c == 'q' {
        Some("u16"@)
    } else if c == 'i' {
        Some("i32"@)
    } else if c == 'u' {
        Some("u32"@)
    } else if c == 'x' {
        Some("i64"@)
    } else if c == 't' {
        Some("u64"@)
    } else if c == 'd' {
        Some("f64"@)
    } else if c == 's' {
        Some(if out { "String"@ } else { "&str"@ })
    } else if c == 'o' {
        Some(if out { "::dbus::Path<'static>"@ } else { "::dbus::Path"@ })
    } else if c == 'g' {
        Some(if out { "::dbus::Signature<'static>"@ } else { "::dbus::Signature"@ })
    } else if c == 'v' {
        Some("::dbus::arg::Variant<Box<::dbus::arg::RefArg>>"@)
    } else {
        None
    }
}

fn basic_type_name_exec(c: char, out: bool) -> (r: Option<&'static str>)
    ensures
        match basic_type_name(c, out) {
            Some(t) => r matches Some(rt) && rt@ == t,
            None => r is None,
        },
{
    if c == 'y' {
        Some("u8")
    } else if c == 'b' {
        Some("bool")
    } else if c == 'n' {
        Some("i16")
    } else if c == 'q' {
        Some("u16")
    } else if c == 'i' {
        Some("i32")
    } else if c == 'u' {
        Some("u32")
    } else if c == 'x' {
        Some("i64")
    } else if c == 't' {
        Some("u64")
    } else if c == 'd' {
        Some("f64")
    } else if c == 's' {
        Some(if out { "String" } else { "&str" })
    } else if c == 'o' {
        Some(if out { "::dbus::Path<'static>" } else { "::dbus::Path" })
    } else if c == 'g' {
        Some(if out { "::dbus::Signature<'static>" } else { "::dbus::Signature" })
    } else if c == 'v' {
        Some("::dbus::arg::Variant<Box<::dbus::arg::RefArg>>")
    } else {
        None
    }
}

/// The items of `ts`, with `sep` between each two.
pub open spec fn join(ts: Seq<Seq<char>>, sep: Seq<char>) -> Seq<char>
    decreases ts.len(),
{
    if ts.len() == 0 {
        Seq::empty()
    } else if ts.len() == 1 {
        ts[0]
    } else {
        join(ts.drop_last(), sep) + sep + ts.last()
    }
}

/// Reads one complete type of the signature `s`, starting at position `p`: the Rust type
/// that it stands for, and the position after it.
pub open spec fn parse_sig(s: Seq<char>, p: int, out: bool) -> Result<(Seq<char>, int), FaultModel>
    decreases s.len() - p, 0int,
{
    if p < 0 || p >= s.len() {
        Err(FaultModel::Error(ErrorModel::UnexpectedEndOfSignature))
    } else {
        let c = s[p];
        if is_arg_type_code(c) {
            if c == 'a' {
                if p + 1 < s.len() && s[p + 1] == '{' {
                    match parse_sig(s, p + 2, out) {
                        Ok((k, q)) => {
                            if q <= p || q > s.len() {
                                Err(FaultModel::Error(ErrorModel::UnexpectedEndOfSignature))
                            } else {
                                match parse_sig(s, q, out) {
                                    Ok((v, r)) => {
                                        if 0 <= r < s.len() && s[r] == '}' {
                                            Ok(
                                                (
                                                    "::std::collections::HashMap<"@ + k + ", "@ + v
                                                        + ">"@,
                                                    r + 1,
                                                ),
                                            )
                                        } else {
                                            Err(FaultModel::Error(ErrorModel::NoEndOfDict))
                                        }
                                    },
                                    Err(f) => Err(f),
                                }
                            }
                        },
                        Err(f) => Err(f),
                    }
                } else {
                    match parse_sig(s, p + 1, out) {
                        Ok((t, q)) => Ok(("Vec<"@ + t + ">"@, q)),
                        Err(f) => Err(f),
                    }
                }
            } else {
                match basic_type_name(c, out) {
                    Some(t) => Ok((t, p + 1)),
                    None => Err(FaultModel::Unsupported(c)),
                }
            }
        } else if c == '(' {
            match parse_fields(s, p + 1, out) {
                Ok((ts, q)) => Ok(("("@ + join(ts, ", "@) + ")"@, q)),
                Err(f) => Err(f),
            }
        } else {
            Err(FaultModel::Unsupported(c))
        }
    }
}

/// Reads the types of a struct's fields, starting at position `p`, up to and including
/// the closing `)`: their Rust types, and the position after the `)`.
pub open spec fn parse_fields(s: Seq<char>, p: int, out: bool) -> Result<(Seq<Seq<char>>, int), FaultModel>
    decreases s.len() - p, 1int,
{
    if 0 <= p < s.len() && s[p] == ')' {
        Ok((Seq::empty(), p + 1))
    } else {
        match parse_sig(s, p, out) {
            Ok((t, q)) => {
                if q <= p || q > s.len() {
                    Err(FaultModel::Error(ErrorModel::UnexpectedEndOfSignature))
                } else {
                    match parse_fields(s, q, out) {
                        Ok((ts, r)) => Ok((seq![t] + ts, r)),
                        Err(f) => Err(f),
                    }
                }
            },
            Err(f) => Err(f),
        }
    }
}

/// The Rust type of the signature `s`, which must hold exactly one complete type.
pub open spec fn sig_type(s: Seq<char>, out: bool) -> Result<Seq<char>, FaultModel> {
    match parse_sig(s, 0, out) {
        Ok((t, q)) => if q < s.len() {
            Err(FaultModel::Error(ErrorModel::TypeNotEnded))
        } else {
            Ok(t)
        },
        Err(f) => Err(f),
    }
}

/// Reads one complete type of the signature `sig`, starting at `pos`, as the
/// Rust type it stands for, and returns that and the position after it (a failure on a
/// type code that has no Rust type is reported as such).
pub fn parse_type_at(sig: &Vec<char>, pos: usize, out: bool) -> (r: Result<(String, usize), Fault>)
    ensures
        match parse_sig(sig@, pos as int, out) {
            Ok((t, q)) => r matches Ok((rt, rq)) && rt@ == t && rq == q && pos < q <= sig@.len(),
            Err(f) => r matches Err(rf) && rf@ == f,
        },
    decreases sig@.len() - pos,
{
    if pos >= sig.len() {
        return Err(Fault::Error(GenError::UnexpectedEndOfSignature));
    }
    let c = sig[pos];
    match arg_type_code(c) {
        Some(_) => {
            if c == 'a' {
                if pos + 1 < sig.len() && sig[pos + 1] == '{' {
                    let (k, q) = match parse_type_at(sig, pos + 2, out) {
                        Ok(x) => x,
                        Err(f) => return Err(f),
                    };
                    let (v, r) = match parse_type_at(sig, q, out) {
                        Ok(x) => x,
                        Err(f) => return Err(f),
                    };
                    if r < sig.len() && sig[r] == '}' {
                        let mut t = String::new();
                        t.append("::std::collections::HashMap<");
                        t.append(k.as_str());
                        t.append(", ");
                        t.append(v.as_str());
                        t.append(">");
                        Ok((t, r + 1))
                    } else {
                        Err(Fault::Error(GenError::NoEndOfDict))
                    }
                } else {
                    let (e, q) = match parse_type_at(sig, pos + 1, out) {
                        Ok(x) => x,
                        Err(f) => return Err(f),
                    };
                    let mut t = String::new();
                    t.append("Vec<");
                    t.append(e.as_str());
                    t.append(">");
                    Ok((t, q))
                }
            } else {
                match basic_type_name_exec(c, out) {
                    Some(t) => Ok((String::from_str(t), pos + 1)),
                    None => Err(Fault::Unsupported(c)),
                }
            }
        },
        None => {
            if c == '(' {
                let p0 = pos + 1;
                let mut p = p0;
                let mut t = String::new();
                t.append("(");
                let ghost mut items: Seq<Seq<char>> = Seq::empty();
                let mut first = true;
                while p >= sig.len() || sig[p] != ')'
                    invariant
                        pos < p0 <= p <= sig@.len(),
                        p0 == pos + 1,
                        sig@[pos as int] == '(',
                        first == (items.len() == 0),
                        t@ == "("@ + join(items, ", "@),
                        match parse_fields(sig@, p as int, out) {
                            Ok((ts, q)) => parse_fields(sig@, p0 as int, out) == Ok::<(Seq<Seq<char>>, int), FaultModel>((items + ts, q)),
                            Err(f) => parse_fields(sig@, p0 as int, out) == Err::<(Seq<Seq<char>>, int), FaultModel>(f),
                        },
                    decreases sig@.len() - p,
                {
                    let (field, q) = match parse_type_at(sig, p, out) {
                        Ok(x) => x,
                        Err(f) => {
                            assert(parse_fields(sig@, p as int, out) == Err::<(Seq<Seq<char>>, int), FaultModel>(f@));
                            return Err(f);
                        },
                    };
                    let ghost old_items = items;
                    if !first {
                        t.append(", ");
                    }
                    t.append(field.as_str());
                    proof {
                        assert(items.push(field@).drop_last() =~= items);
                        items = items.push(field@);
                        assert(t@ =~= "("@ + join(items, ", "@));
                        match parse_fields(sig@, q as int, out) {
                            Ok((ts, r)) => {
                                assert(old_items + (seq![field@] + ts) =~= items + ts);
                            },
                            Err(f) => {},
                        }
                    }
                    p = q;
                    first = false;
                }
                t.append(")");
                assert(parse_fields(sig@, p as int, out) == Ok::<(Seq<Seq<char>>, int), FaultModel>((Seq::<Seq<char>>::empty(), p + 1)));
                assert(items + Seq::<Seq<char>>::empty() =~= items);
                Ok((t, p + 1))
            } else {
                Err(Fault::Unsupported(c))
            }
        },
    }
}

/// Reads one complete type of the signature `sig`, starting at `pos`, as the Rust type it
/// stands for, and returns that and the position after it.
pub fn xml_to_rust_type(sig: &Vec<char>, pos: usize, out: bool) -> (r: Result<(String, usize), GenError>)
    requires
        !(parse_sig(sig@, pos as int, out) matches Err(FaultModel::Unsupported(_))),
    ensures
        match parse_sig(sig@, pos as int, out) {
            Ok((t, q)) => r matches Ok((rt, rq)) && rt@ == t && rq == q && pos < q <= sig@.len(),
            Err(FaultModel::Error(e)) => r matches Err(re) && re@ == e,
            Err(FaultModel::Unsupported(_)) => false,
        },
{
    match parse_type_at(sig, pos, out) {
        Ok(x) => Ok(x),
        Err(Fault::Error(e)) => Err(e),
        Err(Fault::Unsupported(_)) => {
            assert(false);
            Err(GenError::UnexpectedEndOfSignature)
        },
    }
}

/// The Rust type of the signature `s`, which must hold exactly one complete type
/// (a failure on a type code that has no Rust type is reported as such).
pub fn checked_type(s: &str, out: bool) -> (r: Result<String, Fault>)
    ensures
        match sig_type(s@, out) {
            Ok(t) => r matches Ok(rt) && rt@ == t,
            Err(f) => r matches Err(rf) && rf@ == f,
        },
{
    let chars = chars_of(s);
    let (t, q) = match parse_type_at(&chars, 0, out) {
        Ok(x) => x,
        Err(f) => return Err(f),
    };
    if q < chars.len() {
        Err(Fault::Error(GenError::TypeNotEnded))
    } else {
        Ok(t)
    }
}

/// Turns a D-Bus type signature holding exactly one complete type into the Rust type
/// that stands for it; `out` selects the owned forms.
pub fn make_type(s: &str, out: bool) -> (r: Result<String, GenError>)
    requires
        !(sig_type(s@, out) matches Err(FaultModel::Unsupported(_))),
    ensures
        match sig_type(s@, out) {
            Ok(t) => r matches Ok(rt) && rt@ == t,
            Err(FaultModel::Error(e)) => r matches Err(re) && re@ == e,
            Err(FaultModel::Unsupported(_)) => false,
        },
{
    match checked_type(s, out) {
        Ok(t) => Ok(t),
        Err(Fault::Error(e)) => Err(e),
        Err(Fault::Unsupported(_)) => {
            assert(false);
            Err(GenError::UnexpectedEndOfSignature)
        },
    }
}

} // verus!
