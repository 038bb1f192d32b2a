use vstd::prelude::*;
use crate::errors::{Fault, FaultModel, GenError};
use crate::names::{make_snake, snake};
use crate::sig::{sig_type, checked_type};
use crate::text::same_text;

verus! {

/// An argument of a method or signal: its name (possibly empty), its D-Bus type
/// signature, its position among the arguments of its kind, and whether it is handed out.
pub struct Arg {
    pub name: String,
    pub typ: String,
    pub idx: i32,
    pub is_out: bool,
}

#[verifier::ext_equal]
pub struct ArgModel {
    pub name: Seq<char>,
    pub typ: Seq<char>,
    pub idx: i32,
    pub is_out: bool,
}

impl View for Arg {
    type V = ArgModel;

    open spec fn view(&self) -> ArgModel {
        ArgModel { name: self.name@, typ: self.typ@, idx: self.idx, is_out: self.is_out }
    }
}

/// A method: its name, its input arguments and its output arguments.
pub struct Method {
    pub name: String,
    pub iargs: Vec<Arg>,
    pub oargs: Vec<Arg>,
}

#[verifier::ext_equal]
pub struct MethodModel {
    pub name: Seq<char>,
    pub iargs: Seq<ArgModel>,
    pub oargs: Seq<ArgModel>,
}

pub open spec fn args_view(v: Vec<Arg>) -> Seq<ArgModel> {
    v@.map_values(|a: Arg| a@)
}

impl View for Method {
    type V = MethodModel;

    open spec fn view(&self) -> MethodModel {
        MethodModel { name: self.name@, iargs: args_view(self.iargs), oargs: args_view(self.oargs) }
    }
}

/// A property: its name, its D-Bus type signature and its access (`read`, `write`,
/// `readwrite`).
pub struct Prop {
    pub name: String,
    pub typ: String,
    pub access: String,
}

#[verifier::ext_equal]
pub struct PropModel {
    pub name: Seq<char>,
    pub typ: Seq<char>,
    pub access: Seq<char>,
}

impl View for Prop {
    type V = PropModel;

    open spec fn view(&self) -> PropModel {
        PropModel { name: self.name@, typ: self.typ@, access: self.access@ }
    }
}

/// A signal: its name and its arguments.
pub struct Signal {
    pub name: String,
    pub args: Vec<Arg>,
}

#[verifier::ext_equal]
pub struct SignalModel {
    pub name: Seq<char>,
    pub args: Seq<ArgModel>,
}

impl View for Signal {
    type V = SignalModel;

    open spec fn view(&self) -> SignalModel {
        SignalModel { name: self.name@, args: args_view(self.args) }
    }
}

/// An interface: its name, methods, properties and signals.
pub struct Intf {
    pub name: String,
    pub methods: Vec<Method>,
    pub props: Vec<Prop>,
    pub signals: Vec<Signal>,
}

#[verifier::ext_equal]
pub struct IntfModel {
    pub name: Seq<char>,
    pub methods: Seq<MethodModel>,
    pub props: Seq<PropModel>,
    pub signals: Seq<SignalModel>,
}

impl View for Intf {
    type V = IntfModel;

    open spec fn view(&self) -> IntfModel {
        IntfModel {
            name: self.name@,
            methods: self.methods@.map_values(|m: Method| m@),
            props: self.props@.map_values(|p: Prop| p@),
            signals: self.signals@.map_values(|s: Signal| s@),
        }
    }
}

pub open spec fn digit_char(d: int) -> char {
    (('0' as int) + d) as char
}

/// The decimal digits of `n`.
pub open spec fn nat_text(n: nat) -> Seq<char>
    decreases n,
{
    if n < 10 {
        seq![digit_char(n as int)]
    } else {
        nat_text(n / 10) + seq![digit_char((n % 10) as int)]
    }
}

/// `n` in decimal, with a minus sign in front when it is negative.
pub open spec fn int_text(n: int) -> Seq<char> {
    if n < 0 {
        seq!['-'] + nat_text((-n) as nat)
    } else {
        nat_text(n as nat)
    }
}

fn push_nat_text(s: &mut String, n: u64)
    ensures
        final(s)@ == old(s)@ + nat_text(n as nat),
    decreases n,
{
    if n >= 10 {
        push_nat_text(s, n / 10);
    }
    let d: u8 = (n % 10) as u8;
    s.push((48u8 + d) as char);
    assert(final(s)@ =~= old(s)@ + nat_text(n as nat));
}

/// Appends `n` in decimal.
pub fn push_int_text(s: &mut String, n: i32)
    ensures
        final(s)@ == old(s)@ + int_text(n as int),
{
    let v: i64 = n as i64;
    if v < 0 {
        s.push('-');
        push_nat_text(s, (-v) as u64);
        assert(final(s)@ =~= old(s)@ + int_text(n as int));
    } else {
        push_nat_text(s, v as u64);
    }
}

/// The Rust name of an argument: its own name in snake case, or `arg` and its position
/// where it has no name.
pub open spec fn varname(a: ArgModel) -> Seq<char> {
    if a.name.len() != 0 {
        snake(a.name)
    } else {
        "arg"@ + int_text(a.idx as int)
    }
}

/// The Rust type of an argument, in its owned form where it is handed out.
pub open spec fn arg_type(a: ArgModel) -> Result<Seq<char>, FaultModel> {
    sig_type(a.typ, a.is_out)
}

/// Whether a property can be read: unless its access is `write`.
pub open spec fn can_get(p: PropModel) -> bool {
    p.access != "write"@
}

/// Whether a property can be written: where its access is `write` or `readwrite`.
pub open spec fn can_set(p: PropModel) -> bool {
    p.access == "write"@ || p.access == "readwrite"@
}

impl Arg {
    /// The Rust name of this argument.
    pub fn varname(&self) -> (r: String)
        ensures
            r@ == varname(self@),
    {
        if !self.name.as_str().is_empty() {
            make_snake(self.name.as_str())
        } else {
            let mut r = String::new();
            r.append("arg");
            push_int_text(&mut r, self.idx);
            r
        }
    }

    /// The Rust type of this argument (a failure on an unsupported type code is
    /// reported as such).
    pub fn arg_type(&self) -> (r: Result<String, Fault>)
        ensures
            match arg_type(self@) {
                Ok(t) => r matches Ok(rt) && rt@ == t,
                Err(f) => r matches Err(rf) && rf@ == f,
            },
    {
        checked_type(self.typ.as_str(), self.is_out)
    }

    /// The Rust type of this argument.
    pub fn typename(&self) -> (r: Result<String, GenError>)
        requires
            !(arg_type(self@) matches Err(FaultModel::Unsupported(_))),
        ensures
            match arg_type(self@) {
                Ok(t) => r matches Ok(rt) && rt@ == t,
                Err(FaultModel::Error(e)) => r matches Err(re) && re@ == e,
                Err(FaultModel::Unsupported(_)) => false,
            },
    {
        match self.arg_type() {
            Ok(t) => Ok(t),
            Err(Fault::Error(e)) => Err(e),
            Err(Fault::Unsupported(_)) => {
                assert(false);
                Err(GenError::UnexpectedEndOfSignature)
            },
        }
    }
}

impl Prop {
    /// Whether this property can be read.
    pub fn can_get(&self) -> (r: bool)
        ensures
            r == can_get(self@),
    {
        !same_text(self.access.as_str(), "write")
    }

    /// Whether this property can be written.
    pub fn can_set(&self) -> (r: bool)
        ensures
            r == can_set(self@),
    {
        same_text(self.access.as_str(), "write") || same_text(self.access.as_str(), "readwrite")
    }
}

} // verus!
