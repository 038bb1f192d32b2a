use vstd::prelude::*;
use crate::text::chars_of;

verus! {

pub open spec fn is_lower(c: char) -> bool {
    'a' <= c && c <= 'z'
}

pub open spec fn is_upper(c: char) -> bool {
    'A' <= c && c <= 'Z'
}

pub open spec fn is_digit(c: char) -> bool {
    '0' <= c && c <= '9'
}

pub open spec fn is_alnum(c: char) -> bool {
    is_lower(c) || is_upper(c) || is_digit(c)
}

/// ASCII upper case of a lower-case letter; every other character unchanged.
pub open spec fn upper(c: char) -> char {
    if is_lower(c) { ((c as int) - 32) as char } else { c }
}

/// ASCII lower case of an upper-case letter; every other character unchanged.
pub open spec fn lower(c: char) -> char {
    if is_upper(c) { ((c as int) + 32) as char } else { c }
}

fn exec_upper(c: char) -> (r: char)
    ensures
        r == upper(c),
{
    if 'a' <= c && c <= 'z' {
        (((c as u32) - 32) as u8) as char
    } else {
        c
    }
}


fn exec_lower(c: char) -> (r: char)
    ensures
        r == lower(c),
{
    if 'A' <= c && c <= 'Z' {
        (((c as u32) + 32) as u8) as char
    } else {
        c
    }
}

fn exec_is_alnum(c: char) -> (r: bool)
    ensures
        r == is_alnum(c),
{
    ('a' <= c && c <= 'z') || ('A' <= c && c <= 'Z') || ('0' <= c && c <= '9')
}

/// What the character at `i` contributes to the camel-case form of `s`: nothing
/// for a character that is not an ASCII letter or digit; the character in upper case
/// where it starts a run of letters and digits; the character itself otherwise.
pub open spec fn camel_piece(s: Seq<char>, i: int) -> Seq<char> {
    if !is_alnum(s[i]) {
        Seq::empty()
    } else if i == 0 || !is_alnum(s[i - 1]) {
        seq![upper(s[i])]
    } else {
        seq![s[i]]
    }
}

/// The camel-case form of `s`: the pieces of all its characters, in order.
pub open spec fn camel(s: Seq<char>) -> Seq<char>
    decreases s.len(),
{
    if s.len() == 0 {
        Seq::empty()
    } else {
        camel(s.drop_last()) + camel_piece(s, s.len() - 1)
    }
}

/// What the character at `i` contributes to the snake-case form of `s`: a lower-case
/// letter or a digit stands for itself; an upper-case letter becomes lower case, with an
/// underscore in front of it unless it is the first character or follows an upper-case
/// letter; every other character is dropped.
pub open spec fn snake_piece(s: Seq<char>, i: int) -> Seq<char> {
    let c = s[i];
    if is_lower(c) || is_digit(c) {
        seq![c]
    } else if is_upper(c) {
        if i > 0 && !is_upper(s[i - 1]) {
            seq!['_', lower(c)]
        } else {
            seq![lower(c)]
        }
    } else {
        Seq::empty()
    }
}

/// The snake-case form of `s`: the pieces of all its characters, in order.
pub open spec fn snake(s: Seq<char>) -> Seq<char>
    decreases s.len(),
{
    if s.len() == 0 {
        Seq::empty()
    } else {
        snake(s.drop_last()) + snake_piece(s, s.len() - 1)
    }
}

/// Turns a D-Bus name such as `org.freedesktop.DBus` into a Rust type name
/// (`OrgFreedesktopDBus`).
pub fn make_camel(s: &str) -> (r: String)
    ensures
        r@ == camel(s@),
{
    let cs = chars_of(s);
    let n = cs.len();
    let mut r = String::new();
    let mut ucase = true;
    let mut i: usize = 0;
    while i < n
        invariant
            n == s@.len(),
            cs@ == s@,
            i <= n,
            r@ == camel(s@.take(i as int)),
            ucase == (i == 0 || !is_alnum(s@[i - 1])),
        decreases n - i,
    {
        let c = cs[i];
        assert(s@.take(i + 1).drop_last() =~= s@.take(i as int));
        if exec_is_alnum(c) {
            let cc = if ucase { exec_upper(c) } else { c };
            r.push(cc);
            ucase = false;
        } else {
            ucase = true;
        }
        i = i + 1;
        assert(r@ =~= camel(s@.take(i as int)));
    }
    assert(s@.take(n as int) =~= s@);
    r
}

/// Turns a D-Bus member name such as `RequestName` into a Rust function or variable
/// name (`request_name`).
pub fn make_snake(s: &str) -> (r: String)
    ensures
        r@ == snake(s@),
{
    let cs = chars_of(s);
    let n = cs.len();
    let mut r = String::new();
    let mut lcase = false;
    let mut i: usize = 0;
    while i < n
        invariant
            n == s@.len(),
            cs@ == s@,
            i <= n,
            r@ == snake(s@.take(i as int)),
            lcase == (i > 0 && !is_upper(s@[i - 1])),
        decreases n - i,
    {
        let c = cs[i];
        assert(s@.take(i + 1).drop_last() =~= s@.take(i as int));
        if ('a' <= c && c <= 'z') || ('0' <= c && c <= '9') {
            r.push(c);
            lcase = true;
        } else if 'A' <= c && c <= 'Z' {
            if lcase {
                r.push('_');
            }
            lcase = false;
            r.push(exec_lower(c));
        } else {
            lcase = true;
        }
        i = i + 1;
        assert(r@ =~= snake(s@.take(i as int)));
    }
    assert(s@.take(n as int) =~= s@);
    r
}

} // verus!
