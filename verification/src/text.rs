use vstd::prelude::*;

verus! {

/// `String::push` appends the given character at the end of the string
/// (std documentation: "Appends the given char to the end of this String").
pub assume_specification[ String::push ](s: &mut String, ch: char)
    ensures
        final(s)@ == old(s)@.push(ch),
;

/// The characters of `s`, one by one.
pub fn chars_of(s: &str) -> (v: Vec<char>)
    ensures
        v@ == s@,
{
    broadcast use vstd::string::axiom_spec_iter;

    let mut v: Vec<char> = Vec::new();
    for c in it: s.chars()
        invariant
            it.seq() == s@,
            v@ == s@.take(it.index()),
    {
        v.push(c);
        assert(v@ =~= s@.take(it.index() + 1));
    }
    assert(s@.take(s@.len() as int) =~= s@);
    v
}

/// Whether two string slices hold the same characters.
pub fn same_text(a: &str, b: &str) -> (r: bool)
    ensures
        r == (a@ == b@),
{
    let va = chars_of(a);
    let vb = chars_of(b);
    let n = va.len();
    if n != vb.len() {
        return false;
    }
    let mut i: usize = 0;
    while i < n
        invariant
            n == va@.len(),
            n == vb@.len(),
            va@ == a@,
            vb@ == b@,
            i <= n,
            forall|j: int| 0 <= j < i ==> va@[j] == vb@[j],
        decreases n - i,
    {
        if va[i] != vb[i] {
            return false;
        }
        i = i + 1;
    }
    assert(a@ =~= b@);
    true
}

/// Concatenation of character sequences is associative.
pub broadcast proof fn lemma_concat_assoc(a: Seq<char>, b: Seq<char>, c: Seq<char>)
    ensures
        #[trigger] ((a + b) + c) == a + (b + c),
{
    assert((a + b) + c =~= a + (b + c));
}

/// A text followed by more starts with that text.
pub proof fn lemma_prefix_of_concat(a: Seq<char>, b: Seq<char>)
    ensures
        a.is_prefix_of(a + b),
{
    assert((a + b).subrange(0, a.len() as int) =~= a);
}

/// A text that starts with `b`, where `b` starts with `a`, starts with `a`.
pub proof fn lemma_prefix_trans(a: Seq<char>, b: Seq<char>, c: Seq<char>)
    requires
        a.is_prefix_of(b),
        b.is_prefix_of(c),
    ensures
        a.is_prefix_of(c),
{
    assert forall|k: int| 0 <= k < a.len() implies c[k] == a[k] by {
        assert(c.subrange(0, b.len() as int)[k] == c[k]);
        assert(b.subrange(0, a.len() as int)[k] == b[k]);
    }
    assert(c.subrange(0, a.len() as int) =~= a);
}

/// Where `mid` is `start` followed by `t`, and `end` is `mid` or starts with it, and
/// `start` starts with `base`, `end` starts with `base`.
pub proof fn lemma_grown(base: Seq<char>, start: Seq<char>, t: Seq<char>, end: Seq<char>)
    requires
        base.is_prefix_of(start),
        end == start + t || (start + t).is_prefix_of(end),
    ensures
        base.is_prefix_of(end),
{
    lemma_prefix_of_concat(start, t);
    lemma_prefix_trans(base, start, start + t);
    if end != start + t {
        lemma_prefix_trans(base, start + t, end);
    }
}

} // verus!
