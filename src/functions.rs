//! The table of defined functions, and substituting an argument into a body.
use vstd::prelude::*;
use crate::chars::{copy_chars, push_all, same_chars};

verus! {

/// A function of `x`: its name and its body as written.
#[derive(Debug)]
pub struct FunctionDef {
    pub name: Vec<char>,
    pub body: Vec<char>,
}

/// The defined functions, in the order they were defined. A name may be
/// defined more than once; lookups take the earliest definition.
#[derive(Debug)]
pub struct FunctionTable {
    pub entries: Vec<FunctionDef>,
}

/// The body of the first entry of `t` named `name`.
pub open spec fn lookup_in(t: Seq<(Seq<char>, Seq<char>)>, name: Seq<char>) -> Option<Seq<char>>
    decreases t.len(),
{
    if t.len() == 0 {
        None
    } else if t[0].0 == name {
        Some(t[0].1)
    } else {
        lookup_in(t.drop_first(), name)
    }
}

/// `body` with every `x` replaced by `value`.
pub open spec fn substituted(body: Seq<char>, value: Seq<char>) -> Seq<char>
    decreases body.len(),
{
    if body.len() == 0 {
        Seq::empty()
    } else {
        substituted(body.drop_last(), value) + if body.last() == 'x' {
            value
        } else {
            seq![body.last()]
        }
    }
}

/// A run of digits without its leading zeros, keeping one digit.
pub open spec fn strip_zeros(d: Seq<char>) -> Seq<char>
    decreases d.len(),
{
    if d.len() > 1 && d[0] == '0' {
        strip_zeros(d.drop_first())
    } else {
        d
    }
}

impl FunctionTable {
    /// The entries as (name, body) pairs.
    pub open spec fn view_entries(&self) -> Seq<(Seq<char>, Seq<char>)> {
        Seq::new(self.entries@.len(), |i: int| (self.entries@[i].name@, self.entries@[i].body@))
    }

    /// An empty table.
    pub fn new() -> (r: FunctionTable)
        ensures
            r.view_entries() == Seq::<(Seq<char>, Seq<char>)>::empty(),
    {
        let r = FunctionTable { entries: Vec::new() };
        assert(r.view_entries() =~= Seq::<(Seq<char>, Seq<char>)>::empty());
        r
    }

    /// Appends a definition, whether or not the name is already defined.
    pub fn define(&mut self, name: Vec<char>, body: Vec<char>)
        ensures
            final(self).view_entries() == old(self).view_entries().push((name@, body@)),
    {
        let ghost before = self.view_entries();
        let ghost e = (name@, body@);
        self.entries.push(FunctionDef { name, body });
        assert(self.view_entries() =~= before.push(e));
    }

    /// The body of the earliest definition of `name`.
    pub fn lookup(&self, name: &Vec<char>) -> (r: Option<Vec<char>>)
        ensures
            r matches Some(b) ==> lookup_in(self.view_entries(), name@) == Some(b@),
            r is None ==> lookup_in(self.view_entries(), name@) is None,
    {
        let ghost t = self.view_entries();
        let mut i: usize = 0;
        assert(t.subrange(0, t.len() as int) =~= t);
        while i < self.entries.len()
            invariant
                i <= t.len(),
                t == self.view_entries(),
                lookup_in(t.subrange(i as int, t.len() as int), name@) == lookup_in(t, name@),
            decreases t.len() - i,
        {
            let ghost rest = t.subrange(i as int, t.len() as int);
            assert(rest.drop_first() =~= t.subrange(i + 1, t.len() as int));
            if same_chars(&self.entries[i].name, name) {
                return Some(copy_chars(&self.entries[i].body));
            }
            i = i + 1;
        }
        None
    }
}

/// `d` without its leading zeros, keeping at least one digit.
pub fn canonical_digits(d: &Vec<char>) -> (r: Vec<char>)
    ensures
        r@ == strip_zeros(d@),
{
    let mut k: usize = 0;
    assert(d@.subrange(0, d@.len() as int) =~= d@);
    while k < d.len() && d.len() - k > 1 && d[k] == '0'
        invariant
            k <= d@.len(),
            k > 0 ==> k < d@.len(),
            strip_zeros(d@.subrange(k as int, d@.len() as int)) == strip_zeros(d@),
        decreases d@.len() - k,
    {
        let ghost rest = d@.subrange(k as int, d@.len() as int);
        assert(rest.drop_first() =~= d@.subrange(k + 1, d@.len() as int));
        k = k + 1;
    }
    let mut r: Vec<char> = Vec::new();
    let mut j = k;
    while j < d.len()
        invariant
            k <= j <= d@.len(),
            r@ == d@.subrange(k as int, j as int),
        decreases d@.len() - j,
    {
        r.push(d[j]);
        j = j + 1;
        assert(r@ =~= d@.subrange(k as int, j as int));
    }
    r
}

/// `body` with every `x` replaced by `value`. The replacement is textual:
/// an `x` inside a longer name is replaced too.
pub fn substitute(body: &Vec<char>, value: &Vec<char>) -> (r: Vec<char>)
    ensures
        r@ == substituted(body@, value@),
{
    let mut out: Vec<char> = Vec::new();
    let mut i: usize = 0;
    while i < body.len()
        invariant
            i <= body@.len(),
            out@ == substituted(body@.subrange(0, i as int), value@),
        decreases body@.len() - i,
    {
        let ghost p = body@.subrange(0, i + 1);
        assert(p.drop_last() =~= body@.subrange(0, i as int));
        if body[i] == 'x' {
            push_all(&mut out, value);
        } else {
            out.push(body[i]);
        }
        i = i + 1;
    }
    assert(body@.subrange(0, body@.len() as int) =~= body@);
    out
}

} // verus!
