//! Variable bindings, in the order of their first declaration.
use vstd::prelude::*;

use crate::expression::{Literal, LiteralView};

verus! {

/// A name and the value bound to it.
pub type Binding = (Seq<char>, LiteralView);

/// The value of the first binding of `name`.
pub open spec fn lookup(b: Seq<Binding>, name: Seq<char>) -> Option<LiteralView>
    decreases b.len(),
{
    if b.len() == 0 {
        None
    } else if b[0].0 == name {
        Some(b[0].1)
    } else {
        lookup(b.subrange(1, b.len() as int), name)
    }
}

/// The bindings after binding `name` to `v`: the first binding of `name` is
/// replaced in place, or a new one is added at the end.
pub open spec fn bind(b: Seq<Binding>, name: Seq<char>, v: LiteralView) -> Seq<Binding>
    decreases b.len(),
{
    if b.len() == 0 {
        seq![(name, v)]
    } else if b[0].0 == name {
        b.update(0, (name, v))
    } else {
        seq![b[0]] + bind(b.subrange(1, b.len() as int), name, v)
    }
}

/// A value with no name left in it.
pub open spec fn reduced(v: LiteralView) -> bool {
    !(v is Name)
}

proof fn lemma_lookup_first(b: Seq<Binding>, name: Seq<char>, i: int)
    requires
        0 <= i < b.len(),
        b[i].0 == name,
        forall|j: int| 0 <= j < i ==> b[j].0 != name,
    ensures
        lookup(b, name) == Some(b[i].1),
    decreases i,
{
    if i > 0 {
        let rest = b.subrange(1, b.len() as int);
        assert(rest[i - 1] == b[i]);
        assert forall|j: int| 0 <= j < i - 1 implies rest[j].0 != name by {
            assert(rest[j] == b[j + 1]);
        }
        lemma_lookup_first(rest, name, i - 1);
    }
}

proof fn lemma_lookup_none(b: Seq<Binding>, name: Seq<char>)
    requires
        forall|j: int| 0 <= j < b.len() ==> b[j].0 != name,
    ensures
        lookup(b, name) is None,
    decreases b.len(),
{
    if b.len() > 0 {
        let rest = b.subrange(1, b.len() as int);
        assert forall|j: int| 0 <= j < rest.len() implies rest[j].0 != name by {
            assert(rest[j] == b[j + 1]);
        }
        lemma_lookup_none(rest, name);
    }
}

proof fn lemma_bind_first(b: Seq<Binding>, name: Seq<char>, v: LiteralView, i: int)
    requires
        0 <= i < b.len(),
        b[i].0 == name,
        forall|j: int| 0 <= j < i ==> b[j].0 != name,
    ensures
        bind(b, name, v) == b.update(i, (name, v)),
    decreases i,
{
    if i > 0 {
        let rest = b.subrange(1, b.len() as int);
        assert(rest[i - 1] == b[i]);
        assert forall|j: int| 0 <= j < i - 1 implies rest[j].0 != name by {
            assert(rest[j] == b[j + 1]);
        }
        lemma_bind_first(rest, name, v, i - 1);
        assert(seq![b[0]] + rest.update(i - 1, (name, v)) =~= b.update(i, (name, v)));
    }
}

proof fn lemma_bind_none(b: Seq<Binding>, name: Seq<char>, v: LiteralView)
    requires
        forall|j: int| 0 <= j < b.len() ==> b[j].0 != name,
    ensures
        bind(b, name, v) == b.push((name, v)),
    decreases b.len(),
{
    if b.len() > 0 {
        let rest = b.subrange(1, b.len() as int);
        assert forall|j: int| 0 <= j < rest.len() implies rest[j].0 != name by {
            assert(rest[j] == b[j + 1]);
        }
        lemma_bind_none(rest, name, v);
        assert(seq![b[0]] + rest.push((name, v)) =~= b.push((name, v)));
    } else {
        assert(seq![(name, v)] =~= b.push((name, v)));
    }
}

/// After binding `name` to `v`, `name` has the value `v` and every other name
/// keeps its value.
pub proof fn lemma_lookup_bind(b: Seq<Binding>, name: Seq<char>, v: LiteralView, other: Seq<char>)
    ensures
        lookup(bind(b, name, v), name) == Some(v),
        other != name ==> lookup(bind(b, name, v), other) == lookup(b, other),
    decreases b.len(),
{
    if b.len() > 0 && b[0].0 != name {
        let rest = b.subrange(1, b.len() as int);
        lemma_lookup_bind(rest, name, v, other);
        let bound = bind(b, name, v);
        assert(bound.subrange(1, bound.len() as int) =~= bind(rest, name, v));
    } else if b.len() > 0 {
        let bound = bind(b, name, v);
        assert(bound.subrange(1, bound.len() as int) =~= b.subrange(1, b.len() as int));
    } else {
        let bound = bind(b, name, v);
        assert(bound.subrange(1, bound.len() as int) =~= b);
    }
}

/// Names bound to values, in the order in which each was first declared.
pub struct Environment {
    entries: Vec<(String, Literal)>,
}

impl Environment {
    /// The bindings, in order.
    pub closed spec fn bindings(&self) -> Seq<Binding> {
        self.entries@.map_values(|e: (String, Literal)| (e.0@, e.1@))
    }

    /// Every bound value is reduced.
    pub open spec fn wf(&self) -> bool {
        forall|i: int| 0 <= i < self.bindings().len() ==> reduced(#[trigger] self.bindings()[i].1)
    }

    /// An environment with no bindings.
    pub fn new() -> (r: Environment)
        ensures
            r.bindings() == Seq::<Binding>::empty(),
            r.wf(),
    {
        let r = Environment { entries: Vec::new() };
        assert(r.bindings() =~= Seq::<Binding>::empty());
        r
    }

    /// The number of bindings.
    pub fn len(&self) -> (r: usize)
        ensures
            r == self.bindings().len(),
    {
        self.entries.len()
    }

    /// The name of the binding at `i`.
    pub fn name(&self, i: usize) -> (r: &String)
        requires
            i < self.bindings().len(),
        ensures
            r@ == self.bindings()[i as int].0,
    {
        &self.entries[i].0
    }

    /// The value of the binding at `i`.
    pub fn value(&self, i: usize) -> (r: &Literal)
        requires
            i < self.bindings().len(),
        ensures
            r@ == self.bindings()[i as int].1,
    {
        &self.entries[i].1
    }

    fn position(&self, name: &String) -> (r: Option<usize>)
        ensures
            match r {
                Some(i) => i < self.bindings().len() && self.bindings()[i as int].0 == name@
                    && forall|j: int| 0 <= j < i ==> self.bindings()[j].0 != name@,
                None => forall|j: int| 0 <= j < self.bindings().len() ==> self.bindings()[j].0 != name@,
            },
    {
        let mut i: usize = 0;
        while i < self.entries.len()
            invariant
                i <= self.entries.len(),
                forall|j: int| 0 <= j < i ==> self.bindings()[j].0 != name@,
            decreases self.entries.len() - i,
        {
            if self.entries[i].0 == *name {
                return Some(i);
            }
            i = i + 1;
        }
        None
    }

    /// The value bound to `name`, if any.
    pub fn get(&self, name: &String) -> (r: Option<&Literal>)
        ensures
            match r {
                Some(v) => lookup(self.bindings(), name@) == Some(v@),
                None => lookup(self.bindings(), name@) is None,
            },
    {
        match self.position(name) {
            Some(i) => {
                proof {
                    lemma_lookup_first(self.bindings(), name@, i as int);
                }
                Some(&self.entries[i].1)
            },
            None => {
                proof {
                    lemma_lookup_none(self.bindings(), name@);
                }
                None
            },
        }
    }

    /// Binds `name` to `value`: a name already bound keeps its place, a new
    /// one comes last.
    pub fn declare(&mut self, name: String, value: Literal)
        requires
            old(self).wf(),
            reduced(value@),
        ensures
            final(self).wf(),
            final(self).bindings() == bind(old(self).bindings(), name@, value@),
    {
        let ghost b = self.bindings();
        let ghost entry = (name@, value@);
        match self.position(&name) {
            Some(i) => {
                proof {
                    lemma_bind_first(b, name@, value@, i as int);
                }
                self.entries.remove(i);
                self.entries.insert(i, (name, value));
                assert(self.bindings() =~= b.update(i as int, entry));
            },
            None => {
                proof {
                    lemma_bind_none(b, name@, value@);
                }
                self.entries.push((name, value));
                assert(self.bindings() =~= b.push(entry));
            },
        }
        assert forall|i: int| 0 <= i < self.bindings().len() implies reduced(
            #[trigger] self.bindings()[i].1,
        ) by {
            if self.bindings()[i] != entry {
                assert(b.contains(self.bindings()[i]));
            }
        }
    }
}

} // verus!
