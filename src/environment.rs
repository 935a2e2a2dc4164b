//! The symbol table: names bound to runtime values.
use vstd::prelude::*;
use crate::number::Number;

verus! {

/// A runtime value.
#[derive(Debug, Clone, PartialEq)]
pub enum Type {
    Num(Number),
    Str(String),
    Bool(bool),
    Nil,
    Function(String),
}

impl Type {
    /// A copy of the value.
    pub fn duplicate(&self) -> (r: Type)
        ensures
            r == *self,
    {
        match self {
            Type::Num(n) => Type::Num(*n),
            Type::Str(s) => Type::Str(s.clone()),
            Type::Bool(b) => Type::Bool(*b),
            Type::Nil => Type::Nil,
            Type::Function(s) => Type::Function(s.clone()),
        }
    }
}

/// The value bound to `k` by the latest of `entries` that names it.
pub open spec fn lookup(entries: Seq<(String, Type)>, k: Seq<char>) -> Option<Type>
    decreases entries.len(),
{
    if entries.len() == 0 {
        None
    } else if entries.last().0@ == k {
        Some(entries.last().1)
    } else {
        lookup(entries.drop_last(), k)
    }
}

pub proof fn lemma_lookup_push(entries: Seq<(String, Type)>, e: (String, Type), k: Seq<char>)
    ensures
        lookup(entries.push(e), k) == if e.0@ == k {
            Some(e.1)
        } else {
            lookup(entries, k)
        },
{
    assert(entries.push(e).drop_last() =~= entries);
}

pub proof fn lemma_lookup_update(
    entries: Seq<(String, Type)>,
    i: int,
    e: (String, Type),
    k: Seq<char>,
)
    requires
        0 <= i < entries.len(),
        entries[i].0@ == e.0@,
        forall|j: int| i < j < entries.len() ==> (#[trigger] entries[j]).0@ != e.0@,
    ensures
        lookup(entries.update(i, e), k) == if e.0@ == k {
            Some(e.1)
        } else {
            lookup(entries, k)
        },
    decreases entries.len(),
{
    let last = entries.len() - 1;
    if i == last {
        assert(entries.update(i, e).drop_last() =~= entries.drop_last());
    } else {
        assert(entries.update(i, e).drop_last() =~= entries.drop_last().update(i, e));
        lemma_lookup_update(entries.drop_last(), i, e, k);
    }
}

/// A mapping from names to values; defining a name again replaces its value.
pub struct Environment {
    entries: Vec<(String, Type)>,
}

impl View for Environment {
    type V = Map<Seq<char>, Type>;

    closed spec fn view(&self) -> Map<Seq<char>, Type> {
        Map::new(
            |k: Seq<char>| lookup(self.entries@, k) is Some,
            |k: Seq<char>| lookup(self.entries@, k)->Some_0,
        )
    }
}

impl Environment {
    /// The empty table.
    pub fn new() -> (r: Environment)
        ensures
            r@ == Map::<Seq<char>, Type>::empty(),
    {
        let r = Environment { entries: Vec::new() };
        assert(r@ =~= Map::<Seq<char>, Type>::empty());
        r
    }

    /// Binds `name` to `value`, replacing any earlier binding.
    pub fn define(&mut self, name: String, value: Type)
        ensures
            final(self)@ == old(self)@.insert(name@, value),
    {
        let ghost k = name@;
        let ghost v = value;
        let mut i = self.entries.len();
        while i > 0
            invariant
                i <= self.entries@.len(),
                self.entries == old(self).entries,
                k == name@,
                v == value,
                forall|j: int| i <= j < self.entries@.len() ==> (#[trigger] self.entries@[j]).0@ != k,
            decreases i,
        {
            if self.entries[i - 1].0 == name {
                let ghost before = self.entries@;
                let ghost e = (name, value);
                self.entries.set(i - 1, (name, value));
                proof {
                    assert forall|q: Seq<char>|
                        lookup(self.entries@, q) == if k == q {
                            Some(v)
                        } else {
                            lookup(before, q)
                        } by {
                        lemma_lookup_update(before, i - 1, e, q);
                    }
                    assert(self@ =~= old(self)@.insert(k, v));
                }
                return;
            }
            i = i - 1;
        }
        let ghost before = self.entries@;
        let ghost e = (name, value);
        self.entries.push((name, value));
        proof {
            assert forall|q: Seq<char>|
                lookup(self.entries@, q) == if k == q {
                    Some(v)
                } else {
                    lookup(before, q)
                } by {
                lemma_lookup_push(before, e, q);
            }
            assert(self@ =~= old(self)@.insert(k, v));
        }
    }

    /// The value bound to `name`, if any.
    pub fn retrieve(&self, name: &String) -> (r: Option<&Type>)
        ensures
            match r {
                Some(v) => self@.contains_key(name@) && *v == self@[name@],
                None => !self@.contains_key(name@),
            },
    {
        let ghost k = name@;
        let mut i = self.entries.len();
        assert(self.entries@.subrange(0, i as int) =~= self.entries@);
        while i > 0
            invariant
                i <= self.entries@.len(),
                k == name@,
                lookup(self.entries@, k) == lookup(self.entries@.subrange(0, i as int), k),
            decreases i,
        {
            let ghost pre = self.entries@.subrange(0, i as int);
            assert(pre.drop_last() =~= self.entries@.subrange(0, i - 1));
            if self.entries[i - 1].0 == *name {
                return Some(&self.entries[i - 1].1);
            }
            i = i - 1;
        }
        None
    }
}

} // verus!
