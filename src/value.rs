use crate::selector::{Selector, SelectorSegment, Step};
use vstd::prelude::*;

verus! {

/// A structured value of any shape: null, a boolean, a number (held as its
/// canonical text), a string, an ordered list, or an ordered mapping from
/// field names to values.
#[derive(Debug, PartialEq)]
pub enum Value {
    Null,
    Bool(bool),
    Number(String),
    String(String),
    Array(Vec<Value>),
    Object(Vec<(String, Value)>),
}

/// `i` is the first position of `entries` whose key reads `key`.
pub open spec fn is_first_key(entries: Seq<(String, Value)>, key: Seq<char>, i: int) -> bool {
    &&& 0 <= i < entries.len()
    &&& entries[i].0@ == key
    &&& forall|j: int| 0 <= j < i ==> entries[j].0@ != key
}

/// The first position of `entries` whose key reads `key`, if any.
pub open spec fn key_position(entries: Seq<(String, Value)>, key: Seq<char>) -> Option<int> {
    if exists|i: int| is_first_key(entries, key, i) {
        Some(choose|i: int| is_first_key(entries, key, i))
    } else {
        None
    }
}

/// The two sequences of entries carry the same keys at the same positions.
pub open spec fn same_keys(a: Seq<(String, Value)>, b: Seq<(String, Value)>) -> bool {
    &&& a.len() == b.len()
    &&& forall|j: int| 0 <= j < a.len() ==> #[trigger] a[j].0 == b[j].0
}

/// No two entries share a key.
pub open spec fn keys_unique(entries: Seq<(String, Value)>) -> bool {
    forall|i: int, j: int|
        0 <= i < entries.len() && 0 <= j < entries.len() && i != j ==> entries[i].0@
            != entries[j].0@
}

/// `p` is an initial part of `q`.
pub open spec fn is_prefix(p: Seq<Step>, q: Seq<Step>) -> bool {
    p.len() <= q.len() && q.subrange(0, p.len() as int) == p
}

pub proof fn lemma_first_key_unique(entries: Seq<(String, Value)>, key: Seq<char>, i: int, j: int)
    requires
        is_first_key(entries, key, i),
        is_first_key(entries, key, j),
    ensures
        i == j,
{
}

pub proof fn lemma_key_position(entries: Seq<(String, Value)>, key: Seq<char>, i: int)
    requires
        is_first_key(entries, key, i),
    ensures
        key_position(entries, key) == Some(i),
{
    let c = choose|c: int| is_first_key(entries, key, c);
    lemma_first_key_unique(entries, key, i, c);
}

pub proof fn lemma_same_keys_position(a: Seq<(String, Value)>, b: Seq<(String, Value)>, key: Seq<char>)
    requires
        same_keys(a, b),
    ensures
        key_position(a, key) == key_position(b, key),
{
    assert forall|i: int| is_first_key(a, key, i) <==> is_first_key(b, key, i) by {
        if is_first_key(a, key, i) {
            assert(a[i].0 == b[i].0);
            assert forall|j: int| 0 <= j < i implies b[j].0@ != key by {
                assert(a[j].0 == b[j].0);
            }
        }
        if is_first_key(b, key, i) {
            assert(a[i].0 == b[i].0);
            assert forall|j: int| 0 <= j < i implies a[j].0@ != key by {
                assert(a[j].0 == b[j].0);
            }
        }
    }
    if exists|i: int| is_first_key(a, key, i) {
        let i = choose|i: int| is_first_key(a, key, i);
        lemma_key_position(a, key, i);
        lemma_key_position(b, key, i);
    }
}

impl Value {
    /// The child one step down along `s`, if `self` has one there.
    pub open spec fn child(self, s: Step) -> Option<Value> {
        match self {
            Value::Array(items) => match s {
                Step::Index(i) => if i < items@.len() {
                    Some(items@[i as int])
                } else {
                    None
                },
                Step::Field(_) => None,
            },
            Value::Object(entries) => match s {
                Step::Field(k) => match key_position(entries@, k) {
                    Some(j) => Some(entries@[j].1),
                    None => None,
                },
                Step::Index(_) => None,
            },
            _ => None,
        }
    }

    /// The node that the path `p` reaches from `self`, if any.
    pub open spec fn at(self, p: Seq<Step>) -> Option<Value>
        decreases p.len(),
    {
        if p.len() == 0 {
            Some(self)
        } else {
            match self.child(p[0]) {
                Some(c) => c.at(p.drop_first()),
                None => None,
            }
        }
    }

    /// `r` is `self` with the child at step `s` replaced by `c`: the same
    /// kind of container, the same length and keys, every other child as it
    /// was.
    pub open spec fn child_replaced(self, s: Step, c: Value, r: Value) -> bool {
        match (self, r) {
            (Value::Array(a), Value::Array(b)) => match s {
                Step::Index(i) => i < a@.len() && b@ == a@.update(i as int, c),
                Step::Field(_) => false,
            },
            (Value::Object(a), Value::Object(b)) => match s {
                Step::Field(k) => match key_position(a@, k) {
                    Some(j) => b@ == a@.update(j, (a@[j].0, c)),
                    None => false,
                },
                Step::Index(_) => false,
            },
            _ => false,
        }
    }

    /// `r` is `self` with the node at path `p` replaced by `leaf`: every
    /// container on the path is rebuilt around its new child, everything off
    /// the path is kept.
    pub open spec fn replaced_at(self, p: Seq<Step>, leaf: Value, r: Value) -> bool
        decreases p.len(),
    {
        if p.len() == 0 {
            r == leaf
        } else {
            match (self.child(p[0]), r.child(p[0])) {
                (Some(c), Some(c2)) => self.child_replaced(p[0], c2, r) && c.replaced_at(
                    p.drop_first(),
                    leaf,
                    c2,
                ),
                _ => false,
            }
        }
    }

    /// Every object in the tree has distinct keys.
    pub open spec fn wf(self) -> bool
        decreases self,
    {
        match self {
            Value::Array(items) => forall|i: int|
                0 <= i < items@.len() ==> (#[trigger] items@[i]).wf(),
            Value::Object(entries) => keys_unique(entries@) && forall|i: int|
                0 <= i < entries@.len() ==> (#[trigger] entries@[i]).1.wf(),
            _ => true,
        }
    }

    pub proof fn lemma_child_replaced_child(self, s: Step, c: Value, r: Value)
        requires
            self.child_replaced(s, c, r),
        ensures
            r.child(s) == Some(c),
            forall|t: Step| t != s ==> #[trigger] r.child(t) == self.child(t),
    {
        match (self, r) {
            (Value::Array(a), Value::Array(b)) => {
            },
            (Value::Object(a), Value::Object(b)) => {
                let k = s->Field_0;
                let j = key_position(a@, k)->Some_0;
                assert(same_keys(a@, b@));
                lemma_same_keys_position(a@, b@, k);
                assert forall|t: Step| t != s implies #[trigger] r.child(t) == self.child(t) by {
                    if let Step::Field(k2) = t {
                        lemma_same_keys_position(a@, b@, k2);
                        if let Some(j2) = key_position(a@, k2) {
                            let w = choose|i: int| is_first_key(a@, k2, i);
                            assert(is_first_key(a@, k2, w));
                            let w1 = choose|i: int| is_first_key(a@, k, i);
                            assert(is_first_key(a@, k, w1));
                            assert(j2 != j);
                        }
                    }
                }
            },
            _ => {
            },
        }
    }

    pub proof fn lemma_child_replaced_twice(self, s: Step, x: Value, mid: Value, y: Value, r: Value)
        requires
            self.child_replaced(s, x, mid),
            mid.child_replaced(s, y, r),
        ensures
            self.child_replaced(s, y, r),
    {
        match (self, mid) {
            (Value::Array(a), Value::Array(m)) => {
                let i = s->Index_0;
                assert(r->Array_0@ =~= a@.update(i as int, y));
            },
            (Value::Object(a), Value::Object(m)) => {
                let k = s->Field_0;
                assert(same_keys(a@, m@));
                lemma_same_keys_position(a@, m@, k);
                let j = key_position(a@, k)->Some_0;
                assert(r->Object_0@ =~= a@.update(j, (a@[j].0, y)));
            },
            _ => {
            },
        }
    }
}

} // verus!
