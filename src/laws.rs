use crate::error::{IcedFormValueError, IcedFormValueResult};
use crate::form::propagated;
use crate::selector::Step;
use crate::value::{is_prefix, key_position, same_keys, Value};
use vstd::prelude::*;

verus! {

/// After an edit at `p`, the node at `p` is the new one.
pub proof fn lemma_edit_reaches_target(v: Value, p: Seq<Step>, n: Value, v2: Value)
    requires
        v.replaced_at(p, n, v2),
    ensures
        v2.at(p) == Some(n),
    decreases p.len(),
{
    if p.len() > 0 {
        let c = v.child(p[0])->Some_0;
        let c2 = v2.child(p[0])->Some_0;
        lemma_edit_reaches_target(c, p.drop_first(), n, c2);
    }
}

/// An edit at `p` is local: at every path `q` that neither leads to `p`
/// nor runs through it, the edited tree holds what `v` held.
pub proof fn lemma_edit_is_local(v: Value, p: Seq<Step>, n: Value, v2: Value, q: Seq<Step>)
    requires
        v.replaced_at(p, n, v2),
        !is_prefix(q, p),
        !is_prefix(p, q),
    ensures
        v2.at(q) == v.at(q),
    decreases p.len(),
{
    if p.len() == 0 {
        assert(q.subrange(0, 0) =~= p);
    } else if q.len() == 0 {
        assert(p.subrange(0, 0) =~= q);
    } else {
        let c = v.child(p[0])->Some_0;
        let c2 = v2.child(p[0])->Some_0;
        v.lemma_child_replaced_child(p[0], c2, v2);
        if q[0] == p[0] {
            let pr = p.drop_first();
            let qr = q.drop_first();
            if is_prefix(qr, pr) {
                assert forall|j: int| 0 < j < q.len() implies q[j] == p[j] by {
                    assert(q[j] == qr[j - 1]);
                    assert(pr.subrange(0, qr.len() as int)[j - 1] == pr[j - 1]);
                }
                assert(p.subrange(0, q.len() as int) =~= q);
            }
            if is_prefix(pr, qr) {
                assert forall|j: int| 0 < j < p.len() implies q[j] == p[j] by {
                    assert(p[j] == pr[j - 1]);
                    assert(qr.subrange(0, pr.len() as int)[j - 1] == qr[j - 1]);
                }
                assert(q.subrange(0, p.len() as int) =~= p);
            }
            lemma_edit_is_local(c, pr, n, c2, qr);
        } else {
            assert(v2.child(q[0]) == v.child(q[0]));
        }
    }
}

/// An error sent from a node at any depth reaches the root exactly as it
/// was sent.
pub proof fn lemma_error_passes_through(
    v: Value,
    p: Seq<Step>,
    e: IcedFormValueError,
    r: IcedFormValueResult<Value>,
)
    requires
        propagated(v, p, Err(e), r),
    ensures
        r == Err::<Value, IcedFormValueError>(e),
{
}

/// Editing below position `i` of an array gives an array of the same
/// length whose other positions are unchanged.
pub proof fn lemma_array_edit_keeps_order(v: Value, p: Seq<Step>, n: Value, v2: Value)
    requires
        v is Array,
        p.len() > 0,
        v.replaced_at(p, n, v2),
    ensures
        p[0] is Index,
        v2 is Array,
        v2->Array_0@.len() == v->Array_0@.len(),
        forall|j: int|
            0 <= j < v->Array_0@.len() && j != p[0]->Index_0 ==> #[trigger] v2->Array_0@[j]
                == v->Array_0@[j],
{
}

/// Editing below field `k` of an object gives an object with the same keys
/// in the same order, whose entries under other keys are unchanged.
pub proof fn lemma_object_edit_keeps_keys(v: Value, p: Seq<Step>, n: Value, v2: Value)
    requires
        v is Object,
        p.len() > 0,
        v.replaced_at(p, n, v2),
    ensures
        p[0] is Field,
        v2 is Object,
        same_keys(v->Object_0@, v2->Object_0@),
        forall|j: int|
            0 <= j < v->Object_0@.len() && v->Object_0@[j].0@ != p[0]->Field_0 ==> #[trigger] v2->Object_0@[j]
                == v->Object_0@[j],
{
    let a = v->Object_0@;
    let k = p[0]->Field_0;
    let i = key_position(a, k)->Some_0;
    assert(a[i].0@ == k);
}

/// An edit keeps a well-formed tree well formed when the new node is well
/// formed: no object gains a repeated key.
pub proof fn lemma_edit_keeps_wf(v: Value, p: Seq<Step>, n: Value, v2: Value)
    requires
        v.wf(),
        n.wf(),
        v.replaced_at(p, n, v2),
    ensures
        v2.wf(),
    decreases p.len(),
{
    if p.len() > 0 {
        let c = v.child(p[0])->Some_0;
        let c2 = v2.child(p[0])->Some_0;
        match v {
            Value::Array(a) => {
                let i = p[0]->Index_0 as int;
                assert(a@[i].wf());
                lemma_edit_keeps_wf(c, p.drop_first(), n, c2);
                let b = v2->Array_0@;
                assert forall|j: int| 0 <= j < b.len() implies (#[trigger] b[j]).wf() by {
                    if j != i {
                        assert(a@[j].wf());
                    }
                }
            },
            Value::Object(a) => {
                let i = key_position(a@, p[0]->Field_0)->Some_0;
                assert(a@[i].1.wf());
                lemma_edit_keeps_wf(c, p.drop_first(), n, c2);
                let b = v2->Object_0@;
                assert(same_keys(a@, b));
                assert forall|j: int| 0 <= j < b.len() implies (#[trigger] b[j]).1.wf() by {
                    if j != i {
                        assert(a@[j].1.wf());
                    }
                }
                assert forall|x: int, y: int|
                    0 <= x < b.len() && 0 <= y < b.len() && x != y implies b[x].0@ != b[y].0@ by {
                    assert(a@[x].0 == b[x].0);
                    assert(a@[y].0 == b[y].0);
                }
            },
            _ => {
            },
        }
    }
}

} // verus!
