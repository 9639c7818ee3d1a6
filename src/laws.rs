use vstd::prelude::*;

use crate::store::{
    fresh_record, lemma_add_wf, lemma_delete_wf, lemma_lookup_found, lemma_lookup_is_first_live,
    lemma_mark_wf, lemma_update_wf, scrubbed, ListModel, ListOp,
};
use crate::types::{utf8_len, TodoError, MAX_CONTENT_LEN, MAX_TODO_LIST_LENGTH};

verus! {

/// Every operation, successful or not, keeps a list well formed.
pub proof fn lemma_step_wf(v: ListModel, op: ListOp)
    requires
        v.wf(),
    ensures
        v.step(op).wf(),
{
    match op {
        ListOp::Add(id, content) => {
            if v.add_outcome(content) is Ok {
                lemma_add_wf(v, id, content);
            }
        },
        ListOp::MarkDone(id) => {
            if v.holds_live(id) {
                lemma_lookup_found(v, id);
                lemma_mark_wf(v, v.lookup(id));
            }
        },
        ListOp::UpdateContent(id, content) => {
            if utf8_len(content) <= MAX_CONTENT_LEN && v.holds_live(id) {
                lemma_lookup_found(v, id);
                lemma_update_wf(v, v.lookup(id), content);
            }
        },
        ListOp::Delete(id) => {
            if v.holds_live(id) {
                lemma_lookup_found(v, id);
                lemma_delete_wf(v, v.lookup(id));
            }
        },
    }
}

/// After any sequence of operations on a well-formed list, the number of
/// slots stays within `MAX_TODO_LIST_LENGTH`, the live count equals the slots
/// less the free ones, and the rest of the invariant holds.
pub proof fn lemma_run_keeps_invariant(v: ListModel, ops: Seq<ListOp>)
    requires
        v.wf(),
    ensures
        v.run(ops).wf(),
        v.run(ops).slots.len() <= MAX_TODO_LIST_LENGTH,
        v.run(ops).count == v.run(ops).slots.len() - v.run(ops).free.len(),
    decreases ops.len(),
{
    if ops.len() > 0 {
        lemma_step_wf(v, ops[0]);
        lemma_run_keeps_invariant(v.step(ops[0]), ops.drop_first());
    }
}

/// An add with content within the bound fails with `ListFull` exactly when
/// every slot is allocated.
pub proof fn lemma_list_full_exactly(v: ListModel, content: Seq<char>)
    requires
        v.wf(),
        utf8_len(content) <= MAX_CONTENT_LEN,
    ensures
        (v.add_outcome(content) == Err::<(), TodoError>(TodoError::ListFull)) <==> v.slots.len()
            == MAX_TODO_LIST_LENGTH,
{
}

/// Freed slots are reused last-freed-first: after the live slots `s0`, `s1`,
/// `s2` are deleted in that order, the next three adds fill `s2`, `s1`, `s0`.
pub proof fn lemma_reuse_is_lifo(
    v: ListModel,
    s0: int,
    s1: int,
    s2: int,
    a: Seq<u8>,
    ca: Seq<char>,
    b: Seq<u8>,
    cb: Seq<char>,
    c: Seq<u8>,
    cc: Seq<char>,
)
    requires
        v.wf(),
        v.slots.len() < MAX_TODO_LIST_LENGTH,
        v.is_live(s0),
        v.is_live(s1),
        v.is_live(s2),
        s0 != s1,
        s1 != s2,
        s0 != s2,
        utf8_len(ca) <= MAX_CONTENT_LEN,
        utf8_len(cb) <= MAX_CONTENT_LEN,
        utf8_len(cc) <= MAX_CONTENT_LEN,
    ensures
        ({
            let d = v.after_delete(s0).after_delete(s1).after_delete(s2);
            let w1 = d.step(ListOp::Add(a, ca));
            let w2 = w1.step(ListOp::Add(b, cb));
            let w3 = w2.step(ListOp::Add(c, cc));
            &&& d.add_target() == s2
            &&& w1.add_target() == s1
            &&& w2.add_target() == s0
            &&& w1.slots[s2] == fresh_record(a, ca)
            &&& w2.slots[s1] == fresh_record(b, cb)
            &&& w3.slots[s0] == fresh_record(c, cc)
            &&& w3.free == v.free
        }),
{
    let d0 = v.after_delete(s0);
    lemma_delete_wf(v, s0);
    let d1 = d0.after_delete(s1);
    lemma_delete_wf(d0, s1);
    let d = d1.after_delete(s2);
    lemma_delete_wf(d1, s2);
    lemma_add_wf(d, a, ca);
    let w1 = d.after_add(a, ca);
    assert(w1.free =~= d1.free);
    lemma_add_wf(w1, b, cb);
    let w2 = w1.after_add(b, cb);
    assert(w2.free =~= d0.free);
    lemma_add_wf(w2, c, cc);
    let w3 = w2.after_add(c, cc);
    assert(w3.free =~= v.free);
}

/// Once a record is deleted, its slot holds empty content, no completion and
/// the zero id, and keeps them through any later operations for as long as
/// the slot stays free.
pub proof fn lemma_freed_slot_stays_scrubbed(v: ListModel, id: Seq<u8>, ops: Seq<ListOp>)
    requires
        v.wf(),
        v.holds_live(id),
    ensures
        scrubbed(v.step(ListOp::Delete(id)).slots[v.lookup(id)]),
        v.step(ListOp::Delete(id)).run(ops).free.contains(v.lookup(id)) ==> scrubbed(
            v.step(ListOp::Delete(id)).run(ops).slots[v.lookup(id)],
        ),
{
    let i = v.lookup(id);
    lemma_lookup_found(v, id);
    lemma_delete_wf(v, i);
    let d = v.step(ListOp::Delete(id));
    lemma_run_keeps_invariant(d, ops);
    let w = d.run(ops);
    if w.free.contains(i) {
        let k = choose|k: int| 0 <= k < w.free.len() && w.free[k] == i;
        assert(scrubbed(w.slots[w.free[k]]));
    }
}

/// `op` adds a record with `id`.
pub open spec fn adds_id(op: ListOp, id: Seq<u8>) -> bool {
    match op {
        ListOp::Add(a, _) => a == id,
        _ => false,
    }
}

/// An id that no live record carries stays so through any operation but an
/// add of that id.
pub proof fn lemma_absent_stays_absent(v: ListModel, op: ListOp, id: Seq<u8>)
    requires
        v.wf(),
        !v.holds_live(id),
        !adds_id(op, id),
    ensures
        !v.step(op).holds_live(id),
{
    let w = v.step(op);
    match op {
        ListOp::Add(a, content) => {
            if v.add_outcome(content) is Ok {
                lemma_add_wf(v, a, content);
                assert forall|j: int| #[trigger] w.is_live(j) implies w.slots[j].id != id by {
                    if j != v.add_target() {
                        assert(v.is_live(j));
                    }
                }
            }
        },
        ListOp::MarkDone(x) => {
            if v.holds_live(x) {
                lemma_lookup_found(v, x);
                assert forall|j: int| #[trigger] w.is_live(j) implies w.slots[j].id != id by {
                    assert(v.is_live(j));
                }
            }
        },
        ListOp::UpdateContent(x, content) => {
            if utf8_len(content) <= MAX_CONTENT_LEN && v.holds_live(x) {
                lemma_lookup_found(v, x);
                assert forall|j: int| #[trigger] w.is_live(j) implies w.slots[j].id != id by {
                    assert(v.is_live(j));
                }
            }
        },
        ListOp::Delete(x) => {
            if v.holds_live(x) {
                lemma_lookup_found(v, x);
                lemma_delete_wf(v, v.lookup(x));
            }
        },
    }
}

/// An id that was never added is not found, whatever else was done.
pub proof fn lemma_never_added_not_found(v: ListModel, ops: Seq<ListOp>, id: Seq<u8>)
    requires
        v.wf(),
        !v.holds_live(id),
        forall|k: int| 0 <= k < ops.len() ==> !adds_id(#[trigger] ops[k], id),
    ensures
        !v.run(ops).holds_live(id),
    decreases ops.len(),
{
    if ops.len() > 0 {
        lemma_absent_stays_absent(v, ops[0], id);
        lemma_step_wf(v, ops[0]);
        let rest = ops.drop_first();
        assert forall|k: int| 0 <= k < rest.len() implies !adds_id(#[trigger] rest[k], id) by {
            assert(rest[k] == ops[k + 1]);
        }
        lemma_never_added_not_found(v.step(ops[0]), rest, id);
    }
}

/// Once the only live record with `id` is deleted, `id` is not found.
pub proof fn lemma_deleted_not_found(v: ListModel, id: Seq<u8>)
    requires
        v.wf(),
        v.holds_live(id),
        forall|j: int| #[trigger] v.is_live(j) && v.slots[j].id == id ==> j == v.lookup(id),
    ensures
        !v.step(ListOp::Delete(id)).holds_live(id),
{
    lemma_lookup_found(v, id);
    lemma_delete_wf(v, v.lookup(id));
}

/// Marking a record done twice succeeds both times; the second time changes
/// nothing, and the record stays completed.
pub proof fn lemma_mark_done_idempotent(v: ListModel, id: Seq<u8>)
    requires
        v.wf(),
        v.holds_live(id),
    ensures
        v.step(ListOp::MarkDone(id)).holds_live(id),
        v.step(ListOp::MarkDone(id)).step(ListOp::MarkDone(id)) == v.step(ListOp::MarkDone(id)),
        v.step(ListOp::MarkDone(id)).slots[v.step(ListOp::MarkDone(id)).lookup(id)].completed,
{
    let i = v.lookup(id);
    lemma_lookup_found(v, id);
    let w = v.after_mark(i);
    assert forall|j: int| #[trigger] w.is_live(j) <==> v.is_live(j) by {}
    assert(w.is_first_live(i, id));
    lemma_lookup_is_first_live(w, i, id);
    assert(w.after_mark(i).slots =~= w.slots);
}

} // verus!
