use vstd::prelude::*;

use crate::store::{lemma_all_contents_bounded, ListModel, TodoListAccountData};
use crate::types::{byte_len, utf8_len, TodoModel, MAX_CONTENT_LEN, MAX_TODO_LIST_LENGTH};

verus! {

/// Bytes of an identity in the serialized form.
pub const IDENTITY_SPACE: usize = 32;

/// Bytes of a length prefix in the serialized form.
pub const LENGTH_PREFIX_SPACE: usize = 4;

/// Largest serialized size of one record: id, length-prefixed content, flag.
pub const TODO_INIT_SPACE: usize = IDENTITY_SPACE + LENGTH_PREFIX_SPACE + MAX_CONTENT_LEN + 1;

/// Largest serialized size of a list: owner, live count, the free stack of
/// 2-byte indices and the slots, each sequence with its length prefix.
pub const LIST_INIT_SPACE: usize = IDENTITY_SPACE + 2 + LENGTH_PREFIX_SPACE + MAX_TODO_LIST_LENGTH * 2
    + LENGTH_PREFIX_SPACE + MAX_TODO_LIST_LENGTH * TODO_INIT_SPACE;

/// Serialized size of one record.
pub open spec fn todo_size(t: TodoModel) -> int {
    IDENTITY_SPACE + LENGTH_PREFIX_SPACE + utf8_len(t.content) + 1
}

/// Serialized size of a sequence of records, without its length prefix.
pub open spec fn slots_size(s: Seq<TodoModel>) -> int
    decreases s.len(),
{
    if s.len() == 0 {
        0
    } else {
        slots_size(s.drop_last()) + todo_size(s.last())
    }
}

/// Serialized size of a list.
pub open spec fn list_size(v: ListModel) -> int {
    IDENTITY_SPACE + 2 + LENGTH_PREFIX_SPACE + 2 * v.free.len() + LENGTH_PREFIX_SPACE + slots_size(
        v.slots,
    )
}

proof fn lemma_slots_size_bounded(s: Seq<TodoModel>)
    requires
        forall|i: int| 0 <= i < s.len() ==> utf8_len(#[trigger] s[i].content) <= MAX_CONTENT_LEN,
    ensures
        0 <= slots_size(s) <= s.len() * TODO_INIT_SPACE,
    decreases s.len(),
{
    if s.len() > 0 {
        let t = s.drop_last();
        assert forall|i: int| 0 <= i < t.len() implies utf8_len(#[trigger] t[i].content) <= MAX_CONTENT_LEN by {
            assert(t[i] == s[i]);
        }
        lemma_slots_size_bounded(t);
        assert(utf8_len(s[s.len() - 1].content) <= MAX_CONTENT_LEN);
        assert(t.len() * TODO_INIT_SPACE + TODO_INIT_SPACE == s.len() * TODO_INIT_SPACE) by (nonlinear_arith)
            requires
                t.len() + 1 == s.len(),
        ;
    }
}

/// A well-formed list always fits the space reserved for a full one.
pub proof fn lemma_list_fits_space(v: ListModel)
    requires
        v.wf(),
    ensures
        list_size(v) <= LIST_INIT_SPACE,
{
    lemma_all_contents_bounded(v);
    lemma_slots_size_bounded(v.slots);
    assert(v.slots.len() * TODO_INIT_SPACE <= MAX_TODO_LIST_LENGTH * TODO_INIT_SPACE) by (nonlinear_arith)
        requires
            v.slots.len() <= MAX_TODO_LIST_LENGTH,
    ;
}

impl TodoListAccountData {
    /// The size of the list's serialized form.
    pub fn serialized_len(&self) -> (r: usize)
        requires
            self@.wf(),
        ensures
            r == list_size(self@),
            r <= LIST_INIT_SPACE,
    {
        let ghost v = self@;
        proof {
            lemma_all_contents_bounded(v);
            lemma_list_fits_space(v);
        }
        let mut total: usize = 0;
        let mut i: usize = 0;
        while i < self.todos.len()
            invariant
                0 <= i <= self.todos@.len(),
                v == self@,
                v.slots.len() == self.todos@.len(),
                v.slots.len() <= MAX_TODO_LIST_LENGTH,
                forall|j: int| 0 <= j < v.slots.len() ==> utf8_len(#[trigger] v.slots[j].content) <= MAX_CONTENT_LEN,
                total == slots_size(v.slots.take(i as int)),
                total <= i * TODO_INIT_SPACE,
            decreases self.todos@.len() - i,
        {
            let n = byte_len(&self.todos[i].content);
            assert(i * TODO_INIT_SPACE + TODO_INIT_SPACE == (i + 1) * TODO_INIT_SPACE) by (nonlinear_arith);
            assert((i + 1) * TODO_INIT_SPACE <= MAX_TODO_LIST_LENGTH * TODO_INIT_SPACE) by (nonlinear_arith)
                requires
                    i + 1 <= MAX_TODO_LIST_LENGTH,
            ;
            assert(v.slots[i as int].content == self.todos@[i as int].content@);
            assert(v.slots.take(i + 1).drop_last() =~= v.slots.take(i as int));
            total = total + IDENTITY_SPACE + LENGTH_PREFIX_SPACE + n + 1;
            i = i + 1;
        }
        assert(v.slots.take(i as int) =~= v.slots);
        IDENTITY_SPACE + 2 + LENGTH_PREFIX_SPACE + 2 * self.deleted_indexes.len() + LENGTH_PREFIX_SPACE + total
    }
}

} // verus!
