use vstd::prelude::*;
use vstd::set_lib::{lemma_int_range, lemma_len_subset, set_int_range};

use crate::types::{
    byte_len, utf8_len, zero_identity, Identity, Todo, TodoError, TodoModel, MAX_CONTENT_LEN,
    MAX_TODO_LIST_LENGTH,
};

verus! {

/// A list's abstract value: its owner, its live count, its free-slot stack
/// (top at the end) and its slots.
pub ghost struct ListModel {
    pub authority: Seq<u8>,
    pub count: int,
    pub free: Seq<int>,
    pub slots: Seq<TodoModel>,
}

/// One operation on a list, over abstract values.
pub ghost enum ListOp {
    Add(Seq<u8>, Seq<char>),
    MarkDone(Seq<u8>),
    UpdateContent(Seq<u8>, Seq<char>),
    Delete(Seq<u8>),
}

/// A record as a tombstoned slot holds it.
pub open spec fn scrubbed(t: TodoModel) -> bool {
    t.content.len() == 0 && !t.completed && t.id == zero_identity()
}

/// A freshly created record.
pub open spec fn fresh_record(id: Seq<u8>, content: Seq<char>) -> TodoModel {
    TodoModel { id, content, completed: false }
}

impl ListModel {
    /// Slot `i` is allocated and not on the free stack.
    pub open spec fn is_live(self, i: int) -> bool {
        0 <= i < self.slots.len() && !self.free.contains(i)
    }

    /// Slot `i` is the first live slot, in slot order, that carries `id`.
    pub open spec fn is_first_live(self, i: int, id: Seq<u8>) -> bool {
        &&& self.is_live(i)
        &&& self.slots[i].id == id
        &&& forall|j: int| 0 <= j < i ==> !(#[trigger] self.is_live(j) && self.slots[j].id == id)
    }

    /// Some live slot carries `id`.
    pub open spec fn holds_live(self, id: Seq<u8>) -> bool {
        exists|i: int| #[trigger] self.is_live(i) && self.slots[i].id == id
    }

    /// The slot that a lookup of `id` finds.
    pub open spec fn lookup(self, id: Seq<u8>) -> int {
        choose|i: int| self.is_first_live(i, id)
    }

    /// The invariant of a list.
    pub open spec fn wf(self) -> bool {
        &&& self.slots.len() <= MAX_TODO_LIST_LENGTH
        &&& 0 <= self.count == self.slots.len() - self.free.len()
        &&& self.free.no_duplicates()
        &&& forall|k: int| 0 <= k < self.free.len() ==> 0 <= #[trigger] self.free[k] < self.slots.len()
        &&& forall|i: int| #[trigger] self.is_live(i) ==> utf8_len(self.slots[i].content) <= MAX_CONTENT_LEN
        &&& forall|k: int| 0 <= k < self.free.len() ==> scrubbed(self.slots[#[trigger] self.free[k]])
    }

    /// The slot that the next successful add writes: the top of the free
    /// stack, or a new slot at the end.
    pub open spec fn add_target(self) -> int {
        if self.free.len() > 0 {
            self.free.last()
        } else {
            self.slots.len() as int
        }
    }

    /// What an add of `content` reports.
    pub open spec fn add_outcome(self, content: Seq<char>) -> Result<(), TodoError> {
        if utf8_len(content) > MAX_CONTENT_LEN {
            Err(TodoError::ContentTooLong)
        } else if self.slots.len() >= MAX_TODO_LIST_LENGTH {
            Err(TodoError::ListFull)
        } else {
            Ok(())
        }
    }

    /// The list after a successful add.
    pub open spec fn after_add(self, id: Seq<u8>, content: Seq<char>) -> ListModel {
        if self.free.len() > 0 {
            ListModel {
                count: self.count + 1,
                free: self.free.drop_last(),
                slots: self.slots.update(self.free.last(), fresh_record(id, content)),
                ..self
            }
        } else {
            ListModel {
                count: self.count + 1,
                slots: self.slots.push(fresh_record(id, content)),
                ..self
            }
        }
    }

    /// The list after slot `i` is marked done.
    pub open spec fn after_mark(self, i: int) -> ListModel {
        ListModel {
            slots: self.slots.update(i, TodoModel { completed: true, ..self.slots[i] }),
            ..self
        }
    }

    /// The list after slot `i` gets new content.
    pub open spec fn after_update(self, i: int, content: Seq<char>) -> ListModel {
        ListModel {
            slots: self.slots.update(i, TodoModel { content, ..self.slots[i] }),
            ..self
        }
    }

    /// The list after `op`, whether it succeeds or fails; a failing
    /// operation leaves the list as it was.
    pub open spec fn step(self, op: ListOp) -> ListModel {
        match op {
            ListOp::Add(id, content) => if self.add_outcome(content) is Ok {
                self.after_add(id, content)
            } else {
                self
            },
            ListOp::MarkDone(id) => if self.holds_live(id) {
                self.after_mark(self.lookup(id))
            } else {
                self
            },
            ListOp::UpdateContent(id, content) => if utf8_len(content) <= MAX_CONTENT_LEN
                && self.holds_live(id) {
                self.after_update(self.lookup(id), content)
            } else {
                self
            },
            ListOp::Delete(id) => if self.holds_live(id) {
                self.after_delete(self.lookup(id))
            } else {
                self
            },
        }
    }

    /// The list after each of `ops` in turn.
    pub open spec fn run(self, ops: Seq<ListOp>) -> ListModel
        decreases ops.len(),
    {
        if ops.len() == 0 {
            self
        } else {
            self.step(ops[0]).run(ops.drop_first())
        }
    }

    /// The list after slot `i` is scrubbed and freed.
    pub open spec fn after_delete(self, i: int) -> ListModel {
        ListModel {
            count: self.count - 1,
            free: self.free.push(i),
            slots: self.slots.update(i, fresh_record(zero_identity(), Seq::empty())),
            ..self
        }
    }
}

/// A per-owner list of records in a bounded number of slots, where deleted
/// slots are scrubbed and reused last-freed-first.
pub struct TodoListAccountData {
    pub authority: Identity,
    pub count: u16,
    pub deleted_indexes: Vec<u16>,
    pub todos: Vec<Todo>,
}

impl View for TodoListAccountData {
    type V = ListModel;

    open spec fn view(&self) -> ListModel {
        ListModel {
            authority: self.authority@,
            count: self.count as int,
            free: self.deleted_indexes@.map_values(|x: u16| x as int),
            slots: self.todos@.map_values(|t: Todo| t.model()),
        }
    }
}

impl TodoListAccountData {
    /// An empty list owned by `authority`.
    pub fn new(authority: Identity) -> (r: TodoListAccountData)
        ensures
            r@.wf(),
            r@.authority == authority@,
            r@.count == 0,
            r@.free.len() == 0,
            r@.slots.len() == 0,
    {
        let r = TodoListAccountData {
            authority,
            count: 0,
            deleted_indexes: Vec::new(),
            todos: Vec::new(),
        };
        assert(r@.free =~= Seq::<int>::empty());
        assert(r@.slots =~= Seq::<TodoModel>::empty());
        r
    }

    /// Whether slot `i` is on the free stack.
    pub fn is_free(&self, i: usize) -> (r: bool)
        ensures
            r == self@.free.contains(i as int),
    {
        let mut k: usize = 0;
        while k < self.deleted_indexes.len()
            invariant
                0 <= k <= self.deleted_indexes@.len(),
                self@.free.len() == self.deleted_indexes@.len(),
                forall|j: int| 0 <= j < k ==> self@.free[j] != i as int,
            decreases self.deleted_indexes@.len() - k,
        {
            if self.deleted_indexes[k] as usize == i {
                assert(self@.free[k as int] == i as int);
                return true;
            }
            k = k + 1;
        }
        false
    }

    /// Whether the list satisfies its invariant; a list read back from
    /// storage is checked with this before any operation.
    pub fn is_well_formed(&self) -> (r: bool)
        ensures
            r == self@.wf(),
    {
        let ghost v = self@;
        let n = self.todos.len();
        let nf = self.deleted_indexes.len();
        if n > MAX_TODO_LIST_LENGTH || nf > n || self.count as usize != n - nf {
            return false;
        }
        let mut k: usize = 0;
        while k < nf
            invariant
                0 <= k <= nf,
                v == self@,
                n == v.slots.len(),
                nf == v.free.len(),
                forall|a: int| 0 <= a < k ==> 0 <= #[trigger] v.free[a] < n,
                forall|a: int| 0 <= a < k ==> scrubbed(v.slots[#[trigger] v.free[a]]),
                forall|a: int, b: int| 0 <= a < b < k ==> v.free[a] != v.free[b],
            decreases nf - k,
        {
            let slot = self.deleted_indexes[k] as usize;
            assert(v.free[k as int] == slot as int);
            if slot >= n {
                return false;
            }
            let t = &self.todos[slot];
            assert(v.slots[slot as int] == t.model());
            if !t.content.as_str().is_empty() || t.completed || !t.id.same_as(&Identity::zero()) {
                return false;
            }
            let mut m: usize = 0;
            while m < k
                invariant
                    0 <= m <= k < nf,
                    v == self@,
                    nf == v.free.len(),
                    v.free[k as int] == slot as int,
                    forall|a: int| 0 <= a < m ==> v.free[a] != v.free[k as int],
                decreases k - m,
            {
                if self.deleted_indexes[m] as usize == slot {
                    assert(v.free[m as int] == v.free[k as int]);
                    return false;
                }
                m = m + 1;
            }
            k = k + 1;
        }
        let mut i: usize = 0;
        while i < n
            invariant
                0 <= i <= n,
                v == self@,
                n == v.slots.len(),
                forall|j: int| 0 <= j < i && #[trigger] v.is_live(j) ==> utf8_len(v.slots[j].content) <= MAX_CONTENT_LEN,
            decreases n - i,
        {
            if !self.is_free(i) && byte_len(&self.todos[i].content) > MAX_CONTENT_LEN {
                assert(v.is_live(i as int));
                return false;
            }
            i = i + 1;
        }
        assert(v.free.no_duplicates());
        true
    }

    /// The first live slot, in slot order, that carries `id`.
    pub fn get_todo_index(&self, id: Identity) -> (r: Result<usize, TodoError>)
        ensures
            match r {
                Ok(i) => self@.is_first_live(i as int, id@),
                Err(e) => e == TodoError::TodoNotFound && !self@.holds_live(id@),
            },
    {
        let mut i: usize = 0;
        while i < self.todos.len()
            invariant
                0 <= i <= self.todos@.len(),
                self@.slots.len() == self.todos@.len(),
                forall|j: int| 0 <= j < i ==> !(#[trigger] self@.is_live(j) && self@.slots[j].id == id@),
            decreases self.todos@.len() - i,
        {
            if self.todos[i].id.same_as(&id) && !self.is_free(i) {
                return Ok(i);
            }
            i = i + 1;
        }
        Err(TodoError::TodoNotFound)
    }
}

/// Only one slot can be the first live one that carries a given id.
pub proof fn lemma_lookup_is_first_live(v: ListModel, i: int, id: Seq<u8>)
    requires
        v.is_first_live(i, id),
    ensures
        v.lookup(id) == i,
{
    let j = v.lookup(id);
    assert(v.is_first_live(j, id));
    if j < i {
        assert(v.is_live(j));
    } else if i < j {
        assert(v.is_live(i));
    }
}

/// Below any live slot carrying `id` there is a first such slot.
proof fn lemma_first_below(v: ListModel, id: Seq<u8>, i: int)
    requires
        v.is_live(i),
        v.slots[i].id == id,
    ensures
        exists|f: int| v.is_first_live(f, id),
    decreases i,
{
    if exists|j: int| 0 <= j < i && #[trigger] v.is_live(j) && v.slots[j].id == id {
        let j = choose|j: int| 0 <= j < i && #[trigger] v.is_live(j) && v.slots[j].id == id;
        lemma_first_below(v, id, j);
    } else {
        assert(v.is_first_live(i, id));
    }
}

/// A live slot carrying `id` makes the lookup of `id` succeed.
pub proof fn lemma_lookup_found(v: ListModel, id: Seq<u8>)
    requires
        v.holds_live(id),
    ensures
        v.is_first_live(v.lookup(id), id),
{
    let i = choose|i: int| #[trigger] v.is_live(i) && v.slots[i].id == id;
    lemma_first_below(v, id, i);
}

/// In a well-formed list, a live slot leaves room for at least one live count.
pub proof fn lemma_live_slot_counted(v: ListModel, i: int)
    requires
        v.wf(),
        v.is_live(i),
    ensures
        v.count >= 1,
{
    let range = set_int_range(0, v.slots.len() as int).remove(i);
    lemma_int_range(0, v.slots.len() as int);
    v.free.unique_seq_to_set();
    assert forall|x: int| v.free.to_set().contains(x) implies range.contains(x) by {
        let k = choose|k: int| 0 <= k < v.free.len() && v.free[k] == x;
        assert(0 <= v.free[k] < v.slots.len());
    }
    lemma_len_subset(v.free.to_set(), range);
}

/// A successful add keeps the invariant.
pub proof fn lemma_add_wf(v: ListModel, id: Seq<u8>, content: Seq<char>)
    requires
        v.wf(),
        v.add_outcome(content) is Ok,
    ensures
        v.after_add(id, content).wf(),
        v.after_add(id, content).is_live(v.add_target()),
        v.after_add(id, content).slots[v.add_target()] == fresh_record(id, content),
        forall|j: int|
            j != v.add_target() ==> (#[trigger] v.after_add(id, content).is_live(j) <==> v.is_live(j)),
        forall|j: int|
            0 <= j < v.slots.len() && j != v.add_target() ==> #[trigger] v.after_add(id, content).slots[j]
                == v.slots[j],
{
    let w = v.after_add(id, content);
    if v.free.len() > 0 {
        let t = v.free.last();
        assert(v.free.drop_last() =~= v.free.subrange(0, v.free.len() - 1));
        assert forall|x: int| #![auto] v.free.drop_last().contains(x) implies x != t && v.free.contains(x) by {
            let k = choose|k: int| 0 <= k < v.free.len() - 1 && v.free.drop_last()[k] == x;
            assert(v.free[k] == x);
        }
        assert forall|x: int| #![auto] v.free.contains(x) && x != t implies v.free.drop_last().contains(x) by {
            let k = choose|k: int| 0 <= k < v.free.len() && v.free[k] == x;
            assert(k != v.free.len() - 1);
            assert(w.free[k] == x);
        }
        assert forall|i: int| #[trigger] w.is_live(i) implies utf8_len(w.slots[i].content) <= MAX_CONTENT_LEN by {
            if i != t {
                assert(v.is_live(i));
            }
        }
        assert forall|k: int| 0 <= k < w.free.len() implies scrubbed(w.slots[#[trigger] w.free[k]]) by {
            assert(w.free[k] == v.free[k]);
            assert(v.free[k] != t);
        }
    } else {
        assert forall|i: int| #[trigger] w.is_live(i) implies utf8_len(w.slots[i].content) <= MAX_CONTENT_LEN by {
            if i != v.slots.len() {
                assert(v.is_live(i));
            }
        }
    }
}

/// Marking a live slot done keeps the invariant.
pub proof fn lemma_mark_wf(v: ListModel, i: int)
    requires
        v.wf(),
        v.is_live(i),
    ensures
        v.after_mark(i).wf(),
{
    let w = v.after_mark(i);
    assert forall|j: int| #[trigger] w.is_live(j) implies utf8_len(w.slots[j].content) <= MAX_CONTENT_LEN by {
        assert(v.is_live(j));
    }
    assert forall|k: int| 0 <= k < w.free.len() implies scrubbed(w.slots[#[trigger] w.free[k]]) by {
        assert(v.free.contains(w.free[k]));
    }
}

/// Replacing a live slot's content by one within the bound keeps the invariant.
pub proof fn lemma_update_wf(v: ListModel, i: int, content: Seq<char>)
    requires
        v.wf(),
        v.is_live(i),
        utf8_len(content) <= MAX_CONTENT_LEN,
    ensures
        v.after_update(i, content).wf(),
{
    let w = v.after_update(i, content);
    assert forall|j: int| #[trigger] w.is_live(j) implies utf8_len(w.slots[j].content) <= MAX_CONTENT_LEN by {
        assert(v.is_live(j));
    }
    assert forall|k: int| 0 <= k < w.free.len() implies scrubbed(w.slots[#[trigger] w.free[k]]) by {
        assert(v.free.contains(w.free[k]));
    }
}

/// Deleting a live slot keeps the invariant.
pub proof fn lemma_delete_wf(v: ListModel, i: int)
    requires
        v.wf(),
        v.is_live(i),
    ensures
        v.after_delete(i).wf(),
        forall|j: int| #[trigger] v.after_delete(i).is_live(j) <==> (v.is_live(j) && j != i),
        scrubbed(v.after_delete(i).slots[i]),
{
    let w = v.after_delete(i);
    lemma_live_slot_counted(v, i);
    lemma_empty_utf8_len(Seq::empty());
    assert forall|x: int| #![auto] w.free.contains(x) <==> (v.free.contains(x) || x == i) by {
        if w.free.contains(x) {
            let k = choose|k: int| 0 <= k < w.free.len() && w.free[k] == x;
            if k < v.free.len() {
                assert(v.free[k] == x);
            }
        }
        if v.free.contains(x) {
            let k = choose|k: int| 0 <= k < v.free.len() && v.free[k] == x;
            assert(w.free[k] == x);
        }
        if x == i {
            assert(w.free[v.free.len() as int] == x);
        }
    }
    assert forall|j: int| #[trigger] w.is_live(j) implies utf8_len(w.slots[j].content) <= MAX_CONTENT_LEN by {
        assert(v.is_live(j));
    }
    assert forall|k: int| 0 <= k < w.free.len() implies scrubbed(w.slots[#[trigger] w.free[k]]) by {
        if k < v.free.len() {
            assert(w.free[k] == v.free[k]);
        }
    }
}

/// Empty text takes no bytes.
pub proof fn lemma_empty_utf8_len(s: Seq<char>)
    requires
        s.len() == 0,
    ensures
        utf8_len(s) == 0,
{
    assert(vstd::utf8::encode_utf8(s) =~= Seq::<u8>::empty());
}

/// Every slot of a well-formed list, live or free, holds content within the bound.
pub proof fn lemma_all_contents_bounded(v: ListModel)
    requires
        v.wf(),
    ensures
        forall|i: int| 0 <= i < v.slots.len() ==> utf8_len(#[trigger] v.slots[i].content) <= MAX_CONTENT_LEN,
{
    assert forall|i: int| 0 <= i < v.slots.len() implies utf8_len(#[trigger] v.slots[i].content) <= MAX_CONTENT_LEN by {
        if v.free.contains(i) {
            let k = choose|k: int| 0 <= k < v.free.len() && v.free[k] == i;
            assert(scrubbed(v.slots[v.free[k]]));
            lemma_empty_utf8_len(v.slots[i].content);
        } else {
            assert(v.is_live(i));
        }
    }
}

/// Resets `list` to an empty list owned by `authority`.
pub fn initialize(list: &mut TodoListAccountData, authority: Identity)
    ensures
        final(list)@.wf(),
        final(list)@.authority == authority@,
        final(list)@.count == 0,
        final(list)@.free.len() == 0,
        final(list)@.slots.len() == 0,
{
    *list = TodoListAccountData::new(authority);
}

/// Adds a record with `id` and `content`, not completed, in the slot that was
/// freed last, or else in a new slot at the end.
pub fn add_todo(list: &mut TodoListAccountData, id: Identity, content: String) -> (r: Result<(), TodoError>)
    requires
        old(list)@.wf(),
    ensures
        final(list)@.wf(),
        r == old(list)@.add_outcome(content@),
        r is Ok ==> final(list)@ == old(list)@.after_add(id@, content@),
        final(list)@ == old(list)@.step(ListOp::Add(id@, content@)),
        r is Err ==> final(list)@ == old(list)@,
{
    if byte_len(&content) > MAX_CONTENT_LEN {
        return Err(TodoError::ContentTooLong);
    }
    if list.todos.len() >= MAX_TODO_LIST_LENGTH {
        return Err(TodoError::ListFull);
    }
    let ghost v = list@;
    proof {
        lemma_add_wf(v, id@, content@);
    }
    let new_todo = Todo { id, content, completed: false };
    match list.deleted_indexes.pop() {
        Some(slot) => {
            let i = slot as usize;
            assert(v.free[v.free.len() - 1] == i as int);
            list.todos.set(i, new_todo);
        },
        None => {
            list.todos.push(new_todo);
        },
    }
    list.count = list.count + 1;
    assert(list@.free =~= v.after_add(id@, content@).free);
    assert(list@.slots =~= v.after_add(id@, content@).slots);
    Ok(())
}

/// Marks the first live record with `id` as completed.
pub fn mark_done(list: &mut TodoListAccountData, id: Identity) -> (r: Result<(), TodoError>)
    requires
        old(list)@.wf(),
    ensures
        final(list)@.wf(),
        r is Ok <==> old(list)@.holds_live(id@),
        r is Ok ==> final(list)@ == old(list)@.after_mark(old(list)@.lookup(id@)),
        final(list)@ == old(list)@.step(ListOp::MarkDone(id@)),
        r is Err ==> r == Err::<(), TodoError>(TodoError::TodoNotFound) && final(list)@ == old(list)@,
{
    let i = match list.get_todo_index(id) {
        Ok(i) => i,
        Err(e) => return Err(e),
    };
    let ghost v = list@;
    proof {
        lemma_lookup_is_first_live(v, i as int, id@);
        lemma_mark_wf(v, i as int);
    }
    let mut t = Todo { id: Identity::zero(), content: String::new(), completed: false };
    list.todos.set_and_swap(i, &mut t);
    t.completed = true;
    list.todos.set(i, t);
    assert(list@.slots =~= v.after_mark(i as int).slots);
    Ok(())
}

/// Replaces the content of the first live record with `id`.
pub fn update_content(list: &mut TodoListAccountData, id: Identity, content: String) -> (r: Result<(), TodoError>)
    requires
        old(list)@.wf(),
    ensures
        final(list)@.wf(),
        r is Ok <==> utf8_len(content@) <= MAX_CONTENT_LEN && old(list)@.holds_live(id@),
        utf8_len(content@) > MAX_CONTENT_LEN ==> r == Err::<(), TodoError>(TodoError::ContentTooLong),
        utf8_len(content@) <= MAX_CONTENT_LEN && !old(list)@.holds_live(id@) ==> r == Err::<(), TodoError>(TodoError::TodoNotFound),
        r is Ok ==> final(list)@ == old(list)@.after_update(old(list)@.lookup(id@), content@),
        final(list)@ == old(list)@.step(ListOp::UpdateContent(id@, content@)),
        r is Err ==> final(list)@ == old(list)@,
{
    if byte_len(&content) > MAX_CONTENT_LEN {
        return Err(TodoError::ContentTooLong);
    }
    let i = match list.get_todo_index(id) {
        Ok(i) => i,
        Err(e) => return Err(e),
    };
    let ghost v = list@;
    proof {
        lemma_lookup_is_first_live(v, i as int, id@);
        lemma_update_wf(v, i as int, content@);
    }
    let mut t = Todo { id: Identity::zero(), content: String::new(), completed: false };
    list.todos.set_and_swap(i, &mut t);
    t.content = content;
    list.todos.set(i, t);
    assert(list@.slots =~= v.after_update(i as int, content@).slots);
    Ok(())
}

/// Deletes the first live record with `id`: its slot is scrubbed and pushed
/// on the free stack, and the live count drops by one.
pub fn delete_todo(list: &mut TodoListAccountData, id: Identity) -> (r: Result<(), TodoError>)
    requires
        old(list)@.wf(),
    ensures
        final(list)@.wf(),
        r is Ok <==> old(list)@.holds_live(id@),
        r is Ok ==> final(list)@ == old(list)@.after_delete(old(list)@.lookup(id@)),
        final(list)@ == old(list)@.step(ListOp::Delete(id@)),
        r is Err ==> r == Err::<(), TodoError>(TodoError::TodoNotFound) && final(list)@ == old(list)@,
{
    let i = match list.get_todo_index(id) {
        Ok(i) => i,
        Err(e) => return Err(e),
    };
    let ghost v = list@;
    proof {
        lemma_lookup_is_first_live(v, i as int, id@);
        lemma_delete_wf(v, i as int);
        lemma_live_slot_counted(v, i as int);
    }
    let scrubbed_record = Todo { id: Identity::zero(), content: String::new(), completed: false };
    list.todos.set(i, scrubbed_record);
    list.deleted_indexes.push(i as u16);
    list.count = list.count - 1;
    assert(list@.free =~= v.after_delete(i as int).free);
    assert(list@.slots =~= v.after_delete(i as int).slots);
    Ok(())
}

} // verus!
