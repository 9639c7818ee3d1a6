use vstd::prelude::*;

verus! {

/// Largest number of slots, live and tombstoned together, that a list may hold.
pub const MAX_TODO_LIST_LENGTH: usize = 40;

/// Largest length, in UTF-8 bytes, of a record's content.
pub const MAX_CONTENT_LEN: usize = 200;

/// Width of an identity in bytes.
pub const IDENTITY_LEN: usize = 32;

/// Failures that the list operations report.
#[derive(Clone, Copy, Debug, PartialEq, Eq, Structural)]
pub enum TodoError {
    /// No live record carries the requested id.
    TodoNotFound,
    /// The content is longer than `MAX_CONTENT_LEN` bytes.
    ContentTooLong,
    /// Every slot of the list is allocated.
    ListFull,
    /// A slot index is out of bounds; the list's invariant rules this out.
    IndexOob,
}

/// A fixed-width identity: the owner of a list, or the id of a record.
#[derive(Clone, Copy, Debug, PartialEq, Eq)]
pub struct Identity {
    pub bytes: [u8; 32],
}

/// The sentinel identity, all bytes zero.
pub open spec fn zero_identity() -> Seq<u8> {
    Seq::new(32, |i: int| 0u8)
}

impl View for Identity {
    type V = Seq<u8>;

    open spec fn view(&self) -> Seq<u8> {
        self.bytes@
    }
}

impl Identity {
    /// Builds an identity from its bytes.
    pub fn new(bytes: [u8; 32]) -> (r: Identity)
        ensures
            r@ == bytes@,
    {
        Identity { bytes }
    }

    /// The sentinel identity that a scrubbed slot carries.
    pub fn zero() -> (r: Identity)
        ensures
            r@ == zero_identity(),
    {
        let r = Identity { bytes: [0u8; 32] };
        assert(r@ =~= zero_identity());
        r
    }

    /// Compares two identities byte by byte.
    pub fn same_as(&self, other: &Identity) -> (r: bool)
        ensures
            r == (self@ == other@),
    {
        let mut i: usize = 0;
        while i < IDENTITY_LEN
            invariant
                0 <= i <= IDENTITY_LEN,
                self@.len() == 32,
                other@.len() == 32,
                forall|j: int| 0 <= j < i ==> self@[j] == other@[j],
            decreases IDENTITY_LEN - i,
        {
            if self.bytes[i] != other.bytes[i] {
                return false;
            }
            i = i + 1;
        }
        assert(self@ =~= other@);
        true
    }
}

impl Default for Identity {
    fn default() -> (r: Identity)
        ensures
            r@ == zero_identity(),
    {
        Identity::zero()
    }
}

/// A record's abstract value.
pub ghost struct TodoModel {
    pub id: Seq<u8>,
    pub content: Seq<char>,
    pub completed: bool,
}

/// One record of a list.
#[derive(Clone, Debug)]
pub struct Todo {
    pub id: Identity,
    pub content: String,
    pub completed: bool,
}

impl Todo {
    pub open spec fn model(&self) -> TodoModel {
        TodoModel { id: self.id@, content: self.content@, completed: self.completed }
    }
}

/// Length in bytes of the UTF-8 encoding of `s`, as `str::len` reports it.
pub open spec fn utf8_len(s: Seq<char>) -> usize {
    vstd::utf8::encode_utf8(s).len() as usize
}

/// Length in bytes of a string's UTF-8 encoding.
pub fn byte_len(s: &String) -> (r: usize)
    ensures
        r == utf8_len(s@),
{
    s.as_str().len()
}

} // verus!
