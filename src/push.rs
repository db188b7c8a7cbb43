use vstd::prelude::*;

verus! {

/// The kinds of server data that a state change can name.
#[derive(Clone, Copy, Debug, PartialEq, Eq, Structural)]
pub enum DataType {
    Core,
    Mailbox,
    Email,
    Thread,
    Identity,
    EmailSubmission,
    Other,
}

/// The new state of one kind of data in one account.
#[derive(Clone, Debug)]
pub struct TypeState {
    pub data_type: DataType,
    pub state: String,
}

/// The changes of one account.
#[derive(Clone, Debug)]
pub struct AccountChange {
    pub account_id: String,
    pub changed: Vec<TypeState>,
}

/// A notification pushed by the server.
#[derive(Clone, Debug)]
pub enum PushObject {
    StateChange { changed: Vec<AccountChange> },
    Other,
}

impl PushObject {
    /// Whether the notification is a state change that names a kind of data in
    /// some account.
    pub open spec fn names(&self, t: DataType) -> bool {
        match self {
            PushObject::StateChange { changed } => exists|i: int, j: int|
                0 <= i < changed@.len() && 0 <= j < changed@[i].changed@.len()
                    && (#[trigger] changed@[i].changed@[j]).data_type == t,
            PushObject::Other => false,
        }
    }

    pub fn mentions(&self, t: DataType) -> (r: bool)
        ensures
            r == self.names(t),
    {
        match self {
            PushObject::StateChange { changed } => {
                let mut i: usize = 0;
                while i < changed.len()
                    invariant
                        *self == (PushObject::StateChange { changed: *changed }),
                        i <= changed@.len(),
                        forall|x: int, y: int|
                            0 <= x < i && 0 <= y < changed@[x].changed@.len()
                                ==> (#[trigger] changed@[x].changed@[y]).data_type != t,
                    decreases changed@.len() - i,
                {
                    let types = &changed[i].changed;
                    let mut j: usize = 0;
                    while j < types.len()
                        invariant
                            *self == (PushObject::StateChange { changed: *changed }),
                            i < changed@.len(),
                            *types == changed@[i as int].changed,
                            j <= types@.len(),
                            forall|y: int| 0 <= y < j ==> (#[trigger] types@[y]).data_type != t,
                        decreases types@.len() - j,
                    {
                        if types[j].data_type == t {
                            assert(changed@[i as int].changed@[j as int].data_type == t);
                            assert(self.names(t));
                            return true;
                        }
                        j = j + 1;
                    }
                    i = i + 1;
                }
                false
            },
            PushObject::Other => false,
        }
    }
}

} // verus!
