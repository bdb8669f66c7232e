//! The operation registry: an in-memory map from operation id to embedding
//! operation record. An operation is registered once, transitions at most
//! once from in-progress to a terminal state, and never leaves a terminal
//! state.

use vstd::prelude::*;

verus! {

/// Status of an embedding operation.
#[derive(Debug, PartialEq, Eq, Clone, Copy, Structural)]
pub enum EmbedStatus {
    InProgress,
    Completed,
    Failed,
}

/// An embedding operation record.
#[derive(Debug)]
pub struct EmbedOperation {
    pub status: EmbedStatus,
    pub repo_url: String,
    pub message: String,
}

impl Clone for EmbedOperation {
    fn clone(&self) -> (res: Self)
        ensures
            res == *self,
    {
        EmbedOperation {
            status: self.status,
            repo_url: self.repo_url.clone(),
            message: self.message.clone(),
        }
    }
}

/// A status is terminal when no transition may leave it.
pub open spec fn is_terminal(s: EmbedStatus) -> bool {
    s == EmbedStatus::Completed || s == EmbedStatus::Failed
}

/// The index of the entry with the given id; `-1` when there is none.
pub open spec fn spec_index_of(s: Seq<(String, EmbedOperation)>, id: Seq<char>) -> int
    decreases s.len(),
{
    if s.len() == 0 {
        -1
    } else if s[0].0@ == id {
        0
    } else {
        let r = spec_index_of(s.drop_first(), id);
        if r == -1 {
            -1
        } else {
            r + 1
        }
    }
}

/// The status of the operation with the given id, when one is registered.
pub open spec fn spec_status_of(s: Seq<(String, EmbedOperation)>, id: Seq<char>) -> Option<
    EmbedStatus,
> {
    let k = spec_index_of(s, id);
    if k == -1 {
        None
    } else {
        Some(s[k].1.status)
    }
}

/// What registering an operation does to the entries: appends the record
/// under a fresh id and leaves the entries unchanged under a known one.
pub open spec fn register_model(
    s: Seq<(String, EmbedOperation)>,
    id: String,
    op: EmbedOperation,
) -> Seq<(String, EmbedOperation)> {
    if spec_index_of(s, id@) == -1 {
        s.push((id, op))
    } else {
        s
    }
}

/// What finishing an operation does to the entries: sets the terminal
/// status and message when the operation is registered and in progress,
/// and leaves the entries unchanged otherwise.
pub open spec fn finish_model(
    s: Seq<(String, EmbedOperation)>,
    id: Seq<char>,
    success: bool,
    message: String,
) -> Seq<(String, EmbedOperation)> {
    let k = spec_index_of(s, id);
    if k != -1 && s[k].1.status == EmbedStatus::InProgress {
        s.update(
            k,
            (
                s[k].0,
                EmbedOperation {
                    status: if success {
                        EmbedStatus::Completed
                    } else {
                        EmbedStatus::Failed
                    },
                    repo_url: s[k].1.repo_url,
                    message,
                },
            ),
        )
    } else {
        s
    }
}

/// The in-memory registry of embedding operations.
pub struct OperationRegistry {
    ops: Vec<(String, EmbedOperation)>,
}

impl OperationRegistry {
    /// The registered entries, in registration order.
    pub closed spec fn entries(&self) -> Seq<(String, EmbedOperation)> {
        self.ops@
    }

    /// An empty registry.
    pub fn new() -> (r: Self)
        ensures
            r.entries() == Seq::<(String, EmbedOperation)>::empty(),
    {
        OperationRegistry { ops: Vec::new() }
    }

    /// How many operations are registered.
    pub fn len(&self) -> (r: usize)
        ensures
            r == self.entries().len(),
    {
        self.ops.len()
    }

    fn index_of_from(&self, id: &str, i: usize) -> (r: Option<usize>)
        requires
            i <= self.entries().len(),
        ensures
            match r {
                Some(k) => i <= k < self.entries().len() && i + spec_index_of(
                    self.entries().skip(i as int),
                    id@,
                ) == k,
                None => spec_index_of(self.entries().skip(i as int), id@) == -1,
            },
        decreases self.entries().len() - i,
    {
        if i < self.ops.len() {
            assert(self.entries().skip(i as int)[0] == self.entries()[i as int]);
            assert(self.entries().skip(i as int).drop_first() =~= self.entries().skip(i + 1));
            if crate::strutil::streq(self.ops[i].0.as_str(), id) {
                Some(i)
            } else {
                self.index_of_from(id, i + 1)
            }
        } else {
            assert(self.entries().skip(i as int) =~= Seq::<(String, EmbedOperation)>::empty());
            None
        }
    }

    /// Registers a new operation under `operation_id`. Returns `false`, and
    /// changes nothing, when the id is already taken.
    pub fn register(&mut self, operation_id: String, op: EmbedOperation) -> (r: bool)
        ensures
            final(self).entries() == register_model(old(self).entries(), operation_id, op),
            r == (spec_index_of(old(self).entries(), operation_id@) == -1),
    {
        proof {
            assert(self.entries().skip(0) =~= self.entries());
        }
        match self.index_of_from(operation_id.as_str(), 0) {
            Some(_) => false,
            None => {
                self.ops.push((operation_id, op));
                true
            },
        }
    }

    /// Moves the operation to its terminal state: `Completed` on success,
    /// `Failed` otherwise, with the given message. Returns `true` exactly
    /// when the operation existed and was still in progress; a terminal
    /// operation is never changed.
    pub fn finish(&mut self, operation_id: &str, success: bool, message: String) -> (r: bool)
        ensures
            final(self).entries() == finish_model(
                old(self).entries(),
                operation_id@,
                success,
                message,
            ),
            r == (spec_index_of(old(self).entries(), operation_id@) != -1 && old(
                self,
            ).entries()[spec_index_of(old(self).entries(), operation_id@)].1.status
                == EmbedStatus::InProgress),
    {
        proof {
            assert(self.entries().skip(0) =~= self.entries());
        }
        match self.index_of_from(operation_id, 0) {
            Some(k) => {
                if matches!(self.ops[k].1.status, EmbedStatus::InProgress) {
                    let url = self.ops[k].1.repo_url.clone();
                    let id = self.ops[k].0.clone();
                    let status = if success {
                        EmbedStatus::Completed
                    } else {
                        EmbedStatus::Failed
                    };
                    self.ops.set(k, (id, EmbedOperation { status, repo_url: url, message }));
                    true
                } else {
                    false
                }
            },
            None => false,
        }
    }

    /// Answers a status request: the operation's record, or the
    /// operation-not-found error naming the id, exactly when no operation
    /// is registered under it.
    pub fn lookup(&self, operation_id: &str) -> (r: Result<
        EmbedOperation,
        crate::error::BackendError,
    >)
        ensures
            (r is Ok) == (spec_index_of(self.entries(), operation_id@) != -1),
            r matches Ok(op) ==> op == self.entries()[spec_index_of(
                self.entries(),
                operation_id@,
            )].1,
            r matches Err(e) ==> (e matches crate::error::BackendError::OperationNotFound(id)
                && id@ == operation_id@),
    {
        match self.get(operation_id) {
            Some(op) => Ok(op),
            None => Err(crate::error::BackendError::OperationNotFound(operation_id.to_owned())),
        }
    }

    /// Looks the operation up and clones the record out.
    pub fn get(&self, operation_id: &str) -> (r: Option<EmbedOperation>)
        ensures
            match r {
                Some(op) => spec_index_of(self.entries(), operation_id@) != -1 && op
                    == self.entries()[spec_index_of(self.entries(), operation_id@)].1,
                None => spec_index_of(self.entries(), operation_id@) == -1,
            },
    {
        proof {
            assert(self.entries().skip(0) =~= self.entries());
        }
        match self.index_of_from(operation_id, 0) {
            Some(k) => Some(self.ops[k].1.clone()),
            None => None,
        }
    }
}

/// A registered id's index is within the entries.
proof fn lemma_index_of_bounds(s: Seq<(String, EmbedOperation)>, id: Seq<char>)
    ensures
        spec_index_of(s, id) == -1 || 0 <= spec_index_of(s, id) < s.len(),
    decreases s.len(),
{
    if s.len() > 0 && s[0].0@ != id {
        lemma_index_of_bounds(s.drop_first(), id);
    }
}

/// Appending an entry moves no registered id and changes no entry.
proof fn lemma_index_of_push(
    s: Seq<(String, EmbedOperation)>,
    x: (String, EmbedOperation),
    id: Seq<char>,
)
    requires
        spec_index_of(s, id) != -1,
    ensures
        spec_index_of(s.push(x), id) == spec_index_of(s, id),
        s.push(x)[spec_index_of(s, id)] == s[spec_index_of(s, id)],
    decreases s.len(),
{
    lemma_index_of_bounds(s, id);
    if s.len() > 0 {
        assert(s.push(x)[0] == s[0]);
        if s[0].0@ != id {
            assert(s.push(x).drop_first() =~= s.drop_first().push(x));
            lemma_index_of_push(s.drop_first(), x, id);
            lemma_index_of_bounds(s.drop_first(), id);
        }
    }
}

/// An update in place moves no registered id.
proof fn lemma_index_of_update(
    s: Seq<(String, EmbedOperation)>,
    k: int,
    x: (String, EmbedOperation),
    id: Seq<char>,
)
    requires
        0 <= k < s.len(),
        x.0@ == s[k].0@,
    ensures
        spec_index_of(s.update(k, x), id) == spec_index_of(s, id),
    decreases s.len(),
{
    if s.len() > 0 {
        assert(s.update(k, x)[0] == (if k == 0 {
            x
        } else {
            s[0]
        }));
        if k > 0 {
            assert(s.update(k, x).drop_first() =~= s.drop_first().update(k - 1, x));
            lemma_index_of_update(s.drop_first(), k - 1, x, id);
        } else {
            assert(s.update(0, x).drop_first() =~= s.drop_first());
        }
    }
}

/// Law: no transition leaves a terminal state, and registering never
/// changes an operation that already exists. Whatever either step of the
/// registry does, the status of an operation that was terminal stays what
/// it was.
pub proof fn lemma_terminal_states_stick(
    s: Seq<(String, EmbedOperation)>,
    id: Seq<char>,
    new_id: String,
    op: EmbedOperation,
    success: bool,
    message: String,
)
    requires
        spec_status_of(s, id) matches Some(st) && is_terminal(st),
    ensures
        spec_status_of(finish_model(s, id, success, message), id) == spec_status_of(s, id),
        spec_status_of(register_model(s, new_id, op), id) == spec_status_of(s, id),
{
    lemma_index_of_bounds(s, id);
    if spec_index_of(s, new_id@) == -1 {
        lemma_index_of_push(s, (new_id, op), id);
    }
}

} // verus!
