//! The registry as a mathematical value: the jobs in insertion order, each
//! with its identifier and state, and the operations on them.

use vstd::prelude::*;
use crate::progress::JobState;

verus! {

/// The jobs of a registry, oldest first, each as identifier and state.
pub type Entries = Seq<(Seq<char>, JobState)>;

/// Whether the job at index `i` is the one named `id`.
pub open spec fn holds_at(entries: Entries, id: Seq<char>, i: int) -> bool {
    0 <= i < entries.len() && entries[i].0 == id
}

/// Whether a job named `id` is registered.
pub open spec fn listed(entries: Entries, id: Seq<char>) -> bool {
    exists|i: int| holds_at(entries, id, i)
}

/// The index of the job named `id`, where one is registered.
pub open spec fn slot(entries: Entries, id: Seq<char>) -> int {
    choose|i: int| holds_at(entries, id, i)
}

/// The state of the job named `id`, where one is registered.
pub open spec fn state_of(entries: Entries, id: Seq<char>) -> JobState {
    entries[slot(entries, id)].1
}

/// No identifier names two jobs.
pub open spec fn distinct_ids(entries: Entries) -> bool {
    forall|i: int, j: int|
        0 <= i < j < entries.len() ==> (#[trigger] entries[i]).0 != (#[trigger] entries[j]).0
}

/// The registry after `id` was registered with state `st`: a job already
/// named `id` keeps its place and takes the new state, a new one comes last.
pub open spec fn inserted(entries: Entries, id: Seq<char>, st: JobState) -> Entries {
    if listed(entries, id) {
        entries.update(slot(entries, id), (id, st))
    } else {
        entries.push((id, st))
    }
}

/// The registry without the job named `id`; the others keep their order.
pub open spec fn removed(entries: Entries, id: Seq<char>) -> Entries {
    if listed(entries, id) {
        entries.remove(slot(entries, id))
    } else {
        entries
    }
}

/// The registry in which the job named `id`, if there is one, has state `st`.
pub open spec fn replaced(entries: Entries, id: Seq<char>, st: JobState) -> Entries {
    if listed(entries, id) {
        entries.update(slot(entries, id), (id, st))
    } else {
        entries
    }
}

/// The registry after the total of `id` was announced.
pub open spec fn announced(entries: Entries, id: Seq<char>, total: u64) -> Entries {
    replaced(entries, id, state_of(entries, id).with_total(total))
}

/// The registry after `n` more bytes were counted for `id`.
pub open spec fn advanced(entries: Entries, id: Seq<char>, n: u64) -> Entries {
    replaced(entries, id, state_of(entries, id).advanced(n))
}

/// The registry after a cancel request for `id`.
pub open spec fn stopped(entries: Entries, id: Seq<char>) -> Entries {
    replaced(entries, id, state_of(entries, id).stopped())
}

/// What a transfer learns when it asks whether `id` is canceled: the flag of
/// a registered job, nothing of an unknown one.
pub open spec fn canceled_of(entries: Entries, id: Seq<char>) -> Option<bool> {
    if listed(entries, id) {
        Some(state_of(entries, id).canceled)
    } else {
        None
    }
}

/// Whether `n` more bytes can be counted for `id`: always for an unknown job.
pub open spec fn fits(entries: Entries, id: Seq<char>, n: u64) -> bool {
    listed(entries, id) ==> state_of(entries, id).fits(n)
}

/// In a registry with distinct identifiers, the job found at `k` under `id`
/// is the one that `slot` names.
pub proof fn lemma_slot(entries: Entries, id: Seq<char>, k: int)
    requires
        distinct_ids(entries),
        holds_at(entries, id, k),
    ensures
        listed(entries, id),
        slot(entries, id) == k,
        state_of(entries, id) == entries[k].1,
{
    let s = slot(entries, id);
    assert(holds_at(entries, id, s));
    if s < k {
        assert(entries[s].0 != entries[k].0);
    } else if k < s {
        assert(entries[k].0 != entries[s].0);
    }
}

/// Registering a job keeps the identifiers distinct.
pub proof fn lemma_inserted_distinct(entries: Entries, id: Seq<char>, st: JobState)
    requires
        distinct_ids(entries),
    ensures
        distinct_ids(inserted(entries, id, st)),
{
    let after = inserted(entries, id, st);
    if listed(entries, id) {
        let s = slot(entries, id);
        assert(holds_at(entries, id, s));
        assert forall|i: int, j: int| 0 <= i < j < after.len() implies (#[trigger] after[i]).0 != (
        #[trigger] after[j]).0 by {
            assert(after[i].0 == entries[i].0);
            assert(after[j].0 == entries[j].0);
        }
    } else {
        assert forall|i: int, j: int| 0 <= i < j < after.len() implies (#[trigger] after[i]).0 != (
        #[trigger] after[j]).0 by {
            if j == entries.len() {
                assert(!holds_at(entries, id, i));
                assert(after[i] == entries[i]);
            } else {
                assert(after[i] == entries[i]);
                assert(after[j] == entries[j]);
            }
        }
    }
}

/// Removing a job keeps the identifiers distinct.
pub proof fn lemma_removed_distinct(entries: Entries, id: Seq<char>)
    requires
        distinct_ids(entries),
    ensures
        distinct_ids(removed(entries, id)),
{
    let after = removed(entries, id);
    if listed(entries, id) {
        let s = slot(entries, id);
        assert(holds_at(entries, id, s));
        assert forall|i: int, j: int| 0 <= i < j < after.len() implies (#[trigger] after[i]).0 != (
        #[trigger] after[j]).0 by {
            let a = if i < s { i } else { i + 1 };
            let b = if j < s { j } else { j + 1 };
            assert(after[i] == entries[a]);
            assert(after[j] == entries[b]);
        }
    }
}

/// Changing a job's state keeps the identifiers distinct.
pub proof fn lemma_replaced_distinct(entries: Entries, id: Seq<char>, st: JobState)
    requires
        distinct_ids(entries),
    ensures
        distinct_ids(replaced(entries, id, st)),
{
    if listed(entries, id) {
        lemma_inserted_distinct(entries, id, st);
    }
}

/// What registering a job does: afterwards `id` has state `st`, and every
/// other job is listed as before, with the state it had.
pub proof fn lemma_inserted(entries: Entries, id: Seq<char>, st: JobState, other: Seq<char>)
    requires
        distinct_ids(entries),
    ensures
        listed(inserted(entries, id, st), id),
        state_of(inserted(entries, id, st), id) == st,
        other != id ==> listed(inserted(entries, id, st), other) == listed(entries, other),
        other != id && listed(entries, other) ==> state_of(inserted(entries, id, st), other)
            == state_of(entries, other),
{
    let after = inserted(entries, id, st);
    lemma_inserted_distinct(entries, id, st);
    let s = if listed(entries, id) {
        slot(entries, id)
    } else {
        entries.len() as int
    };
    assert(listed(entries, id) ==> holds_at(entries, id, s));
    assert(holds_at(after, id, s));
    lemma_slot(after, id, s);
    if other != id {
        if listed(entries, other) {
            let t = slot(entries, other);
            assert(holds_at(entries, other, t));
            assert(holds_at(after, other, t));
            lemma_slot(after, other, t);
        }
        if listed(after, other) {
            let t = slot(after, other);
            assert(holds_at(after, other, t));
            assert(holds_at(entries, other, t));
        }
    }
}

/// What removing a job does: afterwards `id` is unknown, and every other job
/// is listed as before, with the state it had.
pub proof fn lemma_removed(entries: Entries, id: Seq<char>, other: Seq<char>)
    requires
        distinct_ids(entries),
    ensures
        !listed(removed(entries, id), id),
        other != id ==> listed(removed(entries, id), other) == listed(entries, other),
        other != id && listed(entries, other) ==> state_of(removed(entries, id), other)
            == state_of(entries, other),
{
    let after = removed(entries, id);
    lemma_removed_distinct(entries, id);
    if listed(entries, id) {
        let s = slot(entries, id);
        assert(holds_at(entries, id, s));
        assert forall|i: int| !holds_at(after, id, i) by {
            if 0 <= i < after.len() {
                let a = if i < s { i } else { i + 1 };
                assert(after[i] == entries[a]);
                if a < s {
                    assert(entries[a].0 != entries[s].0);
                } else {
                    assert(entries[s].0 != entries[a].0);
                }
            }
        }
        if other != id {
            if listed(entries, other) {
                let t = slot(entries, other);
                assert(holds_at(entries, other, t));
                let b = if t < s { t } else { t - 1 };
                assert(after[b] == entries[t]);
                assert(holds_at(after, other, b));
                lemma_slot(after, other, b);
            }
            if listed(after, other) {
                let t = slot(after, other);
                assert(holds_at(after, other, t));
                let a = if t < s { t } else { t + 1 };
                assert(after[t] == entries[a]);
                assert(holds_at(entries, other, a));
            }
        }
    } else {
        assert forall|i: int| !holds_at(after, id, i) by {}
    }
}

/// What changing a job's state does: every job is listed as before, `id`
/// has state `st` if it is listed, and every other job has the state it had.
pub proof fn lemma_replaced(entries: Entries, id: Seq<char>, st: JobState, other: Seq<char>)
    requires
        distinct_ids(entries),
    ensures
        listed(replaced(entries, id, st), other) == listed(entries, other),
        listed(entries, id) ==> state_of(replaced(entries, id, st), id) == st,
        other != id && listed(entries, other) ==> state_of(replaced(entries, id, st), other)
            == state_of(entries, other),
{
    if listed(entries, id) {
        lemma_inserted(entries, id, st, other);
    }
}

/// One call on the registry that changes it.
pub enum Call {
    /// Registers `id` with `state`.
    Add { id: Seq<char>, state: JobState },
    /// Removes `id`.
    Delete { id: Seq<char> },
    /// Announces the total of `id`.
    SetTotal { id: Seq<char>, total: u64 },
    /// Counts `n` more bytes for `id`.
    Progress { id: Seq<char>, n: u64 },
    /// Cancels `id`.
    Cancel { id: Seq<char> },
}

impl Call {
    /// The registry after this call.
    pub open spec fn apply(self, entries: Entries) -> Entries {
        match self {
            Call::Add { id, state } => inserted(entries, id, state),
            Call::Delete { id } => removed(entries, id),
            Call::SetTotal { id, total } => announced(entries, id, total),
            Call::Progress { id, n } => advanced(entries, id, n),
            Call::Cancel { id } => stopped(entries, id),
        }
    }

    /// The identifier that this call names.
    pub open spec fn id(self) -> Seq<char> {
        match self {
            Call::Add { id, .. } => id,
            Call::Delete { id } => id,
            Call::SetTotal { id, .. } => id,
            Call::Progress { id, .. } => id,
            Call::Cancel { id } => id,
        }
    }

    /// The number of bytes that this call counts for `id`.
    pub open spec fn counted(self, id: Seq<char>) -> nat {
        match self {
            Call::Progress { id: named, n } => if named == id {
                n as nat
            } else {
                0
            },
            _ => 0,
        }
    }
}

/// The registry after `calls`, made one after the other in any interleaving
/// that the lock allowed.
pub open spec fn after_calls(entries: Entries, calls: Seq<Call>) -> Entries
    decreases calls.len(),
{
    if calls.len() == 0 {
        entries
    } else {
        calls.last().apply(after_calls(entries, calls.drop_last()))
    }
}

/// The number of bytes that `calls` count for `id`.
pub open spec fn recorded(calls: Seq<Call>, id: Seq<char>) -> nat
    decreases calls.len(),
{
    if calls.len() == 0 {
        0
    } else {
        recorded(calls.drop_last(), id) + calls.last().counted(id)
    }
}

/// None of `calls` registers `id`.
pub open spec fn none_adds(calls: Seq<Call>, id: Seq<char>) -> bool {
    forall|i: int| 0 <= i < calls.len() ==> !(#[trigger] calls[i] is Add && calls[i].id() == id)
}

/// None of `calls` removes `id`.
pub open spec fn none_deletes(calls: Seq<Call>, id: Seq<char>) -> bool {
    forall|i: int|
        0 <= i < calls.len() ==> !(#[trigger] calls[i] is Delete && calls[i].id() == id)
}

/// Calls keep the identifiers distinct.
pub proof fn lemma_after_calls_distinct(entries: Entries, calls: Seq<Call>)
    requires
        distinct_ids(entries),
    ensures
        distinct_ids(after_calls(entries, calls)),
    decreases calls.len(),
{
    if calls.len() > 0 {
        lemma_after_calls_distinct(entries, calls.drop_last());
        let before = after_calls(entries, calls.drop_last());
        match calls.last() {
            Call::Add { id, state } => lemma_inserted_distinct(before, id, state),
            Call::Delete { id } => lemma_removed_distinct(before, id),
            Call::SetTotal { id, total } => lemma_replaced_distinct(
                before,
                id,
                state_of(before, id).with_total(total),
            ),
            Call::Progress { id, n } => lemma_replaced_distinct(
                before,
                id,
                state_of(before, id).advanced(n),
            ),
            Call::Cancel { id } => lemma_replaced_distinct(
                before,
                id,
                state_of(before, id).stopped(),
            ),
        }
    }
}

/// A call that names another job leaves `id` as it was: listed or not, and
/// in the same state.
pub proof fn lemma_other_call(entries: Entries, call: Call, id: Seq<char>)
    requires
        distinct_ids(entries),
        call.id() != id,
    ensures
        listed(call.apply(entries), id) == listed(entries, id),
        listed(entries, id) ==> state_of(call.apply(entries), id) == state_of(entries, id),
{
    match call {
        Call::Add { id: named, state } => lemma_inserted(entries, named, state, id),
        Call::Delete { id: named } => lemma_removed(entries, named, id),
        Call::SetTotal { id: named, total } => lemma_replaced(
            entries,
            named,
            state_of(entries, named).with_total(total),
            id,
        ),
        Call::Progress { id: named, n } => lemma_replaced(
            entries,
            named,
            state_of(entries, named).advanced(n),
            id,
        ),
        Call::Cancel { id: named } => lemma_replaced(
            entries,
            named,
            state_of(entries, named).stopped(),
            id,
        ),
    }
}

/// The bytes received by a job are the sum of the byte counts recorded for
/// it: after any calls on the registry, in any interleaving with calls that
/// name other jobs, the job `id` has received what it had received before
/// plus what the calls counted for it. This holds while the job stays
/// registered as it is (no call registers or removes `id`) and the sum fits
/// in 64 bits.
pub proof fn lemma_progress_sums(entries: Entries, calls: Seq<Call>, id: Seq<char>)
    requires
        distinct_ids(entries),
        listed(entries, id),
        none_adds(calls, id),
        none_deletes(calls, id),
        state_of(entries, id).size + recorded(calls, id) <= u64::MAX,
    ensures
        listed(after_calls(entries, calls), id),
        state_of(after_calls(entries, calls), id).size == state_of(entries, id).size + recorded(
            calls,
            id,
        ),
        state_of(after_calls(entries, calls), id).name == state_of(entries, id).name,
    decreases calls.len(),
{
    if calls.len() > 0 {
        let earlier = calls.drop_last();
        let call = calls.last();
        assert(call == calls[calls.len() - 1]);
        assert forall|i: int| 0 <= i < earlier.len() implies earlier[i] == calls[i] by {}
        lemma_progress_sums(entries, earlier, id);
        lemma_after_calls_distinct(entries, earlier);
        let before = after_calls(entries, earlier);
        if call.id() != id {
            lemma_other_call(before, call, id);
        } else {
            match call {
                Call::SetTotal { id: named, total } => lemma_replaced(
                    before,
                    id,
                    state_of(before, id).with_total(total),
                    id,
                ),
                Call::Progress { id: named, n } => lemma_replaced(
                    before,
                    id,
                    state_of(before, id).advanced(n),
                    id,
                ),
                Call::Cancel { id: named } => lemma_replaced(
                    before,
                    id,
                    state_of(before, id).stopped(),
                    id,
                ),
                _ => {},
            }
        }
    }
}

/// A cancellation is never taken back: once the job `id` is canceled it
/// stays canceled through any calls, as long as no call registers `id` anew
/// or removes it.
pub proof fn lemma_cancel_is_final(entries: Entries, calls: Seq<Call>, id: Seq<char>)
    requires
        distinct_ids(entries),
        listed(entries, id),
        state_of(entries, id).canceled,
        none_adds(calls, id),
        none_deletes(calls, id),
    ensures
        canceled_of(after_calls(entries, calls), id) == Some(true),
    decreases calls.len(),
{
    if calls.len() > 0 {
        let earlier = calls.drop_last();
        let call = calls.last();
        assert(call == calls[calls.len() - 1]);
        assert forall|i: int| 0 <= i < earlier.len() implies earlier[i] == calls[i] by {}
        lemma_cancel_is_final(entries, earlier, id);
        lemma_after_calls_distinct(entries, earlier);
        let before = after_calls(entries, earlier);
        if call.id() != id {
            lemma_other_call(before, call, id);
        } else {
            match call {
                Call::SetTotal { id: named, total } => lemma_replaced(
                    before,
                    id,
                    state_of(before, id).with_total(total),
                    id,
                ),
                Call::Progress { id: named, n } => lemma_replaced(
                    before,
                    id,
                    state_of(before, id).advanced(n),
                    id,
                ),
                Call::Cancel { id: named } => lemma_replaced(
                    before,
                    id,
                    state_of(before, id).stopped(),
                    id,
                ),
                _ => {},
            }
        }
    }
}

/// A job that is not registered stays unknown until a call registers it:
/// asking whether it is canceled yields nothing, whatever was done to other
/// jobs meanwhile. This is so for an identifier that was never handed out
/// and for one whose job was removed.
pub proof fn lemma_unknown_stays_unknown(entries: Entries, calls: Seq<Call>, id: Seq<char>)
    requires
        distinct_ids(entries),
        !listed(entries, id),
        none_adds(calls, id),
    ensures
        canceled_of(after_calls(entries, calls), id) is None,
    decreases calls.len(),
{
    if calls.len() > 0 {
        let earlier = calls.drop_last();
        let call = calls.last();
        assert(call == calls[calls.len() - 1]);
        assert forall|i: int| 0 <= i < earlier.len() implies earlier[i] == calls[i] by {}
        lemma_unknown_stays_unknown(entries, earlier, id);
        lemma_after_calls_distinct(entries, earlier);
        let before = after_calls(entries, earlier);
        if call.id() != id {
            lemma_other_call(before, call, id);
        } else {
            match call {
                Call::Delete { id: named } => lemma_removed(before, id, id),
                _ => {},
            }
        }
    }
}

/// Once a job is removed, asking whether it is canceled yields nothing.
pub proof fn lemma_removed_is_unknown(entries: Entries, id: Seq<char>)
    requires
        distinct_ids(entries),
    ensures
        canceled_of(removed(entries, id), id) is None,
{
    lemma_removed(entries, id, id);
}

} // verus!
