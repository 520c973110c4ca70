//! Replaying recorded edit operations on a text.
//!
//! A text is a sequence of characters. An operation inserts a chunk at an
//! offset or deletes a range; offsets count characters. Replaying a list of
//! operations applies them in order to one buffer and stops at the first
//! operation that does not fit the text it meets.

use crate::text::chars_of;
use vstd::prelude::*;

verus! {

/// One edit of a text.
#[derive(Debug)]
pub enum Operation {
    /// Inserts the chunk so that its first character lands at the offset.
    Insert((u32, String)),
    /// Deletes, from the offset on, the given number of characters.
    Delete((u32, u32)),
}

/// An operation as a mathematical value.
pub enum OperationView {
    Insert(int, Seq<char>),
    Delete(int, int),
}

impl View for Operation {
    type V = OperationView;

    open spec fn view(&self) -> OperationView {
        match self {
            Operation::Insert(pair) => OperationView::Insert(pair.0 as int, pair.1@),
            Operation::Delete(pair) => OperationView::Delete(pair.0 as int, pair.1 as int),
        }
    }
}

impl Clone for Operation {
    fn clone(&self) -> (copy: Self)
        ensures
            copy@ == self@,
    {
        match self {
            Operation::Insert(pair) => Operation::Insert((pair.0, pair.1.clone())),
            Operation::Delete(pair) => Operation::Delete((pair.0, pair.1)),
        }
    }
}

/// Why an operation does not fit a text.
#[derive(Debug, Clone, Copy, PartialEq, Eq, Structural)]
pub enum ReplayError {
    /// The offset lies beyond the end of the text.
    IndexOutOfBounds { index: u32, len: usize },
    /// The offset lies within the text, the end of the range beyond it.
    RangeOutOfBounds { index: u32, count: u32, len: usize },
}

/// The first operation of a list that did not fit, and why.
#[derive(Debug, Clone, Copy, PartialEq, Eq, Structural)]
pub struct ReplayFailure {
    /// Position of the operation in the list.
    pub operation: usize,
    pub cause: ReplayError,
}

impl OperationView {
    /// Whether the operation fits `text`: an insertion at an offset up to
    /// the end, a deletion of a range that lies within the text.
    pub open spec fn applicable(self, text: Seq<char>) -> bool {
        match self {
            OperationView::Insert(index, _) => index <= text.len(),
            OperationView::Delete(index, count) => index + count <= text.len(),
        }
    }

    /// The text that the operation makes of `text`, where it fits.
    pub open spec fn applied(self, text: Seq<char>) -> Seq<char> {
        match self {
            OperationView::Insert(index, chunk) => text.subrange(0, index) + chunk + text.subrange(
                index,
                text.len() as int,
            ),
            OperationView::Delete(index, count) => text.subrange(0, index) + text.subrange(
                index + count,
                text.len() as int,
            ),
        }
    }

    /// The error that the operation meets on `text`, where it does not fit.
    pub open spec fn refusal(self, text: Seq<char>) -> ReplayError {
        match self {
            OperationView::Insert(index, _) => ReplayError::IndexOutOfBounds {
                index: index as u32,
                len: text.len() as usize,
            },
            OperationView::Delete(index, count) => if index > text.len() {
                ReplayError::IndexOutOfBounds { index: index as u32, len: text.len() as usize }
            } else {
                ReplayError::RangeOutOfBounds {
                    index: index as u32,
                    count: count as u32,
                    len: text.len() as usize,
                }
            },
        }
    }
}

/// The operations of a list as mathematical values.
pub open spec fn operation_views(operations: Seq<Operation>) -> Seq<OperationView> {
    operations.map_values(|o: Operation| o@)
}

/// The outcome of replaying `operations` on `text` in order: the final
/// text, or the first operation that did not fit the text it met.
pub open spec fn replayed(text: Seq<char>, operations: Seq<OperationView>) -> Result<
    Seq<char>,
    ReplayFailure,
>
    decreases operations.len(),
{
    if operations.len() == 0 {
        Ok(text)
    } else {
        match replayed(text, operations.drop_last()) {
            Err(failure) => Err(failure),
            Ok(reached) => if operations.last().applicable(reached) {
                Ok(operations.last().applied(reached))
            } else {
                Err(
                    ReplayFailure {
                        operation: (operations.len() - 1) as usize,
                        cause: operations.last().refusal(reached),
                    },
                )
            },
        }
    }
}

/// A failure among the first `k` operations is the failure of the whole list.
pub proof fn lemma_failure_stays(text: Seq<char>, operations: Seq<OperationView>, k: int)
    requires
        0 <= k <= operations.len(),
        replayed(text, operations.take(k)) is Err,
    ensures
        replayed(text, operations) == replayed(text, operations.take(k)),
    decreases operations.len() - k,
{
    if k == operations.len() {
        assert(operations.take(k) == operations);
    } else {
        let longer = operations.take(k + 1);
        assert(longer.drop_last() == operations.take(k));
        lemma_failure_stays(text, operations, k + 1);
    }
}

/// Replaying the same operations on the same text gives the same outcome,
/// however often it is done: the outcome depends on nothing else.
pub proof fn lemma_replay_is_deterministic(
    text: Seq<char>,
    operations: Seq<OperationView>,
    first: Result<Seq<char>, ReplayFailure>,
    second: Result<Seq<char>, ReplayFailure>,
)
    requires
        first == replayed(text, operations),
        second == replayed(text, operations),
    ensures
        first == second,
{
}

impl Operation {
    /// Applies the operation to `text` in place. Where it does not fit, the
    /// text stays as it was and the error says why.
    pub fn apply(&self, text: &mut Vec<char>) -> (outcome: Result<(), ReplayError>)
        ensures
            self@.applicable(old(text)@) ==> outcome == Ok::<(), ReplayError>(()) && final(text)@
                == self@.applied(old(text)@),
            !self@.applicable(old(text)@) ==> outcome == Err::<(), ReplayError>(
                self@.refusal(old(text)@),
            ) && final(text)@ == old(text)@,
    {
        let len: usize = text.len();
        match self {
            Operation::Insert(pair) => {
                let index: u32 = pair.0;
                let at: usize = index as usize;
                if at > len {
                    return Err(ReplayError::IndexOutOfBounds { index, len });
                }
                let mut tail = text.split_off(at);
                let mut chunk = chars_of(pair.1.as_str());
                text.append(&mut chunk);
                text.append(&mut tail);
                Ok(())
            },
            Operation::Delete(pair) => {
                let index: u32 = pair.0;
                let count: u32 = pair.1;
                let at: usize = index as usize;
                if at > len {
                    return Err(ReplayError::IndexOutOfBounds { index, len });
                }
                if count as usize > len - at {
                    return Err(ReplayError::RangeOutOfBounds { index, count, len });
                }
                let mut tail = text.split_off(at + count as usize);
                text.truncate(at);
                text.append(&mut tail);
                Ok(())
            },
        }
    }
}

/// Replays `operations` on `text` in order, in place.
///
/// On success `text` holds the final text. On failure the replay has stopped
/// at the failing operation: `text` holds what the operations before it
/// made, a state to discard.
pub fn replay(text: &mut Vec<char>, operations: &Vec<Operation>) -> (outcome: Result<
    (),
    ReplayFailure,
>)
    ensures
        match outcome {
            Ok(()) => replayed(old(text)@, operation_views(operations@)) == Ok::<
                Seq<char>,
                ReplayFailure,
            >(final(text)@),
            Err(failure) => {
                &&& replayed(old(text)@, operation_views(operations@)) == Err::<
                    Seq<char>,
                    ReplayFailure,
                >(failure)
                &&& failure.operation < operations.len()
                &&& replayed(
                    old(text)@,
                    operation_views(operations@).take(failure.operation as int),
                ) == Ok::<Seq<char>, ReplayFailure>(final(text)@)
            },
        },
{
    let ghost start = text@;
    let ghost views = operation_views(operations@);
    let mut i: usize = 0;
    while i < operations.len()
        invariant
            i <= operations.len(),
            start == old(text)@,
            views == operation_views(operations@),
            replayed(start, views.take(i as int)) == Ok::<Seq<char>, ReplayFailure>(text@),
        decreases operations.len() - i,
    {
        let ghost longer = views.take(i + 1);
        proof {
            assert(longer.drop_last() == views.take(i as int));
        }
        match operations[i].apply(text) {
            Ok(()) => {},
            Err(cause) => {
                let failure = ReplayFailure { operation: i, cause };
                proof {
                    lemma_failure_stays(start, views, i + 1);
                }
                return Err(failure);
            },
        }
        i = i + 1;
    }
    assert(views.take(i as int) == views);
    Ok(())
}

} // verus!
