//! Single edits of a text and their application in order.
use crate::error::EngineError;
use vstd::prelude::*;
use vstd::string::*;

verus! {

/// One atomic edit of a text. Offsets and lengths count characters
/// (Unicode scalar values), never bytes, starting at zero.
#[derive(Debug, PartialEq, Eq)]
pub enum Operation {
    /// Splice the text in at the offset.
    Insert((u32, String)),
    /// Remove that many characters, starting at the offset.
    Delete((u32, u32)),
}

impl Clone for Operation {
    fn clone(&self) -> (copy: Self)
        ensures
            copy == *self,
    {
        match self {
            Operation::Insert((offset, text)) => Operation::Insert((*offset, text.clone())),
            Operation::Delete((offset, length)) => Operation::Delete((*offset, *length)),
        }
    }
}

/// The mathematical value of an [`Operation`].
pub enum OperationView {
    Insert { offset: nat, text: Seq<char> },
    Delete { offset: nat, length: nat },
}

impl View for Operation {
    type V = OperationView;

    open spec fn view(&self) -> OperationView {
        match *self {
            Operation::Insert((offset, text)) => OperationView::Insert {
                offset: offset as nat,
                text: text@,
            },
            Operation::Delete((offset, length)) => OperationView::Delete {
                offset: offset as nat,
                length: length as nat,
            },
        }
    }
}

/// The views of a sequence of values, one for one.
pub open spec fn views<T: View>(items: Seq<T>) -> Seq<T::V> {
    Seq::new(items.len(), |i: int| items[i]@)
}

/// The text after one operation, or `None` where the operation points
/// outside the text.
pub open spec fn apply_operation(text: Seq<char>, op: OperationView) -> Option<Seq<char>> {
    match op {
        OperationView::Insert { offset, text: chunk } => if offset <= text.len() {
            Some(
                text.subrange(0, offset as int) + chunk + text.subrange(
                    offset as int,
                    text.len() as int,
                ),
            )
        } else {
            None
        },
        OperationView::Delete { offset, length } => if offset + length <= text.len() {
            Some(text.subrange(0, offset as int) + text.subrange(
                (offset + length) as int,
                text.len() as int,
            ))
        } else {
            None
        },
    }
}

/// The text after the operations, each applied to the result of the one
/// before it; `None` as soon as one of them points outside its text.
pub open spec fn apply_operations(text: Seq<char>, ops: Seq<OperationView>) -> Option<Seq<char>>
    decreases ops.len(),
{
    if ops.len() == 0 {
        Some(text)
    } else {
        match apply_operation(text, ops[0]) {
            Some(next) => apply_operations(next, ops.drop_first()),
            None => None,
        }
    }
}

/// Applying `first + second` is applying `first`, then `second` to its result.
pub proof fn lemma_apply_operations_concat(
    text: Seq<char>,
    first: Seq<OperationView>,
    second: Seq<OperationView>,
)
    ensures
        apply_operations(text, first + second) == match apply_operations(text, first) {
            Some(middle) => apply_operations(middle, second),
            None => None,
        },
    decreases first.len(),
{
    if first.len() > 0 {
        assert((first + second).drop_first() =~= first.drop_first() + second);
        match apply_operation(text, first[0]) {
            Some(next) => lemma_apply_operations_concat(next, first.drop_first(), second),
            None => {},
        }
    }
}

impl Operation {
    /// Applies this operation to `text`.
    pub fn apply(&self, text: &str) -> (result: Result<String, EngineError>)
        ensures
            match result {
                Ok(edited) => apply_operation(text@, self@) == Some(edited@),
                Err(e) => e == EngineError::OutOfRange && apply_operation(text@, self@) is None,
            },
    {
        let len: usize = text.unicode_len();
        match self {
            Operation::Insert((offset, chunk)) => {
                let at: usize = *offset as usize;
                if at > len {
                    return Err(EngineError::OutOfRange);
                }
                let mut edited = String::from_str(text.substring_char(0, at));
                edited.append(chunk.as_str());
                edited.append(text.substring_char(at, len));
                Ok(edited)
            },
            Operation::Delete((offset, length)) => {
                let from: usize = *offset as usize;
                if from > len || *length as usize > len - from {
                    return Err(EngineError::OutOfRange);
                }
                let to: usize = from + *length as usize;
                let mut edited = String::from_str(text.substring_char(0, from));
                edited.append(text.substring_char(to, len));
                Ok(edited)
            },
        }
    }
}

/// Applies the operations in order, each to the result of the one before it.
/// Fails with [`EngineError::OutOfRange`] at the first operation that points outside
/// its text.
pub fn apply(base_text: &str, operations: &Vec<Operation>) -> (result: Result<String, EngineError>)
    ensures
        match result {
            Ok(text) => apply_operations(base_text@, views(operations@)) == Some(text@),
            Err(e) => e == EngineError::OutOfRange && apply_operations(
                base_text@,
                views(operations@),
            ) is None,
        },
{
    let mut text = String::from_str(base_text);
    let mut i: usize = 0;
    assert(views(operations@).skip(0) =~= views(operations@));
    while i < operations.len()
        invariant
            i <= operations.len(),
            apply_operations(base_text@, views(operations@)) == apply_operations(
                text@,
                views(operations@).skip(i as int),
            ),
        decreases operations.len() - i,
    {
        let ghost rest = views(operations@).skip(i as int);
        assert(rest.drop_first() =~= views(operations@).skip(i + 1));
        match operations[i].apply(text.as_str()) {
            Ok(next) => {
                text = next;
            },
            Err(e) => {
                return Err(e);
            },
        }
        i += 1;
    }
    Ok(text)
}

} // verus!
