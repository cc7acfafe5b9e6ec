//! Walking the items of a list value.

use crate::template::{FilterError, Value};
use vstd::prelude::*;

verus! {

/// Hands out the items of a list value one by one, first to last.
#[derive(Debug, PartialEq, Eq)]
pub struct SeqIterator {
    /// The items that are left, last to first.
    rest: Vec<Value>,
    /// How many items the list had.
    len: usize,
}

impl SeqIterator {
    /// The items that are left, in the order in which they are handed out.
    pub closed spec fn remaining(&self) -> Seq<Value> {
        Seq::new(self.rest@.len(), |i: int| self.rest@[self.rest@.len() - 1 - i])
    }

    /// How many items the list had.
    pub closed spec fn total(&self) -> nat {
        self.len as nat
    }

    /// Starts at the first item of `seq`, which must be a list.
    pub fn new(seq: Value) -> (r: Result<Self, FilterError>)
        ensures
            match seq {
                Value::List(items) => r matches Ok(iterator) && iterator.remaining() == items@
                    && iterator.total() == items@.len(),
                _ => r == Err::<Self, FilterError>(FilterError::ExpectedList),
            },
    {
        match seq {
            Value::List(items) => {
                let ghost all = items@;
                let len = items.len();
                let mut items = items;
                let mut rest: Vec<Value> = Vec::new();
                while items.len() > 0
                    invariant
                        rest@.len() + items@.len() == all.len(),
                        items@ == all.take(items@.len() as int),
                        forall|j: int| 0 <= j < rest@.len() ==> rest@[j] == all[all.len() - 1 - j],
                    decreases items@.len(),
                {
                    let ghost before = items@;
                    let item = items.pop().unwrap();
                    proof {
                        assert(item == all[before.len() - 1]);
                        assert(items@ =~= all.take(items@.len() as int));
                    }
                    rest.push(item);
                }
                let iterator = SeqIterator { rest, len };
                proof {
                    assert(iterator.remaining() =~= all);
                }
                Ok(iterator)
            },
            _ => Err(FilterError::ExpectedList),
        }
    }

    /// Hands out the next item, if one is left.
    pub fn next(&mut self) -> (r: Option<Value>)
        ensures
            match r {
                Some(item) => old(self).remaining().len() > 0 && item == old(self).remaining()[0]
                    && final(self).remaining() == old(self).remaining().drop_first(),
                None => old(self).remaining().len() == 0 && final(self).remaining() == old(
                    self,
                ).remaining(),
            },
            final(self).total() == old(self).total(),
    {
        let ghost before = self.remaining();
        let item = self.rest.pop();
        proof {
            if item is Some {
                assert(self.remaining() =~= before.drop_first());
            } else {
                assert(self.remaining() =~= before);
            }
        }
        item
    }

    /// How many items the list had, as the least and the most to expect.
    pub fn size_hint(&self) -> (r: (usize, Option<usize>))
        ensures
            r.0 == self.total(),
            r.1 == Some(r.0),
    {
        (self.len, Some(self.len))
    }
}

} // verus!
