//! The message numbers of a selected folder, handed out one by one.

use vstd::prelude::*;

verus! {

/// The numbers `first + 1 ..= last`, ascending; empty when `first >= last`.
pub open spec fn numbers_after(first: int, last: int) -> Seq<u32> {
    Seq::new(
        if last > first {
            (last - first) as nat
        } else {
            0
        },
        |i: int| (first + 1 + i) as u32,
    )
}

/// A forward-only walk over the message numbers `1 ..= total_messages` of a
/// folder. Advancing costs nothing and never touches the server.
#[derive(Debug)]
pub struct EmailFolderIterator {
    total_messages: u32,
    current_message: u32,
}

impl EmailFolderIterator {
    /// The numbers still to come, in the order `next` will give them.
    pub closed spec fn remaining(&self) -> Seq<u32> {
        numbers_after(self.current_message as int, self.total_messages as int)
    }

    /// How many messages the folder held when it was selected.
    pub closed spec fn total(&self) -> nat {
        self.total_messages as nat
    }

    /// A walk over a folder of `total_messages` messages, positioned before
    /// the first.
    pub fn new(total_messages: u32) -> (walk: EmailFolderIterator)
        ensures
            walk.total() == total_messages,
            walk.remaining() == numbers_after(0, total_messages as int),
    {
        EmailFolderIterator { total_messages, current_message: 0 }
    }

    /// Passes over the next `count` numbers, or over all that are left if
    /// there are fewer.
    pub fn skip(&mut self, count: usize)
        ensures
            final(self).total() == old(self).total(),
            count <= old(self).remaining().len() ==> final(self).remaining() == old(
                self,
            ).remaining().skip(count as int),
            count > old(self).remaining().len() ==> final(self).remaining().len() == 0,
    {
        let ghost before = self.remaining();
        if self.current_message >= self.total_messages {
        } else {
            let left: u32 = self.total_messages - self.current_message;
            if count >= left as usize {
                self.current_message = self.total_messages;
            } else {
                self.current_message = self.current_message + count as u32;
            }
        }
        proof {
            if count <= before.len() {
                assert(self.remaining() =~= before.skip(count as int));
            }
        }
    }

    /// The next message number, or `None` once every number has been given.
    pub fn next(&mut self) -> (number: Option<u32>)
        ensures
            final(self).total() == old(self).total(),
            old(self).remaining().len() == 0 ==> number.is_none() && final(self).remaining()
                == old(self).remaining(),
            old(self).remaining().len() > 0 ==> number == Some(old(self).remaining()[0])
                && final(self).remaining() == old(self).remaining().skip(1),
    {
        let ghost before = self.remaining();
        if self.current_message >= self.total_messages {
            return None;
        }
        self.current_message += 1;
        proof {
            assert(self.remaining() =~= before.skip(1));
        }
        Some(self.current_message)
    }
}

/// Skipping `count` numbers of a fresh walk over `total` messages leaves
/// `max(total - count, 0)` numbers, and they are `count + 1 ..= total`.
pub proof fn lemma_skip_leaves_the_tail(total: u32, count: nat)
    ensures
        numbers_after(count as int, total as int).len() == if total >= count {
            total - count
        } else {
            0
        },
        forall|i: int|
            0 <= i < numbers_after(count as int, total as int).len() ==> #[trigger] numbers_after(
                count as int,
                total as int,
            )[i] == count + 1 + i,
        count <= total ==> numbers_after(count as int, total as int) == numbers_after(
            0,
            total as int,
        ).skip(count as int),
{
    if count <= total {
        assert(numbers_after(count as int, total as int) =~= numbers_after(0, total as int).skip(
            count as int,
        ));
    }
}

} // verus!
