//! The length bookkeeping of a body: the declared length, the count of
//! bytes handed out, and the rule that cuts a read off at the declared
//! length.

use vstd::prelude::*;

verus! {

/// A declared length, if any, and the number of bytes read against it.
#[derive(Clone, Copy, Debug, PartialEq, Eq, Structural)]
pub struct Progress {
    /// The declared total length; `None` where it is not known ahead.
    pub length: Option<u64>,
    /// The number of bytes handed out through bounded reads.
    pub bytes_read: u64,
}

/// The declared length of two bodies read one after the other: the bytes
/// that each has left, added, where both lengths are declared and the sum
/// fits; else none.
pub open spec fn chain_len(first: Progress, second: Progress) -> Option<u64> {
    match (first.length, second.length) {
        (Some(l1), Some(l2)) => {
            let sum = (l1 - first.bytes_read) + (l2 - second.bytes_read);
            if sum <= u64::MAX {
                Some(sum as u64)
            } else {
                None
            }
        },
        _ => None,
    }
}

impl Progress {
    /// No more has been read than was declared.
    pub open spec fn wf(&self) -> bool {
        self.length matches Some(l) ==> self.bytes_read <= l
    }

    /// The declared bytes that are still unread; none where no length is
    /// declared.
    pub open spec fn remaining(&self) -> Option<nat> {
        match self.length {
            Some(l) => Some((l - self.bytes_read) as nat),
            None => None,
        }
    }

    /// How many of `n` bytes may still be handed out.
    pub open spec fn clip(&self, n: nat) -> nat {
        match self.remaining() {
            Some(r) => if r < n {
                r
            } else {
                n
            },
            None => n,
        }
    }

    /// The state after `n` more bytes have been read.
    pub open spec fn after(&self, n: nat) -> Progress
        recommends
            self.bytes_read + n <= u64::MAX,
    {
        Progress { length: self.length, bytes_read: (self.bytes_read + n) as u64 }
    }

    /// A fresh bookkeeping: nothing read yet.
    pub fn new(length: Option<u64>) -> (p: Progress)
        ensures
            p == (Progress { length, bytes_read: 0 }),
    {
        Progress { length, bytes_read: 0 }
    }

    /// The size of the window that a read with a buffer of `capacity` bytes
    /// may fill. `None` says that the declared length is used up: the read
    /// reports the end of the stream and leaves the source alone.
    pub fn window(&self, capacity: usize) -> (w: Option<usize>)
        requires
            self.wf(),
        ensures
            w is None <==> self.remaining() == Some(0nat),
            w matches Some(n) ==> n == self.clip(capacity as nat),
    {
        match self.length {
            None => Some(capacity),
            Some(length) => {
                if length == self.bytes_read {
                    None
                } else {
                    let rest: u64 = length - self.bytes_read;
                    if rest < capacity as u64 {
                        Some(rest as usize)
                    } else {
                        Some(capacity)
                    }
                }
            },
        }
    }

    /// Counts `n` bytes that the source has produced into a window of this
    /// bookkeeping.
    pub fn advance(&mut self, n: usize)
        requires
            old(self).wf(),
            old(self).clip(n as nat) == n,
            old(self).bytes_read + n <= u64::MAX,
        ensures
            *final(self) == old(self).after(n as nat),
            final(self).wf(),
    {
        self.bytes_read = self.bytes_read + n as u64;
    }

    /// The bookkeeping of two bodies read one after the other: the declared
    /// length is that of what both have left, and nothing is read yet.
    pub fn chain(&self, other: &Progress) -> (p: Progress)
        requires
            self.wf(),
            other.wf(),
        ensures
            p == (Progress { length: chain_len(*self, *other), bytes_read: 0 }),
    {
        let length = match (self.length, other.length) {
            (Some(l1), Some(l2)) => (l1 - self.bytes_read).checked_add(l2 - other.bytes_read),
            _ => None,
        };
        Progress { length, bytes_read: 0 }
    }
}

} // verus!
