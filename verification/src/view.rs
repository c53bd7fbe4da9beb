//! What a body is to its reader: the bytes that its source has yet to
//! produce, its media type, and its length bookkeeping.

use vstd::prelude::*;
use crate::mime::chain_mime_view;
use crate::progress::{chain_len, Progress};

verus! {

/// The view of a body.
#[verifier::ext_equal]
pub struct BodyView {
    /// The bytes that the source has yet to produce.
    pub source: Seq<u8>,
    /// The text of the media type, where one is set.
    pub mime: Option<Seq<char>>,
    /// The declared length and the count of bytes read.
    pub progress: Progress,
}

impl BodyView {
    /// The count stays within the declared length, and where no length is
    /// declared, within what a 64-bit counter can reach.
    pub open spec fn wf(self) -> bool {
        &&& self.progress.wf()
        &&& self.progress.length is None ==> self.progress.bytes_read + self.source.len()
            <= u64::MAX
    }

    /// The bytes that bounded reads will still hand out: what the source
    /// holds, cut off at the declared length.
    pub open spec fn pending(self) -> Seq<u8> {
        self.source.take(self.progress.clip(self.source.len()) as int)
    }

    /// The body after a bounded read has handed out `n` bytes.
    pub open spec fn after_read(self, n: nat) -> BodyView {
        BodyView {
            source: self.source.skip(n as int),
            mime: self.mime,
            progress: self.progress.after(n),
        }
    }

    /// One bounded read, as its caller sees it: a buffer of `cap` bytes got
    /// the bytes `out`, which are the next pending ones, and `next` is the
    /// body afterwards. Nothing comes only if the buffer has no room or
    /// nothing is pending.
    pub open spec fn reads(self, cap: nat, out: Seq<u8>, next: BodyView) -> bool {
        &&& out.len() <= cap
        &&& out.len() <= self.pending().len()
        &&& out == self.pending().take(out.len() as int)
        &&& out.len() == 0 <==> cap == 0 || self.pending().len() == 0
        &&& next == self.after_read(out.len())
    }

    /// Two bodies read one after the other, as one body: it hands out what
    /// the first has pending and then what the second has, declares what
    /// both have left where both declare a length and the sum fits, keeps a
    /// media type that both share, and has nothing read yet.
    pub open spec fn chain(self, other: BodyView) -> BodyView {
        BodyView {
            source: self.pending() + other.pending(),
            mime: chain_mime_view(self.mime, other.mime),
            progress: Progress { length: chain_len(self.progress, other.progress), bytes_read: 0 },
        }
    }

    /// Whether this body and another can be chained: the chain declares a
    /// length, or the bytes that the two still hand out are no more than a
    /// 64-bit number can count.
    pub open spec fn can_chain(self, other: BodyView) -> bool {
        chain_len(self.progress, other.progress) is None ==> self.pending().len()
            + other.pending().len() <= u64::MAX
    }

    /// Reading `n` pending bytes leaves the rest of them pending.
    pub proof fn lemma_after_read(self, n: nat)
        requires
            self.wf(),
            n <= self.pending().len(),
        ensures
            self.after_read(n).wf(),
            self.after_read(n).pending() == self.pending().skip(n as int),
            self.after_read(n).progress.bytes_read == self.progress.bytes_read + n,
            n == 0 ==> self.after_read(n) == self,
    {
        assert(self.after_read(n).pending() =~= self.pending().skip(n as int));
        if n == 0 {
            assert(self.after_read(n) =~= self);
        }
    }

    /// Reading `a` bytes and then `b` is reading `a + b`.
    pub proof fn lemma_after_read_add(self, a: nat, b: nat)
        requires
            self.wf(),
            a + b <= self.pending().len(),
        ensures
            self.after_read(a).after_read(b) == self.after_read(a + b),
            self.pending().take(a as int) + self.pending().skip(a as int).take(b as int)
                == self.pending().take((a + b) as int),
    {
        assert(self.after_read(a).after_read(b) =~= self.after_read(a + b));
        assert(self.pending().take(a as int) + self.pending().skip(a as int).take(b as int)
            =~= self.pending().take((a + b) as int));
    }

    /// The declared length of a chain cuts nothing off, and the chain is
    /// well formed if and only if the two bodies can be chained.
    pub proof fn lemma_chain(self, other: BodyView)
        requires
            self.wf(),
            other.wf(),
        ensures
            self.chain(other).pending() == self.pending() + other.pending(),
            self.chain(other).progress.wf(),
            self.chain(other).wf() <==> self.can_chain(other),
    {
        assert(self.chain(other).pending() =~= self.pending() + other.pending());
    }
}

} // verus!
