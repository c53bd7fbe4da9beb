//! The body itself: a source of bytes, a media type, and the bookkeeping
//! that cuts reads off at the declared length.

use vstd::math::min;
use vstd::prelude::*;
use vstd::slice::slice_to_vec;
use vstd::std_specs::convert::FromSpecImpl;
use vstd::string::StrSliceExecFns;
use vstd::utf8::encode_utf8;
use crate::cursor::Cursor;
use crate::mime::{chain_mime, chain_mime_view, mime_view, Mime, BYTE_STREAM, PLAIN};
use crate::progress::{chain_len, Progress};
use crate::view::BodyView;

verus! {

/// Where the bytes of a body come from.
#[derive(Debug)]
pub enum Source {
    /// No bytes at all.
    Empty,
    /// A buffer in memory.
    Cursor(Cursor),
    /// Two bodies, the second read once the first has come to its end.
    Chain(Box<Chain>),
}

/// Two bodies read one after the other. The first is read until a read
/// with room in its buffer gets nothing from it; from then on it is done,
/// and all reads go to the second.
#[derive(Debug)]
pub struct Chain {
    first: Body,
    second: Body,
    done_first: bool,
}

/// A message body: a source of bytes, a media type, and the bookkeeping of
/// its length.
///
/// The view of a body ([`BodyView`]) holds what a reader can learn of it:
/// the bytes that the source has yet to produce, the text of the media
/// type, the declared length and the count of bytes read. A body is well
/// formed ([`Body::wf`]) when the count has not passed the declared length,
/// when a 64-bit counter can count what is left where no length is
/// declared, and when the same holds of every body inside its source.
/// Every function that makes a body makes a well-formed one.
#[derive(Debug)]
pub struct Body {
    source: Source,
    mime: Option<Mime>,
    progress: Progress,
}

/// A prefix of the first of two runs is a prefix of both, and what is left
/// of both is what is left of the first, then the second.
proof fn lemma_split_first(a: Seq<u8>, b: Seq<u8>, n: int)
    requires
        0 <= n <= a.len(),
    ensures
        (a + b).take(n) == a.take(n),
        (a + b).skip(n) == a.skip(n) + b,
        a.len() == 0 ==> a + b == b,
{
    assert((a + b).take(n) =~= a.take(n));
    assert((a + b).skip(n) =~= a.skip(n) + b);
    if a.len() == 0 {
        assert(a + b =~= b);
    }
}

/// A read into the front window of a buffer, seen on the whole buffer.
proof fn lemma_window(before: Seq<u8>, max: int, got: Seq<u8>, head: Seq<u8>, after: Seq<u8>)
    requires
        0 <= got.len() <= max <= before.len(),
        head == got + before.subrange(0, max).skip(got.len() as int),
        after == head + before.subrange(max, before.len() as int),
    ensures
        after == got + before.skip(got.len() as int),
        after.take(got.len() as int) == got,
{
    assert(after =~= got + before.skip(got.len() as int));
    assert(after.take(got.len() as int) =~= got);
}

impl Source {
    /// Every body inside is well formed.
    pub open spec fn wf(&self) -> bool
        decreases self,
    {
        match self {
            Source::Empty => true,
            Source::Cursor(_) => true,
            Source::Chain(ch) => ch.wf(),
        }
    }

    /// The bytes that reads of this source will produce, in order.
    pub open spec fn stream(&self) -> Seq<u8>
        decreases self,
    {
        match self {
            Source::Empty => Seq::empty(),
            Source::Cursor(c) => c@,
            Source::Chain(ch) => ch.stream(),
        }
    }

    /// The number of bytes that the next read can produce at most: what is
    /// left of the part of the source that is being read.
    pub open spec fn run(&self) -> nat
        decreases self,
    {
        match self {
            Source::Empty => 0,
            Source::Cursor(c) => c@.len(),
            Source::Chain(ch) => ch.run(),
        }
    }

    /// The bytes that the next look at the buffer shows: what the part of
    /// the source that is being read holds, whatever length is declared.
    pub open spec fn peek(&self) -> Seq<u8>
        decreases self,
    {
        match self {
            Source::Empty => Seq::empty(),
            Source::Cursor(c) => c@,
            Source::Chain(ch) => ch.peek(),
        }
    }

    /// A source in one piece: no chain.
    pub open spec fn plain(&self) -> bool {
        !(self is Chain)
    }

    /// The source after a read into a buffer of `cap` bytes.
    pub open spec fn after_reading(self, cap: usize) -> Source
        decreases self,
    {
        match self {
            Source::Empty => self,
            Source::Cursor(c) => Source::Cursor(c.consumed(cap)),
            Source::Chain(ch) => Source::Chain(Box::new(ch.after_reading(cap))),
        }
    }

    /// The source after a look at its buffer: in a chain, a first part whose
    /// buffer was found empty is marked as done.
    pub open spec fn settled(self) -> Source
        decreases self,
    {
        match self {
            Source::Chain(ch) => Source::Chain(Box::new(ch.settled())),
            _ => self,
        }
    }

    /// The source after `amt` bytes of its buffer have been passed over: in a
    /// chain, bytes of the first part until it is marked as done, then bytes
    /// of the second.
    pub open spec fn consumed(self, amt: usize) -> Source
        decreases self,
    {
        match self {
            Source::Empty => self,
            Source::Cursor(c) => Source::Cursor(c.consumed(amt)),
            Source::Chain(ch) => Source::Chain(Box::new(ch.consumed(amt))),
        }
    }

    /// The source that reads `first` to its end and then `second`. `done`
    /// says that the first has been found at its end, so that all reads and
    /// looks go to the second.
    pub closed spec fn chain_at(first: Body, second: Body, done: bool) -> Source {
        Source::Chain(Box::new(Chain { first, second, done_first: done }))
    }

    /// The source that reads `first` to its end and then `second`, before
    /// anything has been read of it.
    pub open spec fn chain_of(first: Body, second: Body) -> Source {
        Source::chain_at(first, second, false)
    }

    /// A well-formed source holds no more than a 64-bit counter can count.
    /// Its next read produces bytes if and only if there are any, and all of
    /// them where the source is in one piece.
    pub proof fn lemma_run(&self)
        requires
            self.wf(),
        ensures
            self.stream().len() <= u64::MAX,
            self.run() <= self.stream().len(),
            self.run() == 0 <==> self.stream().len() == 0,
            self.plain() ==> self.run() == self.stream().len(),
        decreases self,
    {
        match self {
            Source::Empty => {},
            Source::Cursor(c) => {
                c.lemma_len();
            },
            Source::Chain(ch) => {
                ch.lemma_run();
            },
        }
    }

    /// A source whose buffer is empty has nothing left to read; a source in
    /// one piece shows in its buffer all that it has left.
    pub proof fn lemma_peek(&self)
        requires
            self.wf(),
        ensures
            self.peek().len() == 0 ==> self.stream().len() == 0,
            self.plain() ==> self.peek() == self.stream(),
        decreases self,
    {
        match self {
            Source::Chain(ch) => {
                ch.lemma_peek();
            },
            _ => {},
        }
    }

    /// A read takes from the source the bytes that it hands out: as many as
    /// fit and as the part being read has left.
    pub proof fn lemma_after_reading(self, cap: usize)
        requires
            self.wf(),
        ensures
            self.after_reading(cap).wf(),
            self.after_reading(cap).stream() == self.stream().skip(
                min(cap as int, self.run() as int),
            ),
            self.after_reading(cap).plain() == self.plain(),
            cap < self.run() ==> self.after_reading(cap).run() == self.run() - cap,
        decreases self,
    {
        self.lemma_run();
        match self {
            Source::Empty => {
                assert(self.stream().skip(0) =~= self.stream());
            },
            Source::Cursor(c) => {
                c.lemma_consumed(cap);
            },
            Source::Chain(ch) => {
                ch.lemma_after_reading(cap);
            },
        }
    }

    /// A look at the buffer changes nothing that a reader can see.
    pub proof fn lemma_settled(self)
        requires
            self.wf(),
        ensures
            self.settled().wf(),
            self.settled().stream() == self.stream(),
            self.settled().peek() == self.peek(),
            self.settled().run() == self.run(),
            self.settled().plain() == self.plain(),
            self.plain() ==> self.settled() == self,
        decreases self,
    {
        match self {
            Source::Chain(ch) => {
                ch.lemma_settled();
            },
            _ => {},
        }
    }

    /// Passing over bytes of the buffer leaves a well-formed source that
    /// holds no more than before; from a source in one piece it takes
    /// those bytes away, or all if those are fewer.
    pub proof fn lemma_consumed(self, amt: usize)
        requires
            self.wf(),
        ensures
            self.consumed(amt).wf(),
            self.consumed(amt).stream().len() <= self.stream().len(),
            self.consumed(amt).plain() == self.plain(),
            self.plain() ==> self.consumed(amt).stream() == self.stream().skip(
                min(amt as int, self.stream().len() as int),
            ),
        decreases self,
    {
        match self {
            Source::Empty => {
                assert(self.stream().skip(0) =~= self.stream());
            },
            Source::Cursor(c) => {
                c.lemma_consumed(amt);
            },
            Source::Chain(ch) => {
                ch.lemma_consumed(amt);
            },
        }
    }

    /// What a chain is made of: what it holds, hands out next and shows in
    /// its buffer, when it is well formed, and what becomes of it when it is
    /// read, looked at, or passed over.
    pub proof fn lemma_chain_at(first: Body, second: Body, done: bool)
        ensures
            !Source::chain_at(first, second, done).plain(),
            Source::chain_at(first, second, done).stream() == first@.pending()
                + second@.pending(),
            Source::chain_at(first, second, done).run() == if !done && first.run() > 0 {
                first.run()
            } else {
                second.run()
            },
            Source::chain_at(first, second, done).peek() == if !done && first.peek().len() > 0 {
                first.peek()
            } else {
                second.peek()
            },
            Source::chain_at(first, second, done).wf() <==> {
                &&& first.wf()
                &&& second.wf()
                &&& done ==> first@.pending().len() == 0
                &&& first@.pending().len() + second@.pending().len() <= u64::MAX
            },
            forall|cap: usize| #[trigger]
                Source::chain_at(first, second, done).after_reading(cap) == if done {
                    Source::chain_at(first, second.after_reading(cap), true)
                } else if cap > 0 && first.run() == 0 {
                    Source::chain_at(first.after_reading(cap), second.after_reading(cap), true)
                } else {
                    Source::chain_at(first.after_reading(cap), second, false)
                },
            Source::chain_at(first, second, done).settled() == if done {
                Source::chain_at(first, second.settled(), true)
            } else if first.peek().len() > 0 {
                Source::chain_at(first.settled(), second, false)
            } else {
                Source::chain_at(first.settled(), second.settled(), true)
            },
            forall|amt: usize| #[trigger]
                Source::chain_at(first, second, done).consumed(amt) == if done {
                    Source::chain_at(first, second.consumed(amt), true)
                } else {
                    Source::chain_at(first.consumed(amt), second, false)
                },
    {
    }

    /// What a chain holds, hands out next and shows in its buffer before
    /// anything has been read of it.
    pub proof fn lemma_chain_of(first: Body, second: Body)
        requires
            first.wf(),
            second.wf(),
        ensures
            !Source::chain_of(first, second).plain(),
            Source::chain_of(first, second).stream() == first@.pending() + second@.pending(),
            Source::chain_of(first, second).run() == if first.run() > 0 {
                first.run()
            } else {
                second.run()
            },
            Source::chain_of(first, second).peek() == if first.peek().len() > 0 {
                first.peek()
            } else {
                second.peek()
            },
            Source::chain_of(first, second).wf() <==> first@.pending().len()
                + second@.pending().len() <= u64::MAX,
    {
        Source::lemma_chain_at(first, second, false);
    }

    /// The number of bytes that reads of this source will still produce.
    pub fn stream_len(&self) -> (n: u64)
        requires
            self.wf(),
        ensures
            n == self.stream().len(),
        decreases self,
    {
        match self {
            Source::Empty => 0,
            Source::Cursor(c) => c.remaining() as u64,
            Source::Chain(ch) => ch.stream_len(),
        }
    }

    /// Copies the next bytes of the source into `buf` and moves past them.
    /// Returns their number: as many as fit and as the part being read has
    /// left.
    pub fn read(&mut self, buf: &mut [u8]) -> (n: usize)
        requires
            old(self).wf(),
        ensures
            final(self).wf(),
            n == min(old(buf)@.len() as int, old(self).run() as int),
            final(buf)@ == old(self).stream().take(n as int) + old(buf)@.skip(n as int),
            final(self).stream() == old(self).stream().skip(n as int),
            *final(self) == old(self).after_reading(old(buf)@.len() as usize),
            n < old(self).run() ==> final(self).run() == old(self).run() - n,
        decreases *old(self),
    {
        proof {
            old(self).lemma_run();
        }
        match self {
            Source::Empty => {
                assert(buf@ =~= old(self).stream().take(0) + old(buf)@.skip(0));
                assert(self.stream() =~= old(self).stream().skip(0));
                0
            },
            Source::Cursor(c) => c.read(buf),
            Source::Chain(ch) => ch.read(buf),
        }
    }

    /// The buffered peek: the bytes that the source has at hand, without
    /// moving past them.
    pub fn fill_buf(&mut self) -> (out: &[u8])
        requires
            old(self).wf(),
        ensures
            out@ == old(self).peek(),
            *final(self) == old(self).settled(),
            final(self).wf(),
            final(self).stream() == old(self).stream(),
            final(self).peek() == old(self).peek(),
            final(self).run() == old(self).run(),
        decreases *old(self),
    {
        proof {
            old(self).lemma_settled();
        }
        match self {
            Source::Empty => {
                let out: &[u8] = &[];
                out
            },
            Source::Cursor(c) => c.fill_buf(),
            Source::Chain(ch) => ch.fill_buf(),
        }
    }

    /// Moves past `amt` bytes of the buffer.
    pub fn consume(&mut self, amt: usize)
        requires
            old(self).wf(),
        ensures
            *final(self) == old(self).consumed(amt),
            final(self).wf(),
            final(self).stream().len() <= old(self).stream().len(),
            old(self).plain() ==> final(self).stream() == old(self).stream().skip(
                min(amt as int, old(self).stream().len() as int),
            ),
        decreases *old(self),
    {
        proof {
            old(self).lemma_consumed(amt);
        }
        match self {
            Source::Empty => {},
            Source::Cursor(c) => c.consume(amt),
            Source::Chain(ch) => ch.consume(amt),
        }
    }
}

impl Chain {
    /// Both bodies are well formed, the first is used up once it is marked
    /// as done, and what both still hand out fits a 64-bit counter.
    pub closed spec fn wf(&self) -> bool
        decreases self,
    {
        &&& self.first.wf()
        &&& self.second.wf()
        &&& self.done_first ==> self.first.model().pending().len() == 0
        &&& self.first.model().pending().len() + self.second.model().pending().len() <= u64::MAX
    }

    /// What the first body still hands out, then what the second does.
    pub closed spec fn stream(&self) -> Seq<u8>
        decreases self,
    {
        self.first.model().pending() + self.second.model().pending()
    }

    /// What the next read can produce at most: what the first body can,
    /// unless that is done or has nothing; then what the second can.
    pub closed spec fn run(&self) -> nat
        decreases self,
    {
        if !self.done_first && self.first.run() > 0 {
            self.first.run()
        } else {
            self.second.run()
        }
    }

    /// The buffer of the first body, unless that is done or empty; then the
    /// buffer of the second.
    pub closed spec fn peek(&self) -> Seq<u8>
        decreases self,
    {
        if !self.done_first && self.first.peek().len() > 0 {
            self.first.peek()
        } else {
            self.second.peek()
        }
    }

    /// The chain after a read into a buffer of `cap` bytes: the first body
    /// is read until a read with room in its buffer gets nothing from it;
    /// that marks it as done, and the same read goes on to the second.
    pub closed spec fn after_reading(self, cap: usize) -> Chain
        decreases self,
    {
        if self.done_first {
            Chain { first: self.first, second: self.second.after_reading(cap), done_first: true }
        } else if cap > 0 && self.first.run() == 0 {
            Chain {
                first: self.first.after_reading(cap),
                second: self.second.after_reading(cap),
                done_first: true,
            }
        } else {
            Chain { first: self.first.after_reading(cap), second: self.second, done_first: false }
        }
    }

    /// The chain after a look at its buffer.
    pub closed spec fn settled(self) -> Chain
        decreases self,
    {
        if self.done_first {
            Chain { first: self.first, second: self.second.settled(), done_first: true }
        } else if self.first.peek().len() > 0 {
            Chain { first: self.first.settled(), second: self.second, done_first: false }
        } else {
            Chain { first: self.first.settled(), second: self.second.settled(), done_first: true }
        }
    }

    /// The chain after `amt` bytes of its buffer have been passed over.
    pub closed spec fn consumed(self, amt: usize) -> Chain
        decreases self,
    {
        if self.done_first {
            Chain { first: self.first, second: self.second.consumed(amt), done_first: true }
        } else {
            Chain { first: self.first.consumed(amt), second: self.second, done_first: false }
        }
    }

    proof fn lemma_run(&self)
        requires
            self.wf(),
        ensures
            self.stream().len() <= u64::MAX,
            self.run() <= self.stream().len(),
            self.run() == 0 <==> self.stream().len() == 0,
        decreases self,
    {
        self.first.lemma_run();
        self.second.lemma_run();
    }

    proof fn lemma_peek(&self)
        requires
            self.wf(),
        ensures
            self.peek().len() == 0 ==> self.stream().len() == 0,
        decreases self,
    {
        self.first.lemma_peek();
        self.second.lemma_peek();
    }

    proof fn lemma_after_reading(self, cap: usize)
        requires
            self.wf(),
        ensures
            self.after_reading(cap).wf(),
            self.after_reading(cap).stream() == self.stream().skip(
                min(cap as int, self.run() as int),
            ),
            cap < self.run() ==> self.after_reading(cap).run() == self.run() - cap,
        decreases self,
    {
        let a = self.first.model().pending();
        let b = self.second.model().pending();
        self.first.lemma_run();
        self.second.lemma_run();
        self.first.lemma_after_reading(cap);
        self.second.lemma_after_reading(cap);
        self.first.after_reading(cap).lemma_run();
        self.second.after_reading(cap).lemma_run();
        if self.done_first || (cap > 0 && self.first.run() == 0) {
            let n = min(cap as int, self.second.run() as int);
            self.second.model().lemma_after_read(n as nat);
            lemma_split_first(a, b, 0);
            lemma_split_first(self.after_reading(cap).first.model().pending(), b.skip(n), 0);
        } else {
            let n = min(cap as int, self.first.run() as int);
            self.first.model().lemma_after_read(n as nat);
            lemma_split_first(a, b, n);
        }
    }

    proof fn lemma_settled(self)
        requires
            self.wf(),
        ensures
            self.settled().wf(),
            self.settled().stream() == self.stream(),
            self.settled().peek() == self.peek(),
            self.settled().run() == self.run(),
        decreases self,
    {
        self.first.lemma_settled();
        self.second.lemma_settled();
        self.first.lemma_peek();
        self.first.lemma_run();
    }

    proof fn lemma_consumed(self, amt: usize)
        requires
            self.wf(),
        ensures
            self.consumed(amt).wf(),
            self.consumed(amt).stream().len() <= self.stream().len(),
        decreases self,
    {
        self.first.lemma_consumed(amt);
        self.second.lemma_consumed(amt);
    }

    fn stream_len(&self) -> (n: u64)
        requires
            self.wf(),
        ensures
            n == self.stream().len(),
        decreases self,
    {
        self.first.pending_len() + self.second.pending_len()
    }

    fn read(&mut self, buf: &mut [u8]) -> (n: usize)
        requires
            old(self).wf(),
        ensures
            final(self).wf(),
            n == min(old(buf)@.len() as int, old(self).run() as int),
            final(buf)@ == old(self).stream().take(n as int) + old(buf)@.skip(n as int),
            final(self).stream() == old(self).stream().skip(n as int),
            *final(self) == old(self).after_reading(old(buf)@.len() as usize),
            n < old(self).run() ==> final(self).run() == old(self).run() - n,
        decreases *old(self),
    {
        let ghost first = old(self).first;
        let ghost second = old(self).second;
        proof {
            first.lemma_run();
            second.lemma_run();
        }
        if !self.done_first {
            let n = self.first.read(buf);
            proof {
                self.first.lemma_run();
                first.model().lemma_after_read(n as nat);
                lemma_split_first(first.model().pending(), second.model().pending(), n as int);
            }
            if n == 0 && buf.len() > 0 {
                self.done_first = true;
            } else {
                return n;
            }
        }
        let n = self.second.read(buf);
        proof {
            self.second.lemma_run();
            second.model().lemma_after_read(n as nat);
            lemma_split_first(first.model().pending(), second.model().pending(), 0);
            lemma_split_first(
                self.first.model().pending(),
                self.second.model().pending(),
                0,
            );
        }
        n
    }

    fn fill_buf(&mut self) -> (out: &[u8])
        requires
            old(self).wf(),
        ensures
            out@ == old(self).peek(),
            *final(self) == old(self).settled(),
        decreases *old(self),
    {
        if !self.done_first {
            let out = self.first.fill_buf();
            if out.len() == 0 {
                self.done_first = true;
            } else {
                return out;
            }
        }
        self.second.fill_buf()
    }

    fn consume(&mut self, amt: usize)
        requires
            old(self).wf(),
        ensures
            *final(self) == old(self).consumed(amt),
        decreases *old(self),
    {
        if !self.done_first {
            self.first.consume(amt)
        } else {
            self.second.consume(amt)
        }
    }
}

impl View for Body {
    type V = BodyView;

    closed spec fn view(&self) -> BodyView {
        self.model()
    }
}

impl Body {
    /// The bookkeeping is sound, and so is every body inside the source.
    pub closed spec fn wf(&self) -> bool
        decreases self,
    {
        &&& self.source.wf()
        &&& self.model().wf()
    }

    /// What this body is to its reader.
    spec fn model(&self) -> BodyView
        decreases self,
    {
        BodyView {
            source: self.source.stream(),
            mime: mime_view(self.mime),
            progress: self.progress,
        }
    }

    /// The source of this body.
    pub closed spec fn source(&self) -> Source {
        self.source
    }

    /// The number of bytes that the next bounded read can hand out at most:
    /// what the part of the source that is being read has left, cut off at
    /// the declared length.
    pub closed spec fn run(&self) -> nat
        decreases self,
    {
        self.progress.clip(self.source.run())
    }

    /// The bytes that the next look at the buffer shows. The declared length
    /// does not cut them off.
    pub closed spec fn peek(&self) -> Seq<u8>
        decreases self,
    {
        self.source.peek()
    }

    /// The body after a bounded read into a buffer of `cap` bytes: at the
    /// declared length nothing changes; else the source is read into the
    /// part of the buffer that the declared length leaves, and what it
    /// gives is counted.
    pub closed spec fn after_reading(self, cap: usize) -> Body
        decreases self,
    {
        if self.progress.remaining() == Some(0nat) {
            self
        } else {
            let window = self.progress.clip(cap as nat);
            Body {
                source: self.source.after_reading(window as usize),
                mime: self.mime,
                progress: self.progress.after(min(window as int, self.source.run() as int) as nat),
            }
        }
    }

    /// The body after a look at its buffer.
    pub closed spec fn settled(self) -> Body
        decreases self,
    {
        Body { source: self.source.settled(), mime: self.mime, progress: self.progress }
    }

    /// The body after `amt` bytes of its buffer have been passed over.
    pub closed spec fn consumed(self, amt: usize) -> Body
        decreases self,
    {
        Body { source: self.source.consumed(amt), mime: self.mime, progress: self.progress }
    }

    /// This body with another media type.
    pub closed spec fn with_mime(self, mime: Option<Mime>) -> Body {
        Body { source: self.source, mime, progress: self.progress }
    }

    /// A well-formed body has a well-formed view. Its next read hands out
    /// bytes if and only if any are pending, and all that fit where the
    /// source is in one piece.
    pub proof fn lemma_run(&self)
        requires
            self.wf(),
        ensures
            self@.wf(),
            self.source().wf(),
            self@.source == self.source().stream(),
            self@.pending().len() <= u64::MAX,
            self.run() == self@.progress.clip(self.source().run()),
            self.run() <= self@.pending().len(),
            self.run() == 0 <==> self@.pending().len() == 0,
            self.source().plain() ==> self.run() == self@.pending().len(),
        decreases self,
    {
        self.source.lemma_run();
    }

    /// A body whose buffer is empty has nothing pending; a body over a source
    /// in one piece shows in its buffer all that the source has left.
    pub proof fn lemma_peek(&self)
        requires
            self.wf(),
        ensures
            self.peek() == self.source().peek(),
            self.peek().len() == 0 ==> self@.pending().len() == 0,
            self.source().plain() ==> self.peek() == self@.source,
        decreases self,
    {
        self.source.lemma_peek();
    }

    /// A bounded read into a buffer of `cap` bytes hands out as many bytes
    /// as fit and as the next read can hand out, and leaves the body that
    /// has read them. At the declared length it leaves the source alone;
    /// else the source is read into the part of the buffer that the
    /// declared length leaves.
    pub proof fn lemma_after_reading(self, cap: usize)
        requires
            self.wf(),
        ensures
            self.after_reading(cap).wf(),
            self.after_reading(cap)@ == self@.after_read(min(cap as int, self.run() as int) as nat),
            self.after_reading(cap).source() == if self@.progress.remaining() == Some(0nat) {
                self.source()
            } else {
                self.source().after_reading(self@.progress.clip(cap as nat) as usize)
            },
            self.after_reading(cap).source().plain() == self.source().plain(),
            cap < self.run() ==> self.after_reading(cap).run() == self.run() - cap,
        decreases self,
    {
        self.lemma_run();
        self.model().lemma_after_read(0);
        if self.progress.remaining() != Some(0nat) {
            let window = self.progress.clip(cap as nat) as usize;
            self.source.lemma_after_reading(window);
            let n = min(window as int, self.source.run() as int);
            self.model().lemma_after_read(n as nat);
            assert(self.after_reading(cap).model() =~= self.model().after_read(n as nat));
            self.source.after_reading(window).lemma_run();
        }
    }

    /// A look at the buffer changes nothing that a reader can see.
    pub proof fn lemma_settled(self)
        requires
            self.wf(),
        ensures
            self.settled().wf(),
            self.settled()@ == self@,
            self.settled().peek() == self.peek(),
            self.settled().run() == self.run(),
            self.settled().source() == self.source().settled(),
            self.settled().source().plain() == self.source().plain(),
        decreases self,
    {
        self.source.lemma_settled();
    }

    /// Passing over bytes of the buffer counts nothing as read and leaves
    /// the media type alone. From a body over a source in one piece it takes
    /// those bytes away, or all if those are fewer.
    pub proof fn lemma_consumed(self, amt: usize)
        requires
            self.wf(),
        ensures
            self.consumed(amt).wf(),
            self.consumed(amt)@.mime == self@.mime,
            self.consumed(amt)@.progress == self@.progress,
            self.consumed(amt)@.source.len() <= self@.source.len(),
            self.consumed(amt)@.pending().len() <= self@.pending().len(),
            self.consumed(amt).source() == self.source().consumed(amt),
            self.consumed(amt).source().plain() == self.source().plain(),
            self.source().plain() ==> self.consumed(amt)@.source == self@.source.skip(
                min(amt as int, self@.source.len() as int),
            ),
        decreases self,
    {
        self.source.lemma_consumed(amt);
    }

    /// What a body over a chain holds after `amt` bytes of its buffer have
    /// been passed over. The bytes are taken from the first part as long as
    /// that is not marked as done, and from the second afterwards; the other
    /// part stays as it is. What the body hands out then is what the two
    /// parts have pending, and its buffer shows that of the first part
    /// unless that is done or empty.
    pub proof fn lemma_chain_consumed(self, first: Body, second: Body, done: bool, amt: usize)
        requires
            self.wf(),
            self.source() == Source::chain_at(first, second, done),
        ensures
            first.wf(),
            second.wf(),
            !done ==> {
                &&& first.consumed(amt).wf()
                &&& self.consumed(amt).source() == Source::chain_at(
                    first.consumed(amt),
                    second,
                    false,
                )
                &&& self.consumed(amt)@.source == first.consumed(amt)@.pending()
                    + second@.pending()
                &&& self.consumed(amt).peek() == if first.consumed(amt).peek().len() > 0 {
                    first.consumed(amt).peek()
                } else {
                    second.peek()
                }
            },
            done ==> {
                &&& second.consumed(amt).wf()
                &&& self.consumed(amt).source() == Source::chain_at(
                    first,
                    second.consumed(amt),
                    true,
                )
                &&& self.consumed(amt)@.source == first@.pending() + second.consumed(
                    amt,
                )@.pending()
                &&& self.consumed(amt).peek() == second.consumed(amt).peek()
            },
    {
        self.lemma_run();
        self.lemma_consumed(amt);
        Source::lemma_chain_at(first, second, done);
        self.consumed(amt).lemma_run();
        self.consumed(amt).lemma_peek();
        if done {
            second.lemma_consumed(amt);
            Source::lemma_chain_at(first, second.consumed(amt), true);
        } else {
            first.lemma_consumed(amt);
            Source::lemma_chain_at(first.consumed(amt), second, false);
        }
    }

    /// A body without content: its declared length is 0, its media type the
    /// byte-stream type.
    pub fn empty() -> (body: Body)
        ensures
            body.wf(),
            body.source() == Source::Empty,
            body@ == (BodyView {
                source: Seq::empty(),
                mime: Some(BYTE_STREAM@),
                progress: Progress { length: Some(0), bytes_read: 0 },
            }),
    {
        Body { source: Source::Empty, mime: Some(Mime::byte_stream()), progress: Progress::new(Some(0)) }
    }

    /// A body over a source, with the length that the caller declares, if
    /// any. Its media type is the byte-stream type.
    pub fn from_reader(reader: Source, length: Option<u64>) -> (body: Body)
        requires
            reader.wf(),
        ensures
            body.wf(),
            body.source() == reader,
            body@ == (BodyView {
                source: reader.stream(),
                mime: Some(BYTE_STREAM@),
                progress: Progress { length, bytes_read: 0 },
            }),
    {
        proof {
            reader.lemma_run();
        }
        Body { source: reader, mime: Some(Mime::byte_stream()), progress: Progress::new(length) }
    }

    /// Gives the source back, as far as it has not been read.
    pub fn into_reader(self) -> (reader: Source)
        requires
            self.wf(),
        ensures
            reader == self.source(),
            reader.wf(),
    {
        self.source
    }

    /// A body that holds the given bytes. Its declared length is their
    /// number, its media type the byte-stream type.
    pub fn from_bytes(bytes: Vec<u8>) -> (body: Body)
        ensures
            body.wf(),
            body.source().plain(),
            bytes@.len() <= usize::MAX,
            body@ == (BodyView {
                source: bytes@,
                mime: Some(BYTE_STREAM@),
                progress: Progress { length: Some(bytes@.len() as u64), bytes_read: 0 },
            }),
    {
        let length = bytes.len() as u64;
        Body {
            source: Source::Cursor(Cursor::new(bytes)),
            mime: Some(Mime::byte_stream()),
            progress: Progress::new(Some(length)),
        }
    }

    /// A body that holds the UTF-8 encoding of a text. Its declared length
    /// is the number of those bytes, its media type the plain-text type.
    pub fn from_string(s: String) -> (body: Body)
        ensures
            body.wf(),
            body.source().plain(),
            encode_utf8(s@).len() <= usize::MAX,
            body@ == (BodyView {
                source: encode_utf8(s@),
                mime: Some(PLAIN@),
                progress: Progress { length: Some(encode_utf8(s@).len() as u64), bytes_read: 0 },
            }),
    {
        let bytes = s.as_str().as_bytes_vec();
        let length = bytes.len() as u64;
        Body {
            source: Source::Cursor(Cursor::new(bytes)),
            mime: Some(Mime::plain()),
            progress: Progress::new(Some(length)),
        }
    }

    /// The declared length, if any.
    pub fn len(&self) -> (length: Option<u64>)
        ensures
            length == self@.progress.length,
    {
        self.progress.length
    }

    /// Whether the declared length is 0; nothing where no length is
    /// declared.
    pub fn is_empty(&self) -> (empty: Option<bool>)
        ensures
            empty == match self@.progress.length {
                Some(l) => Some(l == 0),
                None => None,
            },
    {
        match self.progress.length {
            Some(l) => Some(l == 0),
            None => None,
        }
    }

    /// The number of bytes that bounded reads have handed out.
    pub fn bytes_read(&self) -> (n: u64)
        ensures
            n == self@.progress.bytes_read,
    {
        self.progress.bytes_read
    }

    /// The number of bytes that bounded reads will still hand out.
    pub fn pending_len(&self) -> (n: u64)
        requires
            self.wf(),
        ensures
            n == self@.pending().len(),
        decreases self,
    {
        proof {
            self.lemma_run();
        }
        let held = self.source.stream_len();
        match self.progress.length {
            None => held,
            Some(length) => {
                let left = length - self.progress.bytes_read;
                if left < held {
                    left
                } else {
                    held
                }
            },
        }
    }

    /// The media type, if one is set.
    pub fn mime(&self) -> (mime: Option<&Mime>)
        ensures
            self@.mime == match mime {
                Some(m) => Some(m@),
                None => None,
            },
    {
        self.mime.as_ref()
    }

    /// Sets the media type, or takes it away.
    pub fn set_mime(&mut self, mime: Option<Mime>)
        ensures
            *final(self) == old(self).with_mime(mime),
            final(self)@ == (BodyView { mime: mime_view(mime), ..old(self)@ }),
            final(self).source() == old(self).source(),
            final(self).run() == old(self).run(),
            final(self).peek() == old(self).peek(),
            final(self).wf() == old(self).wf(),
    {
        self.mime = mime;
    }

    /// The bounded read. Copies the next pending bytes into `buf` and counts
    /// them. Returns their number, which is 0 once nothing is pending: at the
    /// declared length or at the end of the source, whichever comes first.
    /// At the declared length the source is left alone.
    pub fn read(&mut self, buf: &mut [u8]) -> (n: usize)
        requires
            old(self).wf(),
        ensures
            final(self).wf(),
            n == min(old(buf)@.len() as int, old(self).run() as int),
            n <= old(self)@.pending().len(),
            n == 0 <==> old(buf)@.len() == 0 || old(self)@.pending().len() == 0,
            old(self).source().plain() ==> n == min(
                old(buf)@.len() as int,
                old(self)@.pending().len() as int,
            ),
            final(buf)@ == old(self)@.pending().take(n as int) + old(buf)@.skip(n as int),
            final(self)@ == old(self)@.after_read(n as nat),
            old(self)@.reads(old(buf)@.len(), final(buf)@.take(n as int), final(self)@),
            *final(self) == old(self).after_reading(old(buf)@.len() as usize),
            n < old(self).run() ==> final(self).run() == old(self).run() - n,
            final(self).source().plain() == old(self).source().plain(),
        decreases *old(self),
    {
        let ghost before = old(self)@;
        let ghost stream = old(self).source.stream();
        proof {
            old(self).lemma_run();
            old(self).lemma_after_reading(buf.len());
            before.lemma_after_read(0);
        }
        match self.progress.window(buf.len()) {
            None => {
                proof {
                    assert(buf@ =~= before.pending().take(0) + buf@.skip(0));
                    assert(buf@.take(0) =~= before.pending().take(0));
                }
                0
            },
            Some(max) => {
                let (head, tail) = buf.split_at_mut(max);
                let n = self.source.read(head);
                self.progress.advance(n);
                proof {
                    assert(stream.take(n as int) =~= before.pending().take(n as int));
                    lemma_window(old(buf)@, max as int, stream.take(n as int), head@, buf@);
                }
                n
            },
        }
    }

    /// The buffered peek: the bytes that the source has at hand. Nothing is
    /// counted as read, and the declared length does not cut the bytes off:
    /// to keep to the length is up to the caller who reads this way.
    pub fn fill_buf(&mut self) -> (out: &[u8])
        requires
            old(self).wf(),
        ensures
            out@ == old(self).peek(),
            *final(self) == old(self).settled(),
            final(self).wf(),
            final(self)@ == old(self)@,
            final(self).peek() == old(self).peek(),
            final(self).run() == old(self).run(),
            final(self).source().plain() == old(self).source().plain(),
        decreases *old(self),
    {
        proof {
            old(self).lemma_settled();
        }
        self.source.fill_buf()
    }

    /// Moves the source past `amt` bytes of its buffer. Nothing is counted
    /// as read. Of a body over a chain, [`Body::lemma_chain_consumed`] says
    /// what it holds afterwards.
    pub fn consume(&mut self, amt: usize)
        requires
            old(self).wf(),
        ensures
            *final(self) == old(self).consumed(amt),
            final(self).wf(),
            final(self)@.mime == old(self)@.mime,
            final(self)@.progress == old(self)@.progress,
            final(self)@.pending().len() <= old(self)@.pending().len(),
            final(self).source().plain() == old(self).source().plain(),
            old(self).source().plain() ==> final(self)@.source == old(self)@.source.skip(
                min(amt as int, old(self)@.source.len() as int),
            ),
            old(self).source().plain() ==> final(self).peek() == final(self)@.source,
        decreases *old(self),
    {
        proof {
            old(self).lemma_consumed(amt);
            old(self).consumed(amt).lemma_peek();
        }
        self.source.consume(amt)
    }

    /// The body that reads this one to its end and then `other`. Both are
    /// used up. What has been read of either before does not come again,
    /// and does not count: the declared length is that of what both have
    /// left.
    ///
    /// The count of bytes read is a 64-bit number. Where the chain declares
    /// no length, nothing else keeps the count from running over, so the
    /// bytes that the two bodies still hand out must not be more than it
    /// can count. [`Body::try_chain`] tests that.
    pub fn chain(self, other: Body) -> (body: Body)
        requires
            self.wf(),
            other.wf(),
            self@.can_chain(other@),
        ensures
            body.wf(),
            body@ == self@.chain(other@),
            body@.pending() == self@.pending() + other@.pending(),
            body@.progress.length == chain_len(self@.progress, other@.progress),
            body@.progress.bytes_read == 0,
            body@.mime == chain_mime_view(self@.mime, other@.mime),
            body.source() == Source::chain_of(self, other),
            body.run() == if self.run() > 0 {
                self.run()
            } else {
                other.run()
            },
            body.peek() == if self.peek().len() > 0 {
                self.peek()
            } else {
                other.peek()
            },
    {
        proof {
            self.lemma_run();
            other.lemma_run();
            self@.lemma_chain(other@);
            Source::lemma_chain_of(self, other);
        }
        let mime = chain_mime(&self.mime, &other.mime);
        let progress = self.progress.chain(&other.progress);
        Body {
            source: Source::Chain(Box::new(Chain { first: self, second: other, done_first: false })),
            mime,
            progress,
        }
    }

    /// As [`Body::chain`], where the two bodies can be chained; else both
    /// come back as they are.
    pub fn try_chain(self, other: Body) -> (result: Result<Body, (Body, Body)>)
        requires
            self.wf(),
            other.wf(),
        ensures
            result is Ok <==> self@.can_chain(other@),
            chain_len(self@.progress, other@.progress) is Some ==> result is Ok,
            match result {
                Ok(body) => {
                    &&& body.wf()
                    &&& body@ == self@.chain(other@)
                    &&& body@.pending() == self@.pending() + other@.pending()
                    &&& body@.progress.length == chain_len(self@.progress, other@.progress)
                    &&& body@.progress.bytes_read == 0
                    &&& body@.mime == chain_mime_view(self@.mime, other@.mime)
                    &&& body.source() == Source::chain_of(self, other)
                },
                Err(back) => back == (self, other),
            },
    {
        proof {
            self.lemma_run();
            other.lemma_run();
        }
        let declared = self.progress.chain(&other.progress).length;
        if declared.is_some() || self.pending_len().checked_add(other.pending_len()).is_some() {
            Ok(self.chain(other))
        } else {
            Err((self, other))
        }
    }
}

impl From<Vec<u8>> for Body {
    /// As [`Body::from_bytes`].
    fn from(bytes: Vec<u8>) -> (body: Body)
        ensures
            body.wf(),
            body.source().plain(),
            bytes@.len() <= usize::MAX,
            body@ == (BodyView {
                source: bytes@,
                mime: Some(BYTE_STREAM@),
                progress: Progress { length: Some(bytes@.len() as u64), bytes_read: 0 },
            }),
    {
        Body::from_bytes(bytes)
    }
}

impl FromSpecImpl<Vec<u8>> for Body {
    open spec fn obeys_from_spec() -> bool {
        false
    }

    open spec fn from_spec(bytes: Vec<u8>) -> Body {
        arbitrary()
    }
}

impl<'a> From<&'a [u8]> for Body {
    /// As [`Body::from_bytes`], on a copy of the bytes.
    fn from(bytes: &'a [u8]) -> (body: Body)
        ensures
            body.wf(),
            body.source().plain(),
            bytes@.len() <= usize::MAX,
            body@ == (BodyView {
                source: bytes@,
                mime: Some(BYTE_STREAM@),
                progress: Progress { length: Some(bytes@.len() as u64), bytes_read: 0 },
            }),
    {
        Body::from_bytes(slice_to_vec(bytes))
    }
}

impl<'a> FromSpecImpl<&'a [u8]> for Body {
    open spec fn obeys_from_spec() -> bool {
        false
    }

    open spec fn from_spec(bytes: &'a [u8]) -> Body {
        arbitrary()
    }
}

impl From<String> for Body {
    /// As [`Body::from_string`].
    fn from(s: String) -> (body: Body)
        ensures
            body.wf(),
            body.source().plain(),
            encode_utf8(s@).len() <= usize::MAX,
            body@ == (BodyView {
                source: encode_utf8(s@),
                mime: Some(PLAIN@),
                progress: Progress { length: Some(encode_utf8(s@).len() as u64), bytes_read: 0 },
            }),
    {
        Body::from_string(s)
    }
}

impl FromSpecImpl<String> for Body {
    open spec fn obeys_from_spec() -> bool {
        false
    }

    open spec fn from_spec(s: String) -> Body {
        arbitrary()
    }
}

impl<'a> From<&'a str> for Body {
    /// As [`Body::from_string`], on a copy of the text.
    fn from(s: &'a str) -> (body: Body)
        ensures
            body.wf(),
            body.source().plain(),
            encode_utf8(s@).len() <= usize::MAX,
            body@ == (BodyView {
                source: encode_utf8(s@),
                mime: Some(PLAIN@),
                progress: Progress { length: Some(encode_utf8(s@).len() as u64), bytes_read: 0 },
            }),
    {
        Body::from_string(s.to_owned())
    }
}

impl<'a> FromSpecImpl<&'a str> for Body {
    open spec fn obeys_from_spec() -> bool {
        false
    }

    open spec fn from_spec(s: &'a str) -> Body {
        arbitrary()
    }
}

} // verus!
