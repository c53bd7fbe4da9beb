//! What holds of every body: how the declared length bounds what reads
//! hand out, whatever the sizes of the buffers, and how chains compose.

use vstd::prelude::*;
use crate::mime::BYTE_STREAM;
use crate::view::BodyView;

verus! {

/// The bytes of a list of chunks, one chunk after the other.
pub open spec fn joined(chunks: Seq<Seq<u8>>) -> Seq<u8>
    decreases chunks.len(),
{
    if chunks.len() == 0 {
        Seq::empty()
    } else {
        joined(chunks.drop_last()) + chunks.last()
    }
}

/// A run of bounded reads on one body: before read `i` the body is
/// `views[i]`, the read has a buffer of `caps[i]` bytes and gets the bytes
/// `outs[i]`, and afterwards the body is `views[i + 1]`.
pub open spec fn read_run(views: Seq<BodyView>, caps: Seq<nat>, outs: Seq<Seq<u8>>) -> bool {
    &&& views.len() == caps.len() + 1
    &&& outs.len() == caps.len()
    &&& forall|i: int|
        0 <= i < caps.len() ==> (#[trigger] views[i]).reads(caps[i], outs[i], views[i + 1])
}

/// The first reads of a run hand out no more than the whole run.
pub proof fn lemma_joined_grows(chunks: Seq<Seq<u8>>, k: int)
    requires
        0 <= k <= chunks.len(),
    ensures
        joined(chunks.take(k)).len() <= joined(chunks).len(),
    decreases chunks.len(),
{
    if k == chunks.len() {
        assert(chunks.take(k) =~= chunks);
    } else {
        lemma_joined_grows(chunks.drop_last(), k);
        assert(chunks.drop_last().take(k) =~= chunks.take(k));
    }
}

/// Whatever the sizes of the buffers, a run of bounded reads hands out the
/// pending bytes in order, from the first on, and counts exactly the bytes
/// that it has handed out.
pub proof fn law_reads_follow_pending(views: Seq<BodyView>, caps: Seq<nat>, outs: Seq<Seq<u8>>)
    requires
        read_run(views, caps, outs),
        views[0].wf(),
    ensures
        joined(outs).len() <= views[0].pending().len(),
        joined(outs) == views[0].pending().take(joined(outs).len() as int),
        views.last() == views[0].after_read(joined(outs).len()),
        views.last().wf(),
        views.last().pending() == views[0].pending().skip(joined(outs).len() as int),
        views.last().progress.bytes_read == views[0].progress.bytes_read + joined(outs).len(),
    decreases caps.len(),
{
    let start = views[0];
    if caps.len() == 0 {
        start.lemma_after_read(0);
        assert(joined(outs) =~= start.pending().take(0));
    } else {
        let k = caps.len() - 1;
        let views0 = views.drop_last();
        let caps0 = caps.drop_last();
        let outs0 = outs.drop_last();
        assert(read_run(views0, caps0, outs0)) by {
            assert forall|i: int| 0 <= i < caps0.len() implies (#[trigger] views0[i]).reads(
                caps0[i],
                outs0[i],
                views0[i + 1],
            ) by {
                assert(views[i].reads(caps[i], outs[i], views[i + 1]));
            }
        }
        law_reads_follow_pending(views0, caps0, outs0);
        let done = joined(outs0).len();
        assert(views0.last() == views[k]);
        assert(views[k].reads(caps[k], outs[k], views[k + 1]));
        start.lemma_after_read(done);
        start.lemma_after_read_add(done, outs[k].len());
        start.lemma_after_read(done + outs[k].len());
    }
}

/// Once a read into a buffer with room has come back empty, the run has
/// handed out all that was pending, no more and no less, and has counted
/// that many bytes.
pub proof fn law_reads_end_with_all(
    views: Seq<BodyView>,
    caps: Seq<nat>,
    outs: Seq<Seq<u8>>,
    i: int,
)
    requires
        read_run(views, caps, outs),
        views[0].wf(),
        0 <= i < caps.len(),
        caps[i] >= 1,
        outs[i].len() == 0,
    ensures
        joined(outs) == views[0].pending(),
        views.last().pending().len() == 0,
        views.last().progress.bytes_read == views[0].progress.bytes_read
            + views[0].pending().len(),
{
    let start = views[0];
    let views0 = views.take(i + 1);
    let caps0 = caps.take(i);
    let outs0 = outs.take(i);
    assert(read_run(views0, caps0, outs0)) by {
        assert forall|j: int| 0 <= j < caps0.len() implies (#[trigger] views0[j]).reads(
            caps0[j],
            outs0[j],
            views0[j + 1],
        ) by {
            assert(views[j].reads(caps[j], outs[j], views[j + 1]));
        }
    }
    law_reads_follow_pending(views0, caps0, outs0);
    assert(views0.last() == views[i]);
    assert(views[i].reads(caps[i], outs[i], views[i + 1]));
    lemma_joined_grows(outs, i);
    law_reads_follow_pending(views, caps, outs);
    assert(joined(outs) =~= start.pending());
}

/// Reading up to a declared length. Where the source holds at least the
/// bytes that the declared length leaves to read, a run of bounded reads
/// that goes on until a read into a buffer with room comes back empty
/// hands out exactly that many bytes, the first of the source, whatever the
/// sizes of the buffers; and the count of bytes read is then the declared
/// length.
pub proof fn law_declared_length_cuts_off(
    views: Seq<BodyView>,
    caps: Seq<nat>,
    outs: Seq<Seq<u8>>,
    i: int,
    length: u64,
)
    requires
        read_run(views, caps, outs),
        views[0].wf(),
        views[0].progress.length == Some(length),
        views[0].source.len() >= length - views[0].progress.bytes_read,
        0 <= i < caps.len(),
        caps[i] >= 1,
        outs[i].len() == 0,
    ensures
        joined(outs) == views[0].source.take(length - views[0].progress.bytes_read),
        views.last().progress.bytes_read == length,
        views.last().pending().len() == 0,
{
    law_reads_end_with_all(views, caps, outs, i);
}

/// Reading a source that ends before the declared length. Where the source
/// holds fewer bytes than the declared length leaves to read, such a run
/// hands out all that the source holds, and the count of bytes read stays
/// below the declared length: it has grown by the bytes of the source.
pub proof fn law_short_source_is_read_whole(
    views: Seq<BodyView>,
    caps: Seq<nat>,
    outs: Seq<Seq<u8>>,
    i: int,
    length: u64,
)
    requires
        read_run(views, caps, outs),
        views[0].wf(),
        views[0].progress.length == Some(length),
        views[0].source.len() < length - views[0].progress.bytes_read,
        0 <= i < caps.len(),
        caps[i] >= 1,
        outs[i].len() == 0,
    ensures
        joined(outs) == views[0].source,
        views.last().progress.bytes_read == views[0].progress.bytes_read
            + views[0].source.len(),
        views.last().progress.bytes_read < length,
        views.last().pending().len() == 0,
{
    law_reads_end_with_all(views, caps, outs, i);
    assert(views[0].pending() =~= views[0].source);
}

/// Reading without a declared length. Such a run hands out all that the
/// source holds, whatever the sizes of the buffers.
pub proof fn law_undeclared_length_reads_all(
    views: Seq<BodyView>,
    caps: Seq<nat>,
    outs: Seq<Seq<u8>>,
    i: int,
)
    requires
        read_run(views, caps, outs),
        views[0].wf(),
        views[0].progress.length is None,
        0 <= i < caps.len(),
        caps[i] >= 1,
        outs[i].len() == 0,
    ensures
        joined(outs) == views[0].source,
        views.last().progress.bytes_read == views[0].progress.bytes_read
            + views[0].source.len(),
        views.last().pending().len() == 0,
{
    law_reads_end_with_all(views, caps, outs, i);
    assert(views[0].pending() =~= views[0].source);
}

/// The count of bytes read never goes down and never passes the declared
/// length, however a body is read.
pub proof fn law_count_stays_within_length(
    views: Seq<BodyView>,
    caps: Seq<nat>,
    outs: Seq<Seq<u8>>,
)
    requires
        read_run(views, caps, outs),
        views[0].wf(),
    ensures
        views[0].progress.bytes_read <= views.last().progress.bytes_read,
        views.last().progress.length == views[0].progress.length,
        views.last().progress.length matches Some(l) ==> views.last().progress.bytes_read <= l,
{
    law_reads_follow_pending(views, caps, outs);
}

/// A chain hands out what the first body has pending and then what the
/// second has, and has nothing read yet. Where either body declares no
/// length, the chain declares none. Where both do, the chain declares the
/// bytes that the first has left to read plus those that the second has,
/// whatever has been read of either before; unless that sum is more than a
/// 64-bit number, and then the chain declares no length. The chain keeps
/// the media type where both bodies have the same or both have none, and
/// has the byte-stream type where they differ.
pub proof fn law_chain_reads_both(first: BodyView, second: BodyView)
    requires
        first.wf(),
        second.wf(),
    ensures
        first.chain(second).pending() == first.pending() + second.pending(),
        first.chain(second).progress.bytes_read == 0,
        match (first.progress.length, second.progress.length) {
            (Some(l1), Some(l2)) => {
                let sum = (l1 - first.progress.bytes_read) + (l2 - second.progress.bytes_read);
                first.chain(second).progress.length == if sum <= u64::MAX {
                    Some(sum as u64)
                } else {
                    None
                }
            },
            _ => first.chain(second).progress.length is None,
        },
        first.mime == second.mime ==> first.chain(second).mime == first.mime,
        first.mime != second.mime ==> first.chain(second).mime == Some(BYTE_STREAM@),
{
    first.lemma_chain(second);
}

/// Chaining is associative: however three bodies are chained in their
/// order, the chain is the same body: it declares the same length, has the
/// same media type, and hands out the same bytes, what is left of the
/// first, then of the second, then of the third. And the two groupings can
/// be chained together or not at all: where the bytes of one are no more
/// than a 64-bit number can count, so are those of the other.
pub proof fn law_chain_associative(a: BodyView, b: BodyView, c: BodyView)
    requires
        a.wf(),
        b.wf(),
        c.wf(),
    ensures
        a.chain(b).chain(c) == a.chain(b.chain(c)),
        a.chain(b).chain(c).pending() == a.pending() + b.pending() + c.pending(),
        a.can_chain(b) && a.chain(b).can_chain(c) <==> b.can_chain(c) && a.can_chain(b.chain(c)),
        a.can_chain(b) && a.chain(b).can_chain(c) ==> a.chain(b).wf() && b.chain(c).wf()
            && a.chain(b).chain(c).wf(),
{
    a.lemma_chain(b);
    b.lemma_chain(c);
    let ab = a.chain(b);
    let bc = b.chain(c);
    assert(ab.pending() =~= a.pending() + b.pending());
    assert(bc.pending() =~= b.pending() + c.pending());
    assert(ab.progress.wf());
    assert(bc.progress.wf());
    assert(ab.chain(c).source =~= a.chain(bc).source);
    assert(ab.chain(c).progress == a.chain(bc).progress);
    assert(ab.chain(c).mime == a.chain(bc).mime);
    assert(ab.chain(c) =~= a.chain(bc));
    assert(ab.chain(c).pending() =~= a.pending() + b.pending() + c.pending());
    if a.can_chain(b) {
        ab.lemma_chain(c);
    }
    if b.can_chain(c) {
        a.lemma_chain(bc);
    }
}

} // verus!
