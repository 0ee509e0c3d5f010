//! What holds of the reader whatever the source delivers.

use crate::buf_reader::AsyncBufReader;
use crate::model::settles;
use crate::model::Buffered;
use crate::model::PeekRun;
use crate::model::ReadCall;
use vstd::prelude::*;

verus! {

/// One read keeps the order: what it hands out, followed by what is held
/// after it, is what was held before it, followed by what it took from the
/// source.
pub proof fn law_read_keeps_order(s: Buffered, max_len: nat, incoming: Seq<u8>)
    ensures
        s.read_output(max_len, incoming) + s.read(max_len, incoming).data == s.data + s.read_drawn(
            max_len,
            incoming,
        ),
{
    let out = s.read_output(max_len, incoming);
    let after = s.read(max_len, incoming).data;
    let drawn = s.read_drawn(max_len, incoming);
    assert(out + after =~= s.data + drawn);
}

/// Ordering: whatever reads are made, in whatever mode each, the bytes that
/// they hand out, followed by the bytes still held, are the bytes held at
/// the start followed by the bytes taken from the source. No byte is
/// skipped, handed out twice or out of its place.
pub proof fn law_reads_keep_order(s: Buffered, calls: Seq<ReadCall>)
    ensures
        s.reads_output(calls) + s.reads(calls).data == s.data + s.reads_drawn(calls),
    decreases calls.len(),
{
    if calls.len() == 0 {
        assert(s.reads_output(calls) + s.reads(calls).data =~= s.data + s.reads_drawn(calls));
    } else {
        let call = calls.last();
        let before = calls.drop_last();
        let mid = s.reads(before).in_mode(call.passthrough);
        law_reads_keep_order(s, before);
        law_read_keeps_order(mid, call.max_len, call.incoming);
        let out = mid.read_output(call.max_len, call.incoming);
        let drawn = mid.read_drawn(call.max_len, call.incoming);
        let after = mid.read(call.max_len, call.incoming).data;
        assert(s.reads_output(calls) + s.reads(calls).data =~= s.reads_output(before) + (out
            + after));
        assert(s.reads_output(before) + (mid.data + drawn) =~= (s.reads_output(before) + mid.data)
            + drawn);
        assert((s.data + s.reads_drawn(before)) + drawn =~= s.data + s.reads_drawn(calls));
    }
}

/// Chunked growth: where the first half of a fill for `amt` bytes asks for a
/// read attempt, the storage holds at least `amt` bytes, it is no smaller
/// than before, and where it has grown it has room for at least a chunk
/// behind the bytes held.
pub proof fn law_fill_has_room<R>(before: AsyncBufReader<R>, after: AsyncBufReader<R>, amt: nat)
    requires
        after.made_room(before, amt),
        before@.wants(amt),
    ensures
        after.spec_capacity() >= amt,
        after.spec_capacity() >= before.spec_capacity(),
        after.spec_capacity() != before.spec_capacity() ==> after.spec_capacity()
            - after@.data.len() >= after.spec_chunk_size(),
        after.spec_capacity() > after@.data.len(),
{
}

/// Consuming: after `k` bytes are consumed, `k` bytes fewer are held, and a
/// fill serves what stood behind them: what a fill for `k + amt` bytes
/// served before, without its first `k` bytes.
pub proof fn law_consume_drops_head(s: Buffered, k: nat, amt: nat)
    requires
        k <= s.data.len(),
    ensures
        s.consume(k).data.len() == s.data.len() - k,
        s.consume(k).served(amt) == s.served(k + amt).skip(k as int),
        s.served(k) + s.consume(k).data == s.data,
{
    assert(s.consume(k).served(amt) =~= s.served(k + amt).skip(k as int));
    assert(s.served(k) + s.consume(k).data =~= s.data);
}

/// A fill keeps what is held: the bytes held after it are those held before
/// it, followed by what it took from the source, and what it served before
/// is the start of what a fill for as many bytes or more serves after it.
pub proof fn law_fill_keeps_bytes(s: Buffered, amt: nat, incoming: Seq<u8>, more: nat)
    requires
        amt <= more,
    ensures
        s.fill(amt, incoming).data == s.data + (if s.wants(amt) {
            incoming
        } else {
            Seq::empty()
        }),
        s.served(amt).is_prefix_of(s.fill(amt, incoming).served(more)),
{
    assert(s.fill(amt, incoming).data =~= s.data + (if s.wants(amt) {
        incoming
    } else {
        Seq::empty()
    }));
}

/// The end of the source stays: once a read attempt has found the source at
/// its end, no fill and no read outside passthrough mode asks the source
/// again, whatever the amount. Each fill leaves the state as it is and
/// serves the bytes held, up to its amount; each such read hands out those
/// bytes and leaves the end marked. With nothing held, they give nothing.
pub proof fn law_end_stays(s: Buffered, amt: nat, incoming: Seq<u8>)
    requires
        s.exhausted,
    ensures
        !s.wants(amt),
        s.fill(amt, incoming) == s,
        !s.passthrough ==> {
            &&& !s.read_asks(amt)
            &&& s.read_output(amt, incoming) == s.served(amt)
            &&& s.read(amt, incoming) == s.consume(s.served(amt).len())
            &&& s.read(amt, incoming).exhausted
        },
        s.data.len() == 0 ==> s.served(amt).len() == 0,
        !s.passthrough && s.data.len() == 0 ==> s.read(amt, incoming) == s,
{
    if !s.passthrough && s.data.len() == 0 {
        assert(s.read(amt, incoming).data =~= s.data);
    }
}

/// An empty delivery marks the end of the source, and taking in, consuming
/// and reading never take the mark away.
pub proof fn law_end_is_marked(s: Buffered, amt: nat, incoming: Seq<u8>, k: nat)
    ensures
        s.commit(Seq::empty()).exhausted,
        s.commit(Seq::empty()).data == s.data,
        s.exhausted ==> s.commit(incoming).exhausted && s.consume(k).exhausted && s.read(
            amt,
            incoming,
        ).exhausted,
{
    assert(s.commit(Seq::empty()).data =~= s.data);
}

/// After the end of the source, reads outside passthrough mode take nothing
/// from the source, however many are made: together they hand out bytes that
/// were held, in their order, and the end stays marked.
pub proof fn law_reads_after_end(s: Buffered, calls: Seq<ReadCall>)
    requires
        s.exhausted,
        forall|i: int| 0 <= i < calls.len() ==> !(#[trigger] calls[i]).passthrough,
    ensures
        s.reads_drawn(calls).len() == 0,
        s.reads(calls).exhausted,
        s.reads_output(calls) + s.reads(calls).data == s.data,
    decreases calls.len(),
{
    if calls.len() > 0 {
        let before = calls.drop_last();
        assert forall|i: int| 0 <= i < before.len() implies !(#[trigger] before[i]).passthrough by {
            assert(before[i] == calls[i]);
        }
        law_reads_after_end(s, before);
    }
    law_reads_keep_order(s, calls);
    assert(s.data + s.reads_drawn(calls) =~= s.data);
}

/// Passthrough drains, then bypasses: a read in passthrough mode puts
/// nothing into the buffer. It hands out the bytes held, up to its limit,
/// and they leave the buffer; it reaches the source only where that hands
/// out all of them and room is left, and what the source gives follows
/// them. With nothing held, the read is the source's own: the state stays
/// as it is, and the bytes handed out are those that the source gave.
pub proof fn law_passthrough_drains(s: Buffered, max_len: nat, incoming: Seq<u8>)
    requires
        s.passthrough,
    ensures
        s.read(max_len, incoming).data == s.data.skip(s.served(max_len).len() as int),
        s.read(max_len, incoming).passthrough,
        s.served(max_len).is_prefix_of(s.read_output(max_len, incoming)),
        s.read_asks(max_len) ==> s.read(max_len, incoming).data.len() == 0 && s.read_output(
            max_len,
            incoming,
        ) == s.data + incoming,
        !s.read_asks(max_len) ==> s.read_output(max_len, incoming) == s.served(max_len),
        s.data.len() == 0 ==> s.read(max_len, incoming) == s && s.read_output(max_len, incoming)
            == incoming,
{
    if s.data.len() == 0 {
        assert(s.read(max_len, incoming).data =~= s.data);
        assert(s.read_output(max_len, incoming) =~= incoming);
    }
}

/// In passthrough mode nothing more is buffered: no fill asks the source,
/// whatever the amount, and a peek is complete at once with the bytes held,
/// up to its amount. Neither takes a byte from the source or changes the
/// state.
pub proof fn law_passthrough_fills_nothing(
    s: Buffered,
    amt: nat,
    incoming: Seq<u8>,
    last: Option<nat>,
    feed: Seq<Seq<u8>>,
)
    requires
        s.passthrough,
    ensures
        !s.wants(amt),
        s.fill(amt, incoming) == s,
        s.peek(amt, last, feed).resolved,
        s.peek(amt, last, feed).state == s,
        s.peek(amt, last, feed).drawn.len() == 0,
{
}

/// In passthrough mode the buffer only shrinks: after any reads in that
/// mode no more is held than before, and once nothing is held, nothing is
/// held after any of them.
pub proof fn law_passthrough_never_buffers(s: Buffered, calls: Seq<ReadCall>)
    requires
        forall|i: int| 0 <= i < calls.len() ==> (#[trigger] calls[i]).passthrough,
    ensures
        s.reads(calls).data.len() <= s.data.len(),
        s.reads(calls).exhausted == s.exhausted,
    decreases calls.len(),
{
    if calls.len() > 0 {
        let before = calls.drop_last();
        assert forall|i: int| 0 <= i < before.len() implies (#[trigger] before[i]).passthrough by {
            assert(before[i] == calls[i]);
        }
        law_passthrough_never_buffers(s, before);
    }
}

/// A peek consumes nothing: the bytes held when it stops, complete or not,
/// are those held at its start, followed by all that it took from the
/// source. The mode stays as it is.
pub proof fn law_peek_keeps_bytes(s: Buffered, amt: nat, last: Option<nat>, feed: Seq<Seq<u8>>)
    ensures
        s.peek(amt, last, feed).state.data == s.data + s.peek(amt, last, feed).drawn,
        s.peek(amt, last, feed).state.passthrough == s.passthrough,
    decreases feed.len(),
{
    let run = s.peek(amt, last, feed);
    if s.wants(amt) && feed.len() > 0 {
        let next = s.commit(feed.first());
        let got = next.served(amt).len();
        if !settles(last, amt, got) {
            law_peek_keeps_bytes(next, amt, Some(got), feed.drop_first());
        }
    }
    assert(run.state.data =~= s.data + run.drawn);
}

/// A complete peek leaves nothing to ask for: `amt` bytes are held, or the
/// source is at its end, or the reader is in passthrough mode.
pub proof fn law_peek_completes(s: Buffered, amt: nat, last: Option<nat>, feed: Seq<Seq<u8>>)
    requires
        s.peeked(amt, last),
    ensures
        s.peek(amt, last, feed).resolved ==> !s.peek(amt, last, feed).state.wants(amt),
    decreases feed.len(),
{
    if s.wants(amt) && feed.len() > 0 {
        let next = s.commit(feed.first());
        let got = next.served(amt).len();
        if !settles(last, amt, got) {
            law_peek_completes(next, amt, Some(got), feed.drop_first());
        }
    }
}

/// Peeking is not destructive: after a complete peek for `amt` bytes, every
/// further peek for `amt` bytes is complete at once, whatever the source
/// would deliver. It takes nothing from the source, leaves the state as it
/// is, and so has the same slice for its result.
pub proof fn law_peek_repeats(s: Buffered, amt: nat, feed: Seq<Seq<u8>>, again: Seq<Seq<u8>>)
    requires
        s.peek(amt, None, feed).resolved,
    ensures
        ({
            let first = s.peek(amt, None, feed);
            let second = first.state.peek(amt, None, again);
            &&& second.resolved
            &&& second.state == first.state
            &&& second.drawn.len() == 0
            &&& second.state.served(amt) == first.state.served(amt)
        }),
{
    law_peek_completes(s, amt, None, feed);
}

/// What the fill before served makes no difference to a peek, as long as it
/// is what a fill serves now.
proof fn lemma_peek_forgets(s: Buffered, amt: nat, last: Option<nat>, feed: Seq<Seq<u8>>)
    requires
        s.peeked(amt, last),
    ensures
        s.peek(amt, last, feed) == s.peek(amt, None, feed),
{
    if s.wants(amt) && feed.len() > 0 {
        let next = s.commit(feed.first());
        let got = next.served(amt).len();
        if settles(last, amt, got) && !settles(None, amt, got) {
            assert(feed.first().len() == 0);
            let rest = next.peek(amt, Some(got), feed.drop_first());
            assert(!next.wants(amt));
            assert(rest.state == next && rest.resolved);
            assert(s.peek(amt, None, feed).drawn =~= feed.first());
        }
    }
}

/// A peek over two feeds in a row comes to what a peek over the first,
/// followed by a new peek over the second, comes to.
proof fn lemma_peek_splits(
    s: Buffered,
    amt: nat,
    last: Option<nat>,
    head: Seq<Seq<u8>>,
    tail: Seq<Seq<u8>>,
)
    requires
        s.peeked(amt, last),
    ensures
        ({
            let a = s.peek(amt, last, head);
            let b = a.state.peek(amt, None, tail);
            let whole = s.peek(amt, last, head + tail);
            &&& whole.state == b.state
            &&& whole.resolved == b.resolved
            &&& whole.drawn == a.drawn + b.drawn
        }),
    decreases head.len(),
{
    let a = s.peek(amt, last, head);
    let b = a.state.peek(amt, None, tail);
    let whole = s.peek(amt, last, head + tail);
    if !s.wants(amt) {
        assert(whole.drawn =~= a.drawn + b.drawn);
    } else if head.len() == 0 {
        assert(head + tail =~= tail);
        lemma_peek_forgets(s, amt, last, tail);
        assert(whole.drawn =~= a.drawn + b.drawn);
    } else {
        let next = s.commit(head.first());
        let got = next.served(amt).len();
        assert((head + tail).first() == head.first());
        assert((head + tail).drop_first() =~= head.drop_first() + tail);
        if settles(last, amt, got) {
            assert(!next.wants(amt));
            assert(whole.drawn =~= a.drawn + b.drawn);
        } else {
            lemma_peek_splits(next, amt, Some(got), head.drop_first(), tail);
            let rest_a = next.peek(amt, Some(got), head.drop_first());
            let rest_b = rest_a.state.peek(amt, None, tail);
            assert(whole.drawn =~= a.drawn + b.drawn);
        }
    }
}

/// A peek for more bytes holds at least what a peek for fewer holds, from
/// the same state and over the same feed.
proof fn lemma_peek_for_more(
    s: Buffered,
    amt: nat,
    more: nat,
    last: Option<nat>,
    last_more: Option<nat>,
    feed: Seq<Seq<u8>>,
)
    requires
        amt <= more,
        s.peeked(amt, last),
        s.peeked(more, last_more),
    ensures
        s.peek(amt, last, feed).state.data.is_prefix_of(s.peek(more, last_more, feed).state.data),
    decreases feed.len(),
{
    let few = s.peek(amt, last, feed);
    let many = s.peek(more, last_more, feed);
    law_peek_keeps_bytes(s, more, last_more, feed);
    if !s.wants(amt) {
        assert(s.data.is_prefix_of(s.data + many.drawn));
    } else if feed.len() == 0 {
        assert(s.data.is_prefix_of(s.data));
    } else {
        let next = s.commit(feed.first());
        let got = next.served(amt).len();
        let got_more = next.served(more).len();
        let rest = next.peek(amt, Some(got), feed.drop_first());
        let rest_more = next.peek(more, Some(got_more), feed.drop_first());
        law_peek_keeps_bytes(next, more, Some(got_more), feed.drop_first());
        if settles(last, amt, got) {
            assert(few.state == next);
            if settles(last_more, more, got_more) {
                assert(next.data.is_prefix_of(next.data));
            } else {
                assert(many.state == rest_more.state);
                assert(next.data.is_prefix_of(next.data + rest_more.drawn));
            }
        } else if settles(last_more, more, got_more) {
            assert(feed.first().len() == 0);
            assert(!next.wants(amt));
            assert(rest.state == next);
            assert(next.data.is_prefix_of(next.data));
        } else {
            lemma_peek_for_more(next, amt, more, Some(got), Some(got_more), feed.drop_first());
        }
    }
}

/// Giving up a peek loses nothing. Let a peek for `amt` bytes stop where
/// the feed `given_up` ends, waiting for the source or complete. The bytes
/// held are then those held at its start, followed by all that it took from
/// the source. A new peek for `amt` bytes that goes on over the feed `later`
/// comes to the state that the first would have come to over both feeds,
/// complete where that would be, with the same bytes taken from the source
/// in all. And where the new peek is for `more` bytes, its result starts
/// with the result that the first would have had.
pub proof fn law_peek_resumes(
    s: Buffered,
    amt: nat,
    more: nat,
    given_up: Seq<Seq<u8>>,
    later: Seq<Seq<u8>>,
)
    requires
        amt <= more,
    ensures
        ({
            let first = s.peek(amt, None, given_up);
            let whole = s.peek(amt, None, given_up + later);
            let resumed = first.state.peek(amt, None, later);
            let larger = first.state.peek(more, None, later);
            &&& first.state.data == s.data + first.drawn
            &&& resumed.state == whole.state
            &&& resumed.resolved == whole.resolved
            &&& first.drawn + resumed.drawn == whole.drawn
            &&& whole.state.served(amt).is_prefix_of(larger.state.served(more))
        }),
{
    let first = s.peek(amt, None, given_up);
    law_peek_keeps_bytes(s, amt, None, given_up);
    lemma_peek_splits(s, amt, None, given_up, later);
    lemma_peek_for_more(first.state, amt, more, None, None, later);
}

} // verus!
