//! The mathematical model of the buffer: what it holds and which mode it is
//! in, and how each operation changes that.

use vstd::prelude::*;

verus! {

/// What a reader stands for: the bytes read from the source and not yet
/// consumed, and the two flags that steer it.
pub struct Buffered {
    /// The bytes held, the oldest first.
    pub data: Seq<u8>,
    /// Whether ordinary reads bypass the buffer once it is drained.
    pub passthrough: bool,
    /// Whether a read attempt has found the source at its end.
    pub exhausted: bool,
}

impl Buffered {
    /// Whether a fill for `amt` bytes asks the source: less than `amt` bytes
    /// are held, the source is not known to be at its end, and the reader is
    /// not in passthrough mode, in which nothing more is buffered.
    pub open spec fn wants(self, amt: nat) -> bool {
        !self.exhausted && !self.passthrough && self.data.len() < amt
    }

    /// The slice that a fill for `amt` bytes hands out: the first `amt` bytes
    /// held, or all of them where fewer are held.
    pub open spec fn served(self, amt: nat) -> Seq<u8> {
        if amt <= self.data.len() {
            self.data.take(amt as int)
        } else {
            self.data
        }
    }

    /// The state after a read attempt has delivered `incoming`: the bytes
    /// stand behind those held, and an empty delivery marks the end of the
    /// source.
    pub open spec fn commit(self, incoming: Seq<u8>) -> Buffered {
        Buffered {
            data: self.data + incoming,
            passthrough: self.passthrough,
            exhausted: self.exhausted || incoming.len() == 0,
        }
    }

    /// The state after a whole fill for `amt` bytes, where the source
    /// delivers `incoming` if it is asked.
    pub open spec fn fill(self, amt: nat, incoming: Seq<u8>) -> Buffered {
        if self.wants(amt) {
            self.commit(incoming)
        } else {
            self
        }
    }

    /// Whether a read of at most `max_len` bytes in passthrough mode reaches
    /// the source: nothing is held, or less than is asked for.
    pub open spec fn forwards(self, max_len: nat) -> bool {
        self.data.len() == 0 || self.data.len() < max_len
    }

    /// Whether a read of at most `max_len` bytes asks the source, in the mode
    /// that the reader is in.
    pub open spec fn read_asks(self, max_len: nat) -> bool {
        if self.passthrough {
            self.forwards(max_len)
        } else {
            self.wants(max_len)
        }
    }

    /// The bytes that a read of at most `max_len` bytes hands to its caller,
    /// where the source delivers `incoming` if it is asked. In passthrough
    /// mode these are the bytes held, up to `max_len`, and behind them what
    /// the source gave directly; else what a fill for `max_len` serves.
    pub open spec fn read_output(self, max_len: nat, incoming: Seq<u8>) -> Seq<u8> {
        if self.passthrough {
            if self.forwards(max_len) {
                self.data + incoming
            } else {
                self.served(max_len)
            }
        } else {
            self.fill(max_len, incoming).served(max_len)
        }
    }

    /// The state after a read of at most `max_len` bytes, where the source
    /// delivers `incoming` if it is asked: what was handed out from the
    /// buffer is consumed.
    pub open spec fn read(self, max_len: nat, incoming: Seq<u8>) -> Buffered {
        if self.passthrough {
            self.consume(self.served(max_len).len())
        } else {
            let filled = self.fill(max_len, incoming);
            filled.consume(filled.served(max_len).len())
        }
    }

    /// The bytes that a read of at most `max_len` bytes takes from the
    /// source, where the source delivers `incoming` if it is asked.
    pub open spec fn read_drawn(self, max_len: nat, incoming: Seq<u8>) -> Seq<u8> {
        if self.read_asks(max_len) {
            incoming
        } else {
            Seq::empty()
        }
    }

    /// The state with passthrough mode switched as `passthrough` says.
    pub open spec fn in_mode(self, passthrough: bool) -> Buffered {
        Buffered { passthrough, ..self }
    }

    /// The state after the reads `calls`, one after the other.
    pub open spec fn reads(self, calls: Seq<ReadCall>) -> Buffered
        decreases calls.len(),
    {
        if calls.len() == 0 {
            self
        } else {
            let call = calls.last();
            self.reads(calls.drop_last()).in_mode(call.passthrough).read(
                call.max_len,
                call.incoming,
            )
        }
    }

    /// All the bytes that the reads `calls` hand to their callers, in the
    /// order of the calls.
    pub open spec fn reads_output(self, calls: Seq<ReadCall>) -> Seq<u8>
        decreases calls.len(),
    {
        if calls.len() == 0 {
            Seq::empty()
        } else {
            let call = calls.last();
            self.reads_output(calls.drop_last()) + self.reads(calls.drop_last()).in_mode(
                call.passthrough,
            ).read_output(call.max_len, call.incoming)
        }
    }

    /// All the bytes that the reads `calls` take from the source, in the
    /// order of the calls.
    pub open spec fn reads_drawn(self, calls: Seq<ReadCall>) -> Seq<u8>
        decreases calls.len(),
    {
        if calls.len() == 0 {
            Seq::empty()
        } else {
            let call = calls.last();
            self.reads_drawn(calls.drop_last()) + self.reads(calls.drop_last()).in_mode(
                call.passthrough,
            ).read_drawn(call.max_len, call.incoming)
        }
    }

    /// Whether `last` can be what the fill before served in a peek for `amt`
    /// bytes that has reached this state: there was none, or it served what
    /// a fill serves now.
    pub open spec fn peeked(self, amt: nat, last: Option<nat>) -> bool {
        last is None || last == Some(self.served(amt).len())
    }

    /// A peek for `amt` bytes from this state, where `last` is what the fill
    /// before served and `feed` holds what the source delivers, attempt by
    /// attempt. The peek goes on until it is complete or the source is asked
    /// and `feed` has no more to give: there it waits, or is given up.
    pub open spec fn peek(self, amt: nat, last: Option<nat>, feed: Seq<Seq<u8>>) -> PeekRun
        decreases feed.len(),
    {
        if !self.wants(amt) {
            PeekRun { state: self, resolved: true, drawn: Seq::empty() }
        } else if feed.len() == 0 {
            PeekRun { state: self, resolved: false, drawn: Seq::empty() }
        } else {
            let next = self.commit(feed.first());
            let got = next.served(amt).len();
            if settles(last, amt, got) {
                PeekRun { state: next, resolved: true, drawn: feed.first() }
            } else {
                let rest = next.peek(amt, Some(got), feed.drop_first());
                PeekRun { state: rest.state, resolved: rest.resolved, drawn: feed.first() + rest.drawn }
            }
        }
    }

    /// The state after the first `k` bytes held have been consumed.
    pub open spec fn consume(self, k: nat) -> Buffered
        recommends
            k <= self.data.len(),
    {
        Buffered {
            data: self.data.skip(k as int),
            passthrough: self.passthrough,
            exhausted: self.exhausted,
        }
    }
}

/// One read, as the caller makes it and the source answers it.
pub struct ReadCall {
    /// The mode that the reader is in for this read.
    pub passthrough: bool,
    /// The most bytes that the caller takes.
    pub max_len: nat,
    /// What the source delivers if the read asks it.
    pub incoming: Seq<u8>,
}

/// How far a peek has come.
pub struct PeekRun {
    /// The state that it has reached.
    pub state: Buffered,
    /// Whether it is complete; its result is then what a fill serves in
    /// `state`.
    pub resolved: bool,
    /// The bytes that it has taken from the source.
    pub drawn: Seq<u8>,
}

/// Whether a peek for `amt` bytes is complete with a fill that served `got`
/// bytes, where `last` is what the fill before it served: `amt` bytes are
/// there, or the fill brought nothing new.
pub open spec fn settles(last: Option<nat>, amt: nat, got: nat) -> bool {
    got >= amt || last == Some(got)
}

/// What the caller of a read has to do next.
#[derive(Clone, Copy, Debug, PartialEq, Eq, Structural)]
pub enum ReadStep {
    /// Nothing: the read is complete.
    Done,
    /// One read attempt of at most this many bytes, whose outcome goes back
    /// to the reader.
    Fill(usize),
    /// One read of at most this many bytes straight from the source to the
    /// destination, past the buffer.
    Forward(usize),
}

} // verus!
