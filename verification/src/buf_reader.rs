//! The reader: a byte source together with the buffer in front of it.
//!
//! The reader never reads from its source itself. An operation that needs
//! bytes from the source comes in two halves: the first says how many bytes
//! one read attempt may bring, the second takes what the attempt gave. What
//! happens between the two is the caller's business, and giving up after the
//! first half loses nothing.

use crate::model::Buffered;
use crate::model::ReadStep;
use crate::storage::held;
use crate::storage::room;
use bytes::Buf;
use bytes::BytesMut;
use vstd::prelude::*;

verus! {

/// The chunk size of a reader made by [`AsyncBufReader::new`].
pub const DEFAULT_CHUNK_SIZE: usize = 8192;

/// A byte source with a growable buffer in front of it.
pub struct AsyncBufReader<R> {
    reader: R,
    passthrough: bool,
    exhausted: bool,
    buf: BytesMut,
    chunk_size: usize,
}

impl<R> View for AsyncBufReader<R> {
    type V = Buffered;

    closed spec fn view(&self) -> Buffered {
        Buffered { data: held(self.buf), passthrough: self.passthrough, exhausted: self.exhausted }
    }
}

impl<R> AsyncBufReader<R> {
    /// The source that the reader owns.
    pub closed spec fn source(&self) -> R {
        self.reader
    }

    /// The room of the storage: how many bytes it can hold before it grows.
    pub closed spec fn spec_capacity(&self) -> nat {
        room(self.buf)
    }

    /// The least number of bytes by which the storage grows.
    pub closed spec fn spec_chunk_size(&self) -> nat {
        self.chunk_size as nat
    }

    /// Whether the reader has the source and the chunk size of `before`.
    pub open spec fn same_setup(&self, before: Self) -> bool {
        self.source() == before.source() && self.spec_chunk_size() == before.spec_chunk_size()
    }

    /// Whether a fill for `amt` bytes enlarges the storage: it has to ask the
    /// source, and the storage cannot hold `amt` bytes.
    pub open spec fn grows_for(&self, amt: nat) -> bool {
        self@.wants(amt) && self.spec_capacity() < amt
    }

    /// Whether the storage can be enlarged for a fill of `amt` bytes: no
    /// storage is larger than `isize::MAX` bytes.
    pub open spec fn can_grow_for(&self, amt: nat) -> bool {
        amt <= isize::MAX && self@.data.len() + self.spec_chunk_size() <= isize::MAX
    }

    /// Whether a fill for `amt` bytes can start: where it enlarges the
    /// storage, the storage can be enlarged.
    pub open spec fn fillable(&self, amt: nat) -> bool {
        self.grows_for(amt) ==> self.can_grow_for(amt)
    }

    /// How the first half of a fill for `amt` bytes leaves the reader,
    /// compared with `before`. What it holds and how it is set up are the
    /// same. The storage grows only where the fill asks the source and `amt`
    /// bytes do not fit; it then holds `amt` bytes, and at least a chunk more
    /// than the bytes held.
    pub open spec fn made_room(&self, before: Self, amt: nat) -> bool {
        &&& self@ == before@
        &&& self.same_setup(before)
        &&& if before.grows_for(amt) {
            &&& self.spec_capacity() > before.spec_capacity()
            &&& self.spec_capacity() >= amt
            &&& self.spec_capacity() >= before@.data.len() + before.spec_chunk_size()
        } else {
            self.spec_capacity() == before.spec_capacity()
        }
    }

    /// Whether a read attempt that brought `n` bytes can be taken in: there
    /// was room to read into, and the bytes fit.
    pub open spec fn takes(&self, n: nat) -> bool {
        self@.data.len() < self.spec_capacity() && self@.data.len() + n <= self.spec_capacity()
    }

    /// A reader on `reader` that grows its buffer by at least
    /// `chunk_size` bytes at a time. It starts with room for one chunk.
    pub fn with_chunk_size(chunk_size: usize, reader: R) -> (r: Self)
        requires
            chunk_size <= isize::MAX,
        ensures
            r@ == (Buffered { data: Seq::<u8>::empty(), passthrough: false, exhausted: false }),
            r.source() == reader,
            r.spec_chunk_size() == chunk_size,
            r.spec_capacity() >= chunk_size,
    {
        AsyncBufReader {
            reader,
            buf: BytesMut::with_capacity(chunk_size),
            passthrough: false,
            exhausted: false,
            chunk_size,
        }
    }

    /// A reader on `reader` with the default chunk size.
    pub fn new(reader: R) -> (r: Self)
        ensures
            r@ == (Buffered { data: Seq::<u8>::empty(), passthrough: false, exhausted: false }),
            r.source() == reader,
            r.spec_chunk_size() == DEFAULT_CHUNK_SIZE,
            r.spec_capacity() >= DEFAULT_CHUNK_SIZE,
    {
        Self::with_chunk_size(DEFAULT_CHUNK_SIZE, reader)
    }

    /// Switches passthrough mode on or off. The bytes held stay: in
    /// passthrough mode the next reads hand them out before the source is
    /// read directly.
    pub fn passthrough(&mut self, passthrough: bool)
        ensures
            final(self)@ == (Buffered { passthrough, ..old(self)@ }),
            final(self).same_setup(*old(self)),
            final(self).spec_capacity() == old(self).spec_capacity(),
    {
        self.passthrough = passthrough;
    }

    /// The room of the storage, which is never less than the number of bytes
    /// held.
    pub fn capacity(&self) -> (n: usize)
        ensures
            n == self.spec_capacity(),
            n >= self@.data.len(),
    {
        self.buf.capacity()
    }

    /// The number of bytes held.
    pub fn len(&self) -> (n: usize)
        ensures
            n == self@.data.len(),
    {
        self.buf.len()
    }

    /// Whether no byte is held.
    pub fn is_empty(&self) -> (b: bool)
        ensures
            b == (self@.data.len() == 0),
    {
        self.buf.is_empty()
    }

    /// The source.
    pub fn get_ref(&self) -> (r: &R)
        ensures
            *r == self.source(),
    {
        &self.reader
    }

    /// The source, for the caller to drive: whatever the caller does to it,
    /// the buffer stays as it is.
    pub fn get_pin_mut(&mut self) -> (r: &mut R)
        ensures
            *r == old(self).source(),
            final(self).source() == *final(r),
            final(self)@ == old(self)@,
            final(self).spec_capacity() == old(self).spec_capacity(),
            final(self).spec_chunk_size() == old(self).spec_chunk_size(),
    {
        &mut self.reader
    }

    /// The bytes held.
    pub fn buffer(&self) -> (s: &[u8])
        ensures
            s@ == self@.data,
    {
        self.buf.as_ref()
    }

    /// Whether a fill for `amt` bytes can start as the reader stands.
    pub fn can_fill(&self, amt: usize) -> (b: bool)
        ensures
            b == self.fillable(amt as nat),
    {
        let len = self.buf.len();
        if self.exhausted || self.passthrough || len >= amt || self.buf.capacity() >= amt {
            return true;
        }
        let limit: usize = isize::MAX as usize;
        amt <= limit && len <= limit && self.chunk_size <= limit - len
    }

    /// Whether a read attempt that brought `n` bytes can be taken in.
    pub fn can_take(&self, n: usize) -> (b: bool)
        ensures
            b == self.takes(n as nat),
    {
        let len = self.buf.len();
        let cap = self.buf.capacity();
        len < cap && n <= cap - len
    }

    /// The slice that a fill for `amt` bytes hands out as the reader stands:
    /// the first `amt` bytes held, or all of them where fewer are held.
    pub fn filled(&self, amt: usize) -> (s: &[u8])
        ensures
            s@ == self@.served(amt as nat),
    {
        let all = self.buf.as_ref();
        if amt <= all.len() {
            vstd::slice::slice_subrange(all, 0, amt)
        } else {
            all
        }
    }

    /// The first half of a fill for `amt` bytes: decides whether the source
    /// has to be asked, and makes room for what it may deliver.
    ///
    /// `None` says that the fill is complete without a read, and
    /// [`Self::filled`] gives the result: `amt` bytes are held, or the source
    /// is at its end, or the reader is in passthrough mode. `Some(n)` asks
    /// the caller for one read attempt of at most `n` bytes, to be handed to
    /// [`Self::fill_finish`]. The bytes held stay as they are, so a fill that
    /// is given up here loses nothing.
    ///
    /// In passthrough mode nothing more is buffered: a fill serves what is
    /// held and leaves the source alone, so that after a read has drained
    /// the buffer a fill serves nothing, whatever the source still has.
    /// Filling reads from the source again once the mode is switched off.
    pub fn fill_start(&mut self, amt: usize) -> (ask: Option<usize>)
        requires
            old(self).fillable(amt as nat),
        ensures
            final(self).made_room(*old(self), amt as nat),
            ask is Some <==> old(self)@.wants(amt as nat),
            ask matches Some(n) ==> n > 0 && n == final(self).spec_capacity() - final(
                self)@.data.len(),
    {
        let len = self.buf.len();
        if self.exhausted || self.passthrough || len >= amt {
            return None;
        }
        if self.buf.capacity() < amt {
            let missing = amt - len;
            let additional = if self.chunk_size > missing {
                self.chunk_size
            } else {
                missing
            };
            self.buf.reserve(additional);
        }
        Some(self.buf.capacity() - len)
    }

    /// The second half of a fill for `amt` bytes: takes what the read attempt
    /// gave. Bytes delivered stand behind the bytes held, and an empty
    /// delivery marks the end of the source; the result is then the slice
    /// that the fill hands out, which is shorter than `amt` where the one
    /// attempt did not bring enough. An error of the source is handed on as
    /// it came, and the reader stays as it was.
    pub fn fill_finish<'a, E>(&'a mut self, amt: usize, outcome: Result<&[u8], E>) -> (r: Result<
        &'a [u8],
        E,
    >)
        requires
            outcome matches Ok(b) ==> old(self).takes(b@.len()),
        ensures
            final(self).same_setup(*old(self)),
            final(self).spec_capacity() == old(self).spec_capacity(),
            match outcome {
                Ok(b) => {
                    &&& final(self)@ == old(self)@.commit(b@)
                    &&& r matches Ok(s)
                    &&& s@ == final(self)@.served(amt as nat)
                },
                Err(e) => final(self)@ == old(self)@ && r == Err::<&[u8], E>(e),
            },
    {
        match outcome {
            Ok(b) => {
                self.take_in(b);
                Ok(self.filled(amt))
            },
            Err(e) => Err(e),
        }
    }

    /// The first half of a read of at most `max_len` bytes into `dst`.
    ///
    /// In passthrough mode the bytes held, up to `max_len`, move to the end
    /// of `dst`; a buffer that this drains is dropped with its storage. Where
    /// nothing was held, or `dst` has room left, the result is `Forward` with
    /// the room left: the caller reads that much from the source directly,
    /// and the reader has no further part in it.
    ///
    /// Otherwise the read is a fill for `max_len` bytes. Where that needs the
    /// source, the result is `Fill` with the room for one read attempt, whose
    /// outcome goes to [`Self::read_finish`], and nothing else has changed.
    /// Where it does not, the bytes that the fill serves move to the end of
    /// `dst` and the read is `Done`.
    pub fn read_start(&mut self, dst: &mut Vec<u8>, max_len: usize) -> (step: ReadStep)
        requires
            !old(self)@.passthrough ==> old(self).fillable(max_len as nat),
        ensures
            final(self).same_setup(*old(self)),
            old(self)@.passthrough ==> {
                &&& final(dst)@ == old(dst)@ + old(self)@.served(max_len as nat)
                &&& final(self)@ == old(self)@.consume(old(self)@.served(max_len as nat).len())
                &&& if old(self)@.forwards(max_len as nat) {
                    &&& step matches ReadStep::Forward(n)
                    &&& n == max_len - old(self)@.served(max_len as nat).len()
                } else {
                    step == ReadStep::Done
                }
                &&& final(self).spec_capacity() == if old(self)@.data.len() > 0 && final(
                    self)@.data.len() == 0 {
                    0
                } else {
                    old(self).spec_capacity() - old(self)@.served(max_len as nat).len()
                }
            },
            !old(self)@.passthrough && old(self)@.wants(max_len as nat) ==> {
                &&& final(dst)@ == old(dst)@
                &&& final(self).made_room(*old(self), max_len as nat)
                &&& step matches ReadStep::Fill(n)
                &&& n > 0
                &&& n == final(self).spec_capacity() - final(self)@.data.len()
            },
            !old(self)@.passthrough && !old(self)@.wants(max_len as nat) ==> {
                &&& final(dst)@ == old(dst)@ + old(self)@.served(max_len as nat)
                &&& final(self)@ == old(self)@.consume(old(self)@.served(max_len as nat).len())
                &&& step == ReadStep::Done
                &&& final(self).spec_capacity() == old(self).spec_capacity() - old(self)@.served(
                    max_len as nat).len()
            },
    {
        if self.passthrough {
            if !self.buf.is_empty() {
                let amt = self.hand_out(dst, max_len);
                if self.buf.is_empty() {
                    self.discard_buffer();
                    assert(self@.data =~= old(self)@.consume(amt as nat).data);
                }
                if max_len - amt == 0 {
                    return ReadStep::Done;
                }
                return ReadStep::Forward(max_len - amt);
            }
            assert(dst@ =~= old(dst)@ + old(self)@.served(max_len as nat));
            assert(self@.data =~= old(self)@.consume(0).data);
            return ReadStep::Forward(max_len);
        }
        match self.fill_start(max_len) {
            Some(n) => ReadStep::Fill(n),
            None => {
                self.hand_out(dst, max_len);
                ReadStep::Done
            },
        }
    }

    /// The second half of a read of at most `max_len` bytes into `dst`, after
    /// [`Self::read_start`] has asked for a read attempt: takes what the
    /// attempt gave, as a fill does, then moves the bytes that the fill
    /// serves to the end of `dst`. An error of the source is handed on as it
    /// came; the reader and `dst` stay as they were.
    pub fn read_finish<E>(
        &mut self,
        dst: &mut Vec<u8>,
        max_len: usize,
        outcome: Result<&[u8], E>,
    ) -> (r: Result<(), E>)
        requires
            outcome matches Ok(b) ==> old(self).takes(b@.len()),
        ensures
            final(self).same_setup(*old(self)),
            match outcome {
                Ok(b) => {
                    let filled = old(self)@.commit(b@);
                    &&& r is Ok
                    &&& final(dst)@ == old(dst)@ + filled.served(max_len as nat)
                    &&& final(self)@ == filled.consume(filled.served(max_len as nat).len())
                    &&& final(self).spec_capacity() == old(self).spec_capacity() - filled.served(
                        max_len as nat,
                    ).len()
                },
                Err(e) => {
                    &&& r == Err::<(), E>(e)
                    &&& final(dst)@ == old(dst)@
                    &&& final(self)@ == old(self)@
                    &&& final(self).spec_capacity() == old(self).spec_capacity()
                },
            },
    {
        match outcome {
            Ok(b) => {
                self.take_in(b);
                self.hand_out(dst, max_len);
                Ok(())
            },
            Err(e) => Err(e),
        }
    }

    /// Consumes the first `amt` bytes held: they are in no later result, and
    /// the source is not touched.
    pub fn consume(&mut self, amt: usize)
        requires
            amt <= old(self)@.data.len(),
        ensures
            final(self)@ == old(self)@.consume(amt as nat),
            final(self).same_setup(*old(self)),
            final(self).spec_capacity() == old(self).spec_capacity() - amt,
    {
        self.buf.advance(amt);
    }

    /// Puts the bytes that a read attempt gave behind the bytes held; none
    /// marks the end of the source.
    fn take_in(&mut self, incoming: &[u8])
        requires
            old(self).takes(incoming@.len()),
        ensures
            final(self)@ == old(self)@.commit(incoming@),
            final(self).same_setup(*old(self)),
            final(self).spec_capacity() == old(self).spec_capacity(),
    {
        self.buf.extend_from_slice(incoming);
        if incoming.len() == 0 {
            self.exhausted = true;
        }
    }

    /// Drops the buffer: no byte is held, and the storage is given back.
    fn discard_buffer(&mut self)
        ensures
            final(self)@ == (Buffered { data: Seq::<u8>::empty(), ..old(self)@ }),
            final(self).same_setup(*old(self)),
            final(self).spec_capacity() == 0,
    {
        self.buf = BytesMut::new();
    }

    /// Moves the first `max_len` bytes held, or all of them where fewer are
    /// held, to the end of `dst`.
    fn hand_out(&mut self, dst: &mut Vec<u8>, max_len: usize) -> (amt: usize)
        ensures
            amt == old(self)@.served(max_len as nat).len(),
            final(dst)@ == old(dst)@ + old(self)@.served(max_len as nat),
            final(self)@ == old(self)@.consume(amt as nat),
            final(self).same_setup(*old(self)),
            final(self).spec_capacity() == old(self).spec_capacity() - amt,
    {
        let head = self.filled(max_len);
        let amt = head.len();
        append(dst, head);
        self.consume(amt);
        amt
    }
}

/// Appends the bytes of `src` to `dst`.
fn append(dst: &mut Vec<u8>, src: &[u8])
    ensures
        final(dst)@ == old(dst)@ + src@,
{
    dst.extend_from_slice(src);
    assert(dst@ =~= old(dst)@ + src@);
}

} // verus!
