//! Peeking: looking at the bytes to come without consuming them.
//!
//! A peek for `amt` bytes repeats a fill for `amt` bytes until the fill
//! serves `amt` bytes, or serves as many bytes as the fill before it did. It
//! keeps nothing of its own but the length that the last fill served: every
//! byte that the source gave is in the reader's buffer, so a peek that is
//! given up half-way loses none, and the next one starts from there.

use crate::buf_reader::AsyncBufReader;
use crate::model::settles;
use vstd::prelude::*;

verus! {

/// A peek in progress.
pub struct Peek {
    amt: usize,
    last: Option<usize>,
}

/// A peek for `amt` bytes that has not looked at anything yet.
pub fn peek(amt: usize) -> (p: Peek)
    ensures
        p.amount() == amt,
        p.last() is None,
{
    Peek { amt, last: None }
}

impl Peek {
    /// The number of bytes that the peek is for.
    pub closed spec fn amount(&self) -> nat {
        self.amt as nat
    }

    /// The length that the last fill of this peek served, if there was one.
    pub closed spec fn last(&self) -> Option<nat> {
        match self.last {
            Some(n) => Some(n as nat),
            None => None,
        }
    }

    /// The number of bytes that the peek is for.
    pub fn amt(&self) -> (n: usize)
        ensures
            n == self.amount(),
    {
        self.amt
    }

    /// Takes note of the length that a fill for `amt` bytes served, and says
    /// whether the peek is complete with it: the fill served `amt` bytes, or
    /// as many as the fill before it.
    pub fn observe(&mut self, got: usize) -> (done: bool)
        ensures
            done == settles(old(self).last(), old(self).amount(), got as nat),
            final(self).amount() == old(self).amount(),
            final(self).last() == Some(got as nat),
    {
        let done = got >= self.amt || match self.last {
            Some(n) => n == got,
            None => false,
        };
        self.last = Some(got);
        done
    }

    /// Runs the peek as far as it goes without the source.
    ///
    /// `None` says that the peek is complete, and `reader.filled(amt)` is its
    /// result: `amt` bytes are held, or fewer and the source is at its end or
    /// the reader is in passthrough mode.
    /// `Some(n)` asks the caller for one read attempt of at most `n` bytes,
    /// to be handed to [`Self::deliver`]. The reader holds what it held; a
    /// peek that is given up here has lost nothing.
    pub fn poll<R>(&mut self, reader: &mut AsyncBufReader<R>) -> (ask: Option<usize>)
        requires
            old(reader).fillable(old(self).amount()),
        ensures
            final(self).amount() == old(self).amount(),
            final(reader).made_room(*old(reader), old(self).amount()),
            ask is Some <==> old(reader)@.wants(old(self).amount()),
            ask matches Some(n) ==> {
                &&& n > 0
                &&& n == final(reader).spec_capacity() - final(reader)@.data.len()
                &&& final(self).last() == old(self).last()
            },
            ask is None ==> final(self).last() == Some(
                old(reader)@.served(old(self).amount()).len(),
            ),
    {
        loop
            invariant
                self.amount() == old(self).amount(),
                reader.fillable(self.amount()),
                reader@ == old(reader)@,
                reader.same_setup(*old(reader)),
                reader.spec_capacity() == old(reader).spec_capacity(),
                self.last() == old(self).last() || (!reader@.wants(self.amount())
                    && self.last() == Some(reader@.served(self.amount()).len())),
            decreases
                    (if self.last() == Some(reader@.served(self.amount()).len()) {
                        0nat
                    } else {
                        1nat
                    }),
        {
            match reader.fill_start(self.amt) {
                Some(n) => {
                    return Some(n);
                },
                None => {
                    let got = reader.filled(self.amt).len();
                    if self.observe(got) {
                        return None;
                    }
                },
            }
        }
    }

    /// Takes what the read attempt gave, as a fill does, and says whether the
    /// peek is complete with it: the fill served `amt` bytes, or as many as
    /// the fill before it. Where it is not, [`Self::poll`] goes on. An error
    /// of the source is handed on as it came, and nothing has changed.
    pub fn deliver<R, E>(&mut self, reader: &mut AsyncBufReader<R>, outcome: Result<&[u8], E>) -> (r:
        Result<bool, E>)
        requires
            outcome matches Ok(b) ==> old(reader).takes(b@.len()),
        ensures
            final(self).amount() == old(self).amount(),
            final(reader).same_setup(*old(reader)),
            final(reader).spec_capacity() == old(reader).spec_capacity(),
            match outcome {
                Ok(b) => {
                    let got = old(reader)@.commit(b@).served(old(self).amount()).len();
                    &&& final(reader)@ == old(reader)@.commit(b@)
                    &&& final(self).last() == Some(got)
                    &&& r == Ok::<bool, E>(settles(old(self).last(), old(self).amount(), got))
                },
                Err(e) => {
                    &&& final(reader)@ == old(reader)@
                    &&& final(self).last() == old(self).last()
                    &&& r == Err::<bool, E>(e)
                },
            },
    {
        match reader.fill_finish(self.amt, outcome) {
            Ok(s) => {
                let got = s.len();
                Ok(self.observe(got))
            },
            Err(e) => Err(e),
        }
    }
}

} // verus!
