//! The byte storage behind the buffer: `bytes::BytesMut`, with the contracts
//! that the rest of the library relies on.

use bytes::Buf;
use bytes::BytesMut;
use vstd::prelude::*;

verus! {

#[verifier::external_type_specification]
#[verifier::external_body]
pub struct ExBytesMut(bytes::BytesMut);

/// The bytes that a buffer holds, the oldest first.
pub uninterp spec fn held(buf: BytesMut) -> Seq<u8>;

/// The number of bytes that a buffer can hold before its storage has to be
/// moved or enlarged: what `BytesMut::capacity` reports.
pub uninterp spec fn room(buf: BytesMut) -> nat;

/// `BytesMut::with_capacity`: the new buffer is empty and can hold at least
/// `capacity` bytes. A request above `isize::MAX` bytes is refused by the
/// underlying vector, so it is left out.
pub assume_specification[ BytesMut::with_capacity ](capacity: usize) -> (buf: BytesMut)
    requires
        capacity <= isize::MAX,
    ensures
        held(buf) == Seq::<u8>::empty(),
        room(buf) >= capacity,
;

/// `BytesMut::new`: the new buffer is empty and owns no storage.
pub assume_specification[ BytesMut::new ]() -> (buf: BytesMut)
    ensures
        held(buf) == Seq::<u8>::empty(),
        room(buf) == 0,
;

/// `BytesMut::len`: the number of bytes held.
pub assume_specification[ BytesMut::len ](buf: &BytesMut) -> (n: usize)
    ensures
        n == held(*buf).len(),
;

/// `BytesMut::is_empty`: whether no byte is held.
pub assume_specification[ BytesMut::is_empty ](buf: &BytesMut) -> (b: bool)
    ensures
        b == (held(*buf).len() == 0),
;

/// `BytesMut::capacity`: the room of the buffer, which is never less than the
/// number of bytes held.
pub assume_specification[ BytesMut::capacity ](buf: &BytesMut) -> (n: usize)
    ensures
        n == room(*buf),
        n >= held(*buf).len(),
;

/// `BytesMut::reserve`: the bytes held stay as they are, and afterwards at
/// least `additional` more fit. Where they fitted already, nothing changes.
pub assume_specification[ BytesMut::reserve ](buf: &mut BytesMut, additional: usize)
    requires
        held(*old(buf)).len() + additional <= isize::MAX,
    ensures
        held(*final(buf)) == held(*old(buf)),
        room(*final(buf)) >= held(*old(buf)).len() + additional,
        held(*old(buf)).len() + additional <= room(*old(buf)) ==> room(*final(buf)) == room(
            *old(buf),
        ),
;

/// `BytesMut::extend_from_slice`, for bytes that fit into the room left: they
/// are appended behind the bytes held, and the room stays as it is.
pub assume_specification[ BytesMut::extend_from_slice ](buf: &mut BytesMut, extend: &[u8])
    requires
        held(*old(buf)).len() + extend@.len() <= room(*old(buf)),
    ensures
        held(*final(buf)) == held(*old(buf)) + extend@,
        room(*final(buf)) == room(*old(buf)),
;

/// `Buf::advance` on a `BytesMut`: the first `cnt` bytes leave the buffer, and
/// the room shrinks by as many. Advancing past the end panics, so `cnt` is at
/// most the number of bytes held.
pub assume_specification[ <BytesMut as Buf>::advance ](buf: &mut BytesMut, cnt: usize)
    requires
        cnt <= held(*old(buf)).len(),
    ensures
        held(*final(buf)) == held(*old(buf)).skip(cnt as int),
        room(*final(buf)) == room(*old(buf)) - cnt,
;

/// `AsRef<[u8]>::as_ref` on a `BytesMut`: the bytes held, as a slice.
pub assume_specification<'a>[ <BytesMut as AsRef<[u8]>>::as_ref ](buf: &'a BytesMut) -> (s: &'a [u8])
    ensures
        s@ == held(*buf),
;

} // verus!
