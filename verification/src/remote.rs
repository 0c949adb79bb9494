//! The two heap buffer layouts and the trusted shims around `Arc` and the
//! atomic counters.
//!
//! A small buffer carries its payload together with a trailer: a one-byte
//! atomic reference count and a one-byte length. A big buffer carries a
//! header instead: a two-byte atomic reference count and a six-byte
//! little-endian length. The counters are read and written through the
//! atomic operations that vstd specifies; the handful of `Arc` operations
//! that vstd does not specify are wrapped below with their contracts stated
//! over the shared contents.

use core::sync::atomic::AtomicU16;
use core::sync::atomic::AtomicU8;
use core::sync::atomic::Ordering;
use core::sync::atomic::fence;
use std::sync::Arc;
use vstd::prelude::*;

verus! {

/// Trailer of a small heap buffer: a one-byte reference count followed by
/// the payload length.
#[derive(Debug)]
pub struct SmallRemoteTrailer {
    pub(crate) rc: AtomicU8,
    pub(crate) len: u8,
}

impl SmallRemoteTrailer {
    /// The payload length recorded in the trailer, as a mathematical value.
    pub closed spec fn spec_len(&self) -> nat {
        self.len as nat
    }

    /// The payload length recorded in the trailer.
    pub fn len(&self) -> (r: usize)
        ensures
            r == self.spec_len(),
    {
        self.len as usize
    }
}

/// Header of a big heap buffer: a two-byte reference count followed by the
/// payload length as six little-endian bytes.
#[derive(Debug)]
pub struct BigRemoteHeader {
    pub(crate) rc: AtomicU16,
    pub(crate) len: [u8; 6],
}

impl BigRemoteHeader {
    /// The payload length recorded in the header, as the value of its six
    /// little-endian bytes.
    pub closed spec fn spec_len(&self) -> nat {
        crate::len48::le_value(self.len@)
    }

    /// The payload length recorded in the header.
    ///
    /// The recorded length must fit in `usize`; it always does for a header
    /// that describes a live payload, whose length is a `usize`.
    pub fn len(&self) -> (r: usize)
        requires
            self.spec_len() <= usize::MAX,
        ensures
            r == self.spec_len(),
    {
        crate::len48::decode_len(&self.len) as usize
    }
}

/// A small heap buffer: the payload, then the trailer.
#[derive(Debug)]
pub struct SmallRemoteBuf {
    pub(crate) data: Vec<u8>,
    pub(crate) trailer: SmallRemoteTrailer,
}

/// A big heap buffer: the header, then the payload.
#[derive(Debug)]
pub struct BigRemoteBuf {
    pub(crate) header: BigRemoteHeader,
    pub(crate) data: Vec<u8>,
}

/// Relies on `Arc::clone`: the returned handle refers to the same
/// allocation as `a`.
#[verifier::external_body]
pub(crate) fn arc_clone<T>(a: &Arc<T>) -> (r: Arc<T>)
    ensures
        r == *a,
{
    Arc::clone(a)
}

/// Relies on `Arc::try_unwrap`: returns the contents when `a` is the only
/// handle to its allocation, and gives `a` back unchanged otherwise.
#[verifier::external_body]
pub(crate) fn arc_try_unwrap<T>(a: Arc<T>) -> (r: Result<T, Arc<T>>)
    ensures
        match r {
            Ok(t) => t == *a,
            Err(e) => e == a,
        },
{
    Arc::try_unwrap(a)
}

/// Relies on `Arc::new` and `Arc::get_mut`: installs `fresh` behind a new,
/// unshared handle in `slot` and hands out the mutable borrow of it that
/// `Arc::get_mut` gives for a handle that was just created and so cannot be
/// shared.
#[verifier::external_body]
pub(crate) fn arc_install_mut<T>(slot: &mut Arc<T>, fresh: T) -> (r: &mut T)
    ensures
        *r == fresh,
        **final(slot) == *final(r),
{
    *slot = Arc::new(fresh);
    Arc::get_mut(slot).expect("a freshly created handle is unshared")
}

/// Relies on `AtomicU8::fetch_sub` with release ordering: it subtracts one,
/// returns the previous value, and never unwinds.
#[verifier::external_body]
pub(crate) fn small_rc_fetch_sub_release(rc: &AtomicU8) -> u8
    opens_invariants none
    no_unwind
{
    rc.fetch_sub(1, Ordering::Release)
}

/// Relies on `AtomicU16::fetch_sub` with release ordering: it subtracts one,
/// returns the previous value, and never unwinds.
#[verifier::external_body]
pub(crate) fn big_rc_fetch_sub_release(rc: &AtomicU16) -> u16
    opens_invariants none
    no_unwind
{
    rc.fetch_sub(1, Ordering::Release)
}

/// Relies on `core::sync::atomic::fence` with acquire ordering; it never
/// unwinds.
#[verifier::external_body]
pub(crate) fn acquire_fence()
    opens_invariants none
    no_unwind
{
    fence(Ordering::Acquire)
}

} // verus!
