//! The tagged word and the byte-array value built on it.
//!
//! An [`InlineArray`] holds an eight-byte word. The low two bits of its last
//! byte are a tag that names the representation: payloads of up to seven
//! bytes live in the word itself, with the length packed into the rest of
//! the last byte; longer payloads live in a shared heap buffer beside the
//! word, and the word keeps only the tag.

use core::hash::Hasher;
use core::sync::atomic::AtomicU16;
use core::sync::atomic::AtomicU8;
use core::sync::atomic::Ordering as AtomicOrdering;
use std::sync::Arc;
use vstd::prelude::*;
use vstd::std_specs::cmp::PartialEqSpec;
use vstd::std_specs::hash::DefaultHasherAdditionalSpecFns;

use crate::len48;
use crate::order;
use crate::remote::BigRemoteBuf;
use crate::remote::BigRemoteHeader;
use crate::remote::SmallRemoteBuf;
use crate::remote::SmallRemoteTrailer;
use crate::remote::acquire_fence;
use crate::remote::arc_clone;
use crate::remote::arc_install_mut;
use crate::remote::arc_try_unwrap;
use crate::remote::big_rc_fetch_sub_release;
use crate::remote::small_rc_fetch_sub_release;

verus! {

/// Size of the tagged word.
pub const SZ: usize = 8;

/// Longest payload the word itself can hold.
pub const INLINE_CUTOFF: usize = 7;

/// Longest payload a small heap buffer can hold.
pub const SMALL_REMOTE_CUTOFF: usize = 255;

/// Tag of a payload held in the word itself.
pub const INLINE_TRAILER_TAG: u8 = 0b00;

/// Tag of a payload held in a small heap buffer.
pub const SMALL_REMOTE_TRAILER_TAG: u8 = 0b01;

/// Tag of a payload held in a big heap buffer.
pub const BIG_REMOTE_TRAILER_TAG: u8 = 0b10;

/// Mask of the tag bits in the last byte of the word.
pub const TRAILER_TAG_MASK: u8 = 0b0000_0011;

/// How often a clone retries a contended counter bump before it falls back
/// to copying the payload.
const CAS_RETRY_LIMIT: usize = 64;

/// The three representations.
#[derive(Debug, Clone, Copy, PartialEq, Eq, Structural)]
pub enum Kind {
    Inline,
    SmallRemote,
    BigRemote,
}

/// Why a construction was refused.
///
/// Exhaustion of the allocator is not reported here: allocation goes through
/// the standard containers, which follow the global allocator's abort
/// convention when memory runs out.
#[derive(Debug, Clone, Copy, PartialEq, Eq, Structural)]
pub enum Error {
    /// The payload is too long for the six-byte length field.
    LengthOutOfRange,
}

/// The heap buffer a tagged word points at, if any.
#[derive(Debug)]
enum RemoteBuf {
    Absent,
    Small(Arc<SmallRemoteBuf>),
    Big(Arc<BigRemoteBuf>),
}

/// An immutable, shareable array of bytes whose short payloads are stored
/// inline in an eight-byte tagged word.
#[derive(Debug)]
pub struct InlineArray {
    data: [u8; 8],
    remote: RemoteBuf,
}

impl View for InlineArray {
    type V = Seq<u8>;

    /// The bytes this value represents.
    closed spec fn view(&self) -> Seq<u8> {
        match self.remote {
            RemoteBuf::Absent => self.data@.subrange(0, self.spec_inline_len()),
            RemoteBuf::Small(b) => (*b).data@,
            RemoteBuf::Big(b) => (*b).data@,
        }
    }
}

impl InlineArray {
    /// The length packed into the last byte of the word, clamped to the
    /// inline capacity so that the view is defined for every word.
    spec fn spec_inline_len(&self) -> int {
        if (self.data@[7] >> 2) as int <= 7 {
            (self.data@[7] >> 2) as int
        } else {
            7
        }
    }

    /// The representation agrees with the buffer beside the word: the tag
    /// names the variant that is present, the recorded length is the
    /// payload length, and each variant holds a payload in its range.
    /// Constructors establish this and every operation preserves it.
    pub closed spec fn wf(&self) -> bool {
        match self.remote {
            RemoteBuf::Absent => {
                &&& self.data@[7] & TRAILER_TAG_MASK == INLINE_TRAILER_TAG
                &&& (self.data@[7] >> 2) as int <= 7
                &&& forall|i: int|
                    (self.data@[7] >> 2) as int <= i && i < 7 ==> #[trigger] self.data@[i] == 0
            },
            RemoteBuf::Small(b) => {
                &&& self.data@[7] == SMALL_REMOTE_TRAILER_TAG
                &&& forall|i: int| 0 <= i < 7 ==> #[trigger] self.data@[i] == 0
                &&& (*b).trailer.len as int == (*b).data@.len()
                &&& 8 <= (*b).data@.len() <= 255
            },
            RemoteBuf::Big(b) => {
                &&& self.data@[7] == BIG_REMOTE_TRAILER_TAG
                &&& forall|i: int| 0 <= i < 7 ==> #[trigger] self.data@[i] == 0
                &&& len48::le_value((*b).header.len@) == (*b).data@.len()
                &&& 256 <= (*b).data@.len()
                &&& (*b).data@.len() < len48::BIG_REMOTE_LEN_LIMIT as nat
            },
        }
    }

    /// The representation a well-formed value of this view length uses.
    pub open spec fn spec_kind(&self) -> Kind {
        if self@.len() <= 7 {
            Kind::Inline
        } else if self@.len() <= 255 {
            Kind::SmallRemote
        } else {
            Kind::BigRemote
        }
    }

    /// Build an inline value: payload in the word, length and tag packed
    /// into the last byte.
    fn new_inline(slice: &[u8]) -> (r: InlineArray)
        requires
            slice@.len() <= 7,
        ensures
            r.wf(),
            r@ == slice@,
    {
        let n: usize = slice.len();
        let mut data: [u8; 8] = [0; 8];
        let mut i: usize = 0;
        while i < n
            invariant
                i <= n,
                n == slice@.len(),
                n <= 7,
                forall|j: int| 0 <= j < i ==> data@[j] == slice@[j],
                forall|j: int| i <= j < 8 ==> data@[j] == 0,
            decreases n - i,
        {
            data[i] = slice[i];
            i += 1;
        }
        let nb: u8 = n as u8;
        data[7] = (nb << 2) | INLINE_TRAILER_TAG;
        proof {
            assert(((nb << 2) | 0) >> 2 == nb && ((nb << 2) | 0) & 0b0000_0011 == 0)
                by (bit_vector)
                requires
                    nb <= 7,
            ;
        }
        let r = InlineArray { data, remote: RemoteBuf::Absent };
        proof {
            assert(r@ =~= slice@);
        }
        r
    }

    /// Build a small-buffer value: payload and trailer on the heap, tag in
    /// the word.
    fn new_small(slice: &[u8]) -> (r: InlineArray)
        requires
            8 <= slice@.len() <= 255,
        ensures
            r.wf(),
            r@ == slice@,
    {
        let mut data: [u8; 8] = [0; 8];
        data[7] = SMALL_REMOTE_TRAILER_TAG;
        let trailer = SmallRemoteTrailer { rc: AtomicU8::new(1), len: slice.len() as u8 };
        let buf = SmallRemoteBuf { data: vstd::slice::slice_to_vec(slice), trailer };
        InlineArray { data, remote: RemoteBuf::Small(Arc::new(buf)) }
    }

    /// Build a big-buffer value: header and payload on the heap, tag in the
    /// word.
    fn new_big(slice: &[u8]) -> (r: InlineArray)
        requires
            256 <= slice@.len(),
            slice@.len() < len48::BIG_REMOTE_LEN_LIMIT as nat,
        ensures
            r.wf(),
            r@ == slice@,
    {
        let mut data: [u8; 8] = [0; 8];
        data[7] = BIG_REMOTE_TRAILER_TAG;
        let header = BigRemoteHeader {
            rc: AtomicU16::new(1),
            len: len48::encode_len(slice.len()),
        };
        let buf = BigRemoteBuf { header, data: vstd::slice::slice_to_vec(slice) };
        InlineArray { data, remote: RemoteBuf::Big(Arc::new(buf)) }
    }

    /// The single constructor behind every conversion: pick the
    /// representation by the payload length, or refuse a payload too long
    /// for the six-byte length field.
    pub fn try_new(slice: &[u8]) -> (r: Result<InlineArray, Error>)
        ensures
            match r {
                Ok(v) => v.wf() && v@ == slice@ && slice@.len() < len48::BIG_REMOTE_LEN_LIMIT
                    as nat,
                Err(e) => e == Error::LengthOutOfRange && slice@.len()
                    >= len48::BIG_REMOTE_LEN_LIMIT as nat,
            },
    {
        let n: usize = slice.len();
        if n <= INLINE_CUTOFF {
            Ok(Self::new_inline(slice))
        } else if n <= SMALL_REMOTE_CUTOFF {
            Ok(Self::new_small(slice))
        } else if (n as u64) < len48::BIG_REMOTE_LEN_LIMIT {
            Ok(Self::new_big(slice))
        } else {
            Err(Error::LengthOutOfRange)
        }
    }

    /// As [`InlineArray::try_new`], for payloads known to fit.
    pub fn new(slice: &[u8]) -> (r: InlineArray)
        requires
            slice@.len() < len48::BIG_REMOTE_LEN_LIMIT as nat,
        ensures
            r.wf(),
            r@ == slice@,
    {
        match Self::try_new(slice) {
            Ok(v) => v,
            Err(_) => {
                proof {
                    assert(false);
                }
                vstd::pervasive::unreached()
            },
        }
    }

    /// The byte view as a slice.
    pub fn as_ref(&self) -> (r: &[u8])
        ensures
            r@ == self@,
    {
        match &self.remote {
            RemoteBuf::Absent => {
                let t: usize = (self.data[7] >> 2) as usize;
                // the last byte of a constructed value never encodes more
                // than the cutoff; the clamp keeps this total for any word
                let n: usize = if t <= INLINE_CUTOFF {
                    t
                } else {
                    INLINE_CUTOFF
                };
                vstd::slice::slice_subrange(self.data.as_slice(), 0, n)
            },
            RemoteBuf::Small(b) => b.data.as_slice(),
            RemoteBuf::Big(b) => b.data.as_slice(),
        }
    }

    /// The number of bytes represented.
    pub fn len(&self) -> (r: usize)
        ensures
            r == self@.len(),
    {
        self.as_ref().len()
    }

    /// Whether no bytes are represented.
    pub fn is_empty(&self) -> (r: bool)
        ensures
            r == (self@.len() == 0),
    {
        self.len() == 0
    }

    /// Which representation this value uses, decoded from the tag bits.
    pub fn kind(&self) -> (k: Kind)
        requires
            self.wf(),
        ensures
            k == self.spec_kind(),
    {
        let t: u8 = self.data[7] & TRAILER_TAG_MASK;
        proof {
            assert(1u8 & 0b0000_0011 == 1 && 2u8 & 0b0000_0011 == 2) by (bit_vector);
        }
        if t == INLINE_TRAILER_TAG {
            Kind::Inline
        } else if t == SMALL_REMOTE_TRAILER_TAG {
            Kind::SmallRemote
        } else {
            Kind::BigRemote
        }
    }

    /// The length packed into the last byte of the word: the payload length
    /// of an inline value, zero otherwise.
    pub fn inline_len(&self) -> (r: usize)
        requires
            self.wf(),
        ensures
            r == if self@.len() <= 7 {
                self@.len()
            } else {
                0
            },
    {
        let tr = self.inline_trailer();
        proof {
            assert(1u8 >> 2 == 0 && 2u8 >> 2 == 0) by (bit_vector);
            if self@.len() <= 7 {
                let lb = self@.len() as u8;
                assert(((lb << 2) | 0) >> 2 == lb) by (bit_vector)
                    requires
                        lb <= 7,
                ;
            }
        }
        (tr >> 2) as usize
    }

    /// The last byte of the word: packed length and tag for an inline
    /// value, the bare tag otherwise.
    pub fn inline_trailer(&self) -> (r: u8)
        requires
            self.wf(),
        ensures
            r == if self@.len() <= 7 {
                ((self@.len() as u8) << 2) | INLINE_TRAILER_TAG
            } else if self@.len() <= 255 {
                SMALL_REMOTE_TRAILER_TAG
            } else {
                BIG_REMOTE_TRAILER_TAG
            },
    {
        let r = self.data[7];
        proof {
            let d = self.data@[7];
            assert(d & 0b0000_0011 == 0 ==> d == ((d >> 2) << 2) | 0) by (bit_vector);
        }
        r
    }

    /// Lexicographic byte comparison of the views; a total order.
    pub fn cmp(&self, other: &InlineArray) -> (r: core::cmp::Ordering)
        ensures
            r == order::lex_cmp(self@, other@),
    {
        order::cmp_slices(self.as_ref(), other.as_ref())
    }

    /// A private copy of the payload, behind a fresh counter where one is
    /// needed.
    fn private_copy(&self) -> (r: InlineArray)
        requires
            self.wf(),
        ensures
            r.wf(),
            r@ == self@,
    {
        match &self.remote {
            RemoteBuf::Absent => InlineArray { data: self.data, remote: RemoteBuf::Absent },
            RemoteBuf::Small(b) => Self::new_small(b.data.as_slice()),
            RemoteBuf::Big(b) => Self::new_big(b.data.as_slice()),
        }
    }

    /// A mutable view of the bytes. A buffer whose counter shows other
    /// owners is first replaced by a private copy, copy-on-write style;
    /// dropping the replaced value releases its share.
    ///
    /// The well-formedness clause is conditional on the view keeping its
    /// length only because nothing here states that writes through a
    /// `&mut [u8]` cannot change its length; none can.
    pub fn make_mut(&mut self) -> (r: &mut [u8])
        requires
            old(self).wf(),
        ensures
            r@ == old(self)@,
            final(self)@ == final(r)@,
            final(r)@.len() == old(self)@.len() ==> final(self).wf(),
    {
        let shared = match &self.remote {
            RemoteBuf::Absent => false,
            RemoteBuf::Small(b) => b.trailer.rc.load(AtomicOrdering::Acquire) != 1,
            RemoteBuf::Big(b) => b.header.rc.load(AtomicOrdering::Acquire) != 1,
        };
        if shared {
            let copy = self.private_copy();
            *self = copy;
        }
        match &mut self.remote {
            RemoteBuf::Absent => {
                let t: usize = (self.data[7] >> 2) as usize;
                let p = inline_payload_mut(&mut self.data, t);
                proof {
                    assert((final(p)@ + old(self).data@.subrange(t as int, 8)).subrange(
                        0,
                        t as int,
                    ) =~= final(p)@);
                }
                p
            },
            RemoteBuf::Small(b) => {
                let m = small_unique_mut(b);
                m.data.as_mut_slice()
            },
            RemoteBuf::Big(b) => {
                let m = big_unique_mut(b);
                m.data.as_mut_slice()
            },
        }
    }
}

/// Relies on slice indexing with a range: the first `n` bytes of the word
/// as a mutable slice. Writes through it land in the word; the bytes after
/// the prefix keep their values, and a slice borrow cannot change length.
#[verifier::external_body]
fn inline_payload_mut(data: &mut [u8; 8], n: usize) -> (p: &mut [u8])
    requires
        n <= 7,
    ensures
        p@ == old(data)@.subrange(0, n as int),
        final(p)@.len() == n,
        final(data)@ == final(p)@ + old(data)@.subrange(n as int, 8),
{
    &mut data[..n]
}

/// Regain exclusive use of a small buffer: take the contents of the only
/// handle, or copy them out of a shared one, releasing its share; then hand
/// out the freshly installed buffer.
fn small_unique_mut(b: &mut Arc<SmallRemoteBuf>) -> (m: &mut SmallRemoteBuf)
    requires
        (**old(b)).trailer.len as int == (**old(b)).data@.len(),
        (**old(b)).data@.len() <= 255,
    ensures
        (*m).data@ == (**old(b)).data@,
        (*m).trailer.len as int == (*m).data@.len(),
        **final(b) == *final(m),
{
    let mut taken: Arc<SmallRemoteBuf> = Arc::new(
        SmallRemoteBuf {
            data: Vec::new(),
            trailer: SmallRemoteTrailer { rc: AtomicU8::new(1), len: 0 },
        },
    );
    core::mem::swap(b, &mut taken);
    let buf: SmallRemoteBuf = match arc_try_unwrap(taken) {
        Ok(owned) => owned,
        Err(still_shared) => {
            let n = still_shared.data.len();
            let copy = SmallRemoteBuf {
                data: vstd::slice::slice_to_vec(still_shared.data.as_slice()),
                trailer: SmallRemoteTrailer { rc: AtomicU8::new(1), len: n as u8 },
            };
            // this handle is discarded here: release its share as a drop
            // of the whole value would
            let prev = small_rc_fetch_sub_release(&still_shared.trailer.rc);
            if prev == 1 {
                acquire_fence();
            }
            copy
        },
    };
    arc_install_mut(b, buf)
}

/// Regain exclusive use of a big buffer, as [`small_unique_mut`] does for a
/// small one.
fn big_unique_mut(b: &mut Arc<BigRemoteBuf>) -> (m: &mut BigRemoteBuf)
    requires
        len48::le_value((**old(b)).header.len@) == (**old(b)).data@.len(),
        (**old(b)).data@.len() < len48::BIG_REMOTE_LEN_LIMIT as nat,
    ensures
        (*m).data@ == (**old(b)).data@,
        len48::le_value((*m).header.len@) == (*m).data@.len(),
        **final(b) == *final(m),
{
    let mut taken: Arc<BigRemoteBuf> = Arc::new(
        BigRemoteBuf {
            header: BigRemoteHeader { rc: AtomicU16::new(1), len: len48::encode_len(0) },
            data: Vec::new(),
        },
    );
    core::mem::swap(b, &mut taken);
    let buf: BigRemoteBuf = match arc_try_unwrap(taken) {
        Ok(owned) => owned,
        Err(still_shared) => {
            let n = still_shared.data.len();
            let copy = BigRemoteBuf {
                header: BigRemoteHeader { rc: AtomicU16::new(1), len: len48::encode_len(n) },
                data: vstd::slice::slice_to_vec(still_shared.data.as_slice()),
            };
            // this handle is discarded here: release its share as a drop
            // of the whole value would
            let prev = big_rc_fetch_sub_release(&still_shared.header.rc);
            if prev == 1 {
                acquire_fence();
            }
            copy
        },
    };
    arc_install_mut(b, buf)
}

/// Bump a small buffer's counter, unless it is saturated or stays
/// contended; the caller copies the payload instead when this fails.
fn small_rc_try_increment(rc: &AtomicU8) -> bool {
    let mut tries: usize = 0;
    while tries < CAS_RETRY_LIMIT
        decreases CAS_RETRY_LIMIT - tries,
    {
        let current = rc.load(AtomicOrdering::Relaxed);
        if current == u8::MAX {
            return false;
        }
        let res = rc.compare_exchange_weak(
            current,
            current + 1,
            AtomicOrdering::Relaxed,
            AtomicOrdering::Relaxed,
        );
        if res.is_ok() {
            return true;
        }
        tries += 1;
    }
    false
}

/// Bump a big buffer's counter, as [`small_rc_try_increment`] does for a
/// small one.
fn big_rc_try_increment(rc: &AtomicU16) -> bool {
    let mut tries: usize = 0;
    while tries < CAS_RETRY_LIMIT
        decreases CAS_RETRY_LIMIT - tries,
    {
        let current = rc.load(AtomicOrdering::Relaxed);
        if current == u16::MAX {
            return false;
        }
        let res = rc.compare_exchange_weak(
            current,
            current + 1,
            AtomicOrdering::Relaxed,
            AtomicOrdering::Relaxed,
        );
        if res.is_ok() {
            return true;
        }
        tries += 1;
    }
    false
}

impl Clone for InlineArray {
    /// Shares the heap buffer by bumping its counter; when the counter is
    /// saturated, copies the payload into a fresh value instead, leaving
    /// the original's counter at its maximum.
    fn clone(&self) -> (r: InlineArray)
        ensures
            r@ == self@,
            self.wf() ==> r.wf(),
    {
        match &self.remote {
            RemoteBuf::Absent => InlineArray { data: self.data, remote: RemoteBuf::Absent },
            RemoteBuf::Small(b) => {
                if small_rc_try_increment(&b.trailer.rc) {
                    InlineArray { data: self.data, remote: RemoteBuf::Small(arc_clone(b)) }
                } else {
                    // saturated: start a fresh buffer with its own counter
                    match Self::try_new(b.data.as_slice()) {
                        Ok(v) => v,
                        // only a payload too long for any buffer is refused,
                        // and no buffer holds one; share it if it had one
                        Err(_) => InlineArray {
                            data: self.data,
                            remote: RemoteBuf::Small(arc_clone(b)),
                        },
                    }
                }
            },
            RemoteBuf::Big(b) => {
                if big_rc_try_increment(&b.header.rc) {
                    InlineArray { data: self.data, remote: RemoteBuf::Big(arc_clone(b)) }
                } else {
                    // saturated: start a fresh buffer with its own counter
                    match Self::try_new(b.data.as_slice()) {
                        Ok(v) => v,
                        // only a payload too long for any buffer is refused,
                        // and no buffer holds one; share it if it had one
                        Err(_) => InlineArray {
                            data: self.data,
                            remote: RemoteBuf::Big(arc_clone(b)),
                        },
                    }
                }
            },
        }
    }
}

impl core::ops::Deref for InlineArray {
    type Target = [u8];

    /// The byte view as a slice.
    fn deref(&self) -> (r: &[u8])
        ensures
            r@ == self@,
    {
        self.as_ref()
    }
}

impl Default for InlineArray {
    /// The empty inline value.
    fn default() -> (r: InlineArray)
        ensures
            r.wf(),
            r@ == Seq::<u8>::empty(),
    {
        let none: [u8; 0] = [0; 0];
        let r = InlineArray::new(none.as_slice());
        proof {
            assert(none@ =~= Seq::<u8>::empty());
        }
        r
    }
}

impl PartialEq for InlineArray {
    /// Byte equality of the views.
    fn eq(&self, other: &InlineArray) -> (r: bool)
        ensures
            r == (self@ == other@),
    {
        order::eq_slices(self.as_ref(), other.as_ref())
    }
}

impl vstd::std_specs::cmp::PartialEqSpecImpl for InlineArray {
    open spec fn obeys_eq_spec() -> bool {
        true
    }

    open spec fn eq_spec(&self, other: &InlineArray) -> bool {
        self@ == other@
    }
}

impl Eq for InlineArray {}

impl PartialEq<&InlineArray> for InlineArray {
    /// Byte equality of the views, against a borrowed value.
    fn eq(&self, other: &&InlineArray) -> (r: bool)
        ensures
            r == (self@ == (*other)@),
    {
        order::eq_slices(self.as_ref(), (*other).as_ref())
    }
}

impl vstd::std_specs::cmp::PartialEqSpecImpl<&InlineArray> for InlineArray {
    open spec fn obeys_eq_spec() -> bool {
        true
    }

    open spec fn eq_spec(&self, other: &&InlineArray) -> bool {
        self@ == (*other)@
    }
}

impl PartialEq<Vec<u8>> for InlineArray {
    /// Byte equality of the view against a byte vector.
    fn eq(&self, other: &Vec<u8>) -> (r: bool)
        ensures
            r == (self@ == other@),
    {
        order::eq_slices(self.as_ref(), other.as_slice())
    }
}

impl vstd::std_specs::cmp::PartialEqSpecImpl<Vec<u8>> for InlineArray {
    open spec fn obeys_eq_spec() -> bool {
        true
    }

    open spec fn eq_spec(&self, other: &Vec<u8>) -> bool {
        self@ == other@
    }
}

impl PartialEq<[u8]> for InlineArray {
    /// Byte equality of the view against a byte slice.
    fn eq(&self, other: &[u8]) -> (r: bool)
        ensures
            r == (self@ == other@),
    {
        order::eq_slices(self.as_ref(), other)
    }
}

impl vstd::std_specs::cmp::PartialEqSpecImpl<[u8]> for InlineArray {
    open spec fn obeys_eq_spec() -> bool {
        true
    }

    open spec fn eq_spec(&self, other: &[u8]) -> bool {
        self@ == other@
    }
}

impl PartialOrd for InlineArray {
    /// Lexicographic byte order of the views; always defined.
    fn partial_cmp(&self, other: &InlineArray) -> (r: Option<core::cmp::Ordering>)
        ensures
            r == Some(order::lex_cmp(self@, other@)),
    {
        Some(self.cmp(other))
    }
}

impl vstd::std_specs::cmp::PartialOrdSpecImpl for InlineArray {
    open spec fn obeys_partial_cmp_spec() -> bool {
        true
    }

    open spec fn partial_cmp_spec(&self, other: &InlineArray) -> Option<core::cmp::Ordering> {
        Some(order::lex_cmp(self@, other@))
    }
}

impl From<&[u8]> for InlineArray {
    /// Build from a byte slice; a payload too long for the length field
    /// yields the empty value.
    fn from(slice: &[u8]) -> (r: InlineArray)
        ensures
            r.wf(),
            r@ == if slice@.len() < len48::BIG_REMOTE_LEN_LIMIT as nat {
                slice@
            } else {
                Seq::<u8>::empty()
            },
    {
        match InlineArray::try_new(slice) {
            Ok(v) => v,
            Err(_) => InlineArray::default(),
        }
    }
}

impl vstd::std_specs::convert::FromSpecImpl<&[u8]> for InlineArray {
    open spec fn obeys_from_spec() -> bool {
        false
    }

    open spec fn from_spec(v: &[u8]) -> InlineArray {
        vstd::pervasive::arbitrary()
    }
}

impl From<Vec<u8>> for InlineArray {
    /// Build from an owned byte vector, as from its slice.
    fn from(v: Vec<u8>) -> (r: InlineArray)
        ensures
            r.wf(),
            r@ == if v@.len() < len48::BIG_REMOTE_LEN_LIMIT as nat {
                v@
            } else {
                Seq::<u8>::empty()
            },
    {
        match InlineArray::try_new(v.as_slice()) {
            Ok(r) => r,
            Err(_) => InlineArray::default(),
        }
    }
}

impl vstd::std_specs::convert::FromSpecImpl<Vec<u8>> for InlineArray {
    open spec fn obeys_from_spec() -> bool {
        false
    }

    open spec fn from_spec(v: Vec<u8>) -> InlineArray {
        vstd::pervasive::arbitrary()
    }
}

impl From<Box<[u8]>> for InlineArray {
    /// Build from an owned boxed slice, as from its contents.
    fn from(v: Box<[u8]>) -> (r: InlineArray)
        ensures
            r.wf(),
            r@ == if v@.len() < len48::BIG_REMOTE_LEN_LIMIT as nat {
                v@
            } else {
                Seq::<u8>::empty()
            },
    {
        let owned: Vec<u8> = v.into_vec();
        InlineArray::from(owned)
    }
}

impl vstd::std_specs::convert::FromSpecImpl<Box<[u8]>> for InlineArray {
    open spec fn obeys_from_spec() -> bool {
        false
    }

    open spec fn from_spec(v: Box<[u8]>) -> InlineArray {
        vstd::pervasive::arbitrary()
    }
}

impl From<&str> for InlineArray {
    /// Build from the UTF-8 bytes of a string slice.
    fn from(s: &str) -> (r: InlineArray)
        ensures
            r.wf(),
            r@ == if vstd::utf8::encode_utf8(s@).len() < len48::BIG_REMOTE_LEN_LIMIT as nat {
                vstd::utf8::encode_utf8(s@)
            } else {
                Seq::<u8>::empty()
            },
    {
        match InlineArray::try_new(s.as_bytes()) {
            Ok(r) => r,
            Err(_) => InlineArray::default(),
        }
    }
}

impl vstd::std_specs::convert::FromSpecImpl<&str> for InlineArray {
    open spec fn obeys_from_spec() -> bool {
        false
    }

    open spec fn from_spec(s: &str) -> InlineArray {
        vstd::pervasive::arbitrary()
    }
}

impl From<String> for InlineArray {
    /// Build from the UTF-8 bytes of an owned string.
    fn from(s: String) -> (r: InlineArray)
        ensures
            r.wf(),
            r@ == if vstd::utf8::encode_utf8(s@).len() < len48::BIG_REMOTE_LEN_LIMIT as nat {
                vstd::utf8::encode_utf8(s@)
            } else {
                Seq::<u8>::empty()
            },
    {
        InlineArray::from(s.as_str())
    }
}

impl vstd::std_specs::convert::FromSpecImpl<String> for InlineArray {
    open spec fn obeys_from_spec() -> bool {
        false
    }

    open spec fn from_spec(s: String) -> InlineArray {
        vstd::pervasive::arbitrary()
    }
}

impl From<&String> for InlineArray {
    /// Build from the UTF-8 bytes of a borrowed string.
    fn from(s: &String) -> (r: InlineArray)
        ensures
            r.wf(),
            r@ == if vstd::utf8::encode_utf8(s@).len() < len48::BIG_REMOTE_LEN_LIMIT as nat {
                vstd::utf8::encode_utf8(s@)
            } else {
                Seq::<u8>::empty()
            },
    {
        InlineArray::from(s.as_str())
    }
}

impl vstd::std_specs::convert::FromSpecImpl<&String> for InlineArray {
    open spec fn obeys_from_spec() -> bool {
        false
    }

    open spec fn from_spec(s: &String) -> InlineArray {
        vstd::pervasive::arbitrary()
    }
}

impl From<&InlineArray> for InlineArray {
    /// Build from another value by cloning it.
    fn from(v: &InlineArray) -> (r: InlineArray)
        ensures
            r@ == v@,
            v.wf() ==> r.wf(),
    {
        v.clone()
    }
}

impl vstd::std_specs::convert::FromSpecImpl<&InlineArray> for InlineArray {
    open spec fn obeys_from_spec() -> bool {
        false
    }

    open spec fn from_spec(v: &InlineArray) -> InlineArray {
        vstd::pervasive::arbitrary()
    }
}

impl<const N: usize> From<&[u8; N]> for InlineArray {
    /// Build from a fixed-size byte array reference, as from its slice.
    fn from(v: &[u8; N]) -> (r: InlineArray)
        ensures
            r.wf(),
            r@ == if (N as nat) < len48::BIG_REMOTE_LEN_LIMIT as nat {
                v@
            } else {
                Seq::<u8>::empty()
            },
    {
        match InlineArray::try_new(v.as_slice()) {
            Ok(r) => r,
            Err(_) => InlineArray::default(),
        }
    }
}

impl<const N: usize> vstd::std_specs::convert::FromSpecImpl<&[u8; N]> for InlineArray {
    open spec fn obeys_from_spec() -> bool {
        false
    }

    open spec fn from_spec(v: &[u8; N]) -> InlineArray {
        vstd::pervasive::arbitrary()
    }
}

/// What the default hasher returns after one write of `bytes`.
pub open spec fn bytes_hash64(bytes: Seq<u8>) -> u64 {
    std::collections::hash_map::DefaultHasher::spec_finish(
        Seq::<Seq<u8>>::empty().push(bytes),
    )
}

/// The digest of a raw byte slice under the default hasher: one write of
/// the bytes, then the finish.
pub fn hash_bytes(bytes: &[u8]) -> (r: u64)
    ensures
        r == bytes_hash64(bytes@),
{
    let mut state = std::collections::hash_map::DefaultHasher::new();
    state.write(bytes);
    state.finish()
}

impl InlineArray {
    /// The digest of the byte view under the default hasher: the same
    /// number that [`hash_bytes`] gives for the raw bytes, so a value and
    /// its bytes act as the same key.
    pub fn hash64(&self) -> (r: u64)
        ensures
            r == bytes_hash64(self@),
    {
        hash_bytes(self.as_ref())
    }
}

/// Sanity checks of the representation constants, in the spirit of
/// compile-time assertions: the tags are distinct and fit in the tag mask,
/// the small cutoff is the largest one-byte length, and the length-field
/// bound is 256 to the power of its byte count.
pub fn _static_tests() {
    proof {
        assert(INLINE_TRAILER_TAG & TRAILER_TAG_MASK == INLINE_TRAILER_TAG) by (bit_vector);
        assert(SMALL_REMOTE_TRAILER_TAG & TRAILER_TAG_MASK == SMALL_REMOTE_TRAILER_TAG)
            by (bit_vector);
        assert(BIG_REMOTE_TRAILER_TAG & TRAILER_TAG_MASK == BIG_REMOTE_TRAILER_TAG)
            by (bit_vector);
        assert(INLINE_TRAILER_TAG != SMALL_REMOTE_TRAILER_TAG);
        assert(SMALL_REMOTE_TRAILER_TAG != BIG_REMOTE_TRAILER_TAG);
        assert(INLINE_TRAILER_TAG != BIG_REMOTE_TRAILER_TAG);
        assert(SMALL_REMOTE_CUTOFF == u8::MAX as usize);
        assert(INLINE_CUTOFF + 1 == SZ);
        assert(len48::pow256(len48::BIG_REMOTE_LEN_BYTES as nat) == len48::BIG_REMOTE_LEN_LIMIT
            as nat) by {
            reveal_with_fuel(len48::pow256, 7);
        }
    }
}

/// Equality of two values is equality of their byte views: what the `==`
/// operator means in contracts is exactly view equality.
pub proof fn lemma_eq_is_view_eq(v: &InlineArray, w: &InlineArray)
    ensures
        v.eq_spec(w) == (v@ == w@),
{
}

/// A clone is equal to the original under the defined equality: a value
/// with the original's view compares equal to it.
pub proof fn lemma_clone_eq(v: &InlineArray, c: &InlineArray)
    requires
        c@ == v@,
    ensures
        c.eq_spec(v),
        v.eq_spec(c),
{
}

impl core::hash::Hash for InlineArray {
    /// Relies on the slice hash of the byte view: a value hashes exactly as
    /// its raw bytes do, so both act as interchangeable keys.
    #[verifier::external_body]
    fn hash<H: Hasher>(&self, state: &mut H) {
        core::hash::Hash::hash(self.as_ref(), state)
    }
}

impl Drop for InlineArray {
    /// Releases this value's share of the heap buffer. The buffer itself is
    /// freed together with its last handle.
    fn drop(&mut self)
        opens_invariants none
        no_unwind
    {
        match &self.remote {
            RemoteBuf::Absent => {},
            RemoteBuf::Small(b) => {
                let prev = small_rc_fetch_sub_release(&b.trailer.rc);
                if prev == 1 {
                    acquire_fence();
                }
            },
            RemoteBuf::Big(b) => {
                let prev = big_rc_fetch_sub_release(&b.header.rc);
                if prev == 1 {
                    acquire_fence();
                }
            },
        }
    }
}

} // verus!
