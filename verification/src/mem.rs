//! Guest physical memory, identity-addressed: guest physical address 0 is
//! byte 0.
//!
//! Memory reads as zero until it is written, and only the part below the
//! highest address written so far is backed by storage, so a large guest
//! costs nothing until it touches its memory.
//!
//! Two access families, named so that the difference cannot be missed where
//! they are called:
//!
//! - `*_unchecked_boot_only`: for the boot-time layout code, which computes
//!   every address itself; that the range fits is the caller's proof.
//! - `*_checked`: for an address that a guest or a plugin chose. These return
//!   `false` or `None` and touch nothing when the range does not fit.

use vstd::prelude::*;

use crate::bytes::{get_u16, get_u32, get_u64, le64, push_u16, push_u32, push_u64, splice, u16_at, u32_at, u64_at};
use crate::bytes::{le16, le32, lemma_u16_same, lemma_u32_same, lemma_u64_same};
use crate::error::HyperbugError;

verus! {

/// The memory of one guest.
pub struct GuestMemory {
    bytes: Vec<u8>,
    size: usize,
}

impl View for GuestMemory {
    type V = Seq<u8>;

    closed spec fn view(&self) -> Seq<u8> {
        Seq::new(
            self.size as nat,
            |i: int| if i < self.bytes@.len() { self.bytes@[i] } else { 0u8 },
        )
    }
}

impl GuestMemory {
    #[verifier::type_invariant]
    spec fn inv(self) -> bool {
        self.bytes@.len() <= self.size
    }

    /// `size` bytes of zeroed memory. A mapping of no bytes at all is refused,
    /// in the words of the host. Any other size is only set aside and not
    /// backed yet, so there is nothing that could fail.
    pub fn new(size: usize) -> (r: Result<Self, HyperbugError>)
        ensures
            match r {
                Ok(m) => size > 0 && m@ == Seq::new(size as nat, |i: int| 0u8),
                Err(e) => size == 0 && e is Io && e->Io_0@
                    == "mmap of 0 bytes of guest memory failed: Invalid argument (os error 22)"@,
            },
    {
        if size == 0 {
            return Err(
                HyperbugError::Io(
                    "mmap of 0 bytes of guest memory failed: Invalid argument (os error 22)".to_owned(),
                ),
            );
        }
        let r = GuestMemory { bytes: Vec::new(), size };
        assert(r@ =~= Seq::new(size as nat, |i: int| 0u8));
        Ok(r)
    }

    /// Memory that holds `bytes`, all of it backed by that storage.
    pub fn from_vec(bytes: Vec<u8>) -> (r: Self)
        ensures
            r@ == bytes@,
    {
        let size: usize = bytes.len();
        let r = GuestMemory { bytes, size };
        assert(r@ =~= bytes@);
        r
    }

    /// Total guest memory, in bytes.
    pub fn size(&self) -> (r: usize)
        ensures
            r == self@.len(),
    {
        self.size
    }

    /// Whether `[addr, addr + len)` lies within guest memory.
    pub fn in_bounds(&self, addr: u64, len: u64) -> (r: bool)
        ensures
            r == (addr + len <= self@.len()),
    {
        match addr.checked_add(len) {
            Some(end) => end <= self.size as u64,
            None => false,
        }
    }

    fn byte(&self, i: usize) -> (r: u8)
        requires
            i < self@.len(),
        ensures
            r == self@[i as int],
    {
        if i < self.bytes.len() {
            self.bytes[i]
        } else {
            0
        }
    }

    /// Copies guest memory from `addr` on into the whole of `dst`, if the
    /// range fits.
    pub fn read_checked(&self, addr: u64, dst: &mut [u8]) -> (r: bool)
        ensures
            r == (addr + old(dst)@.len() <= self@.len()),
            r ==> final(dst)@ == self@.subrange(addr as int, addr + old(dst)@.len()),
            !r ==> final(dst)@ == old(dst)@,
    {
        if !self.in_bounds(addr, dst.len() as u64) {
            return false;
        }
        let at: usize = addr as usize;
        let mut i: usize = 0;
        while i < dst.len()
            invariant
                i <= dst@.len() == old(dst)@.len(),
                at == addr,
                at + dst@.len() <= self@.len() <= usize::MAX,
                forall|k: int| 0 <= k < i ==> dst@[k] == self@[at + k],
            decreases dst@.len() - i,
        {
            dst[i] = self.byte(at + i);
            i += 1;
        }
        assert(dst@ =~= self@.subrange(addr as int, addr + old(dst)@.len()));
        true
    }

    /// The `len` bytes of guest memory from `addr` on, if the range fits.
    pub fn read_vec(&self, addr: u64, len: u64) -> (r: Option<Vec<u8>>)
        ensures
            match r {
                Some(v) => addr + len <= self@.len() && v@ == self@.subrange(addr as int, addr + len),
                None => addr + len > self@.len(),
            },
    {
        if !self.in_bounds(addr, len) {
            return None;
        }
        let at: usize = addr as usize;
        let mut v: Vec<u8> = Vec::new();
        let mut i: usize = 0;
        while i < len as usize
            invariant
                i <= len,
                at == addr,
                at + len <= self@.len() <= usize::MAX,
                v@.len() == i,
                forall|k: int| 0 <= k < i ==> v@[k] == self@[at + k],
            decreases len - i,
        {
            v.push(self.byte(at + i));
            i += 1;
        }
        assert(v@ =~= self@.subrange(addr as int, addr + len));
        Some(v)
    }

    /// Writes `data` at `addr`. The caller proves that it fits.
    pub fn write_slice_unchecked_boot_only(&mut self, addr: u64, data: &[u8])
        requires
            addr + data@.len() <= old(self)@.len(),
        ensures
            final(self)@ == splice(old(self)@, addr as int, data@),
    {
        proof {
            use_type_invariant(&*self);
        }
        let at: usize = addr as usize;
        let end: usize = at + data.len();
        let mut bytes: Vec<u8> = Vec::new();
        core::mem::swap(&mut bytes, &mut self.bytes);
        let ghost before = old(self)@;
        if bytes.len() < end {
            bytes.resize(end, 0);
        }
        let n: usize = bytes.len();
        let ghost grown = bytes@;
        let mut i: usize = 0;
        while i < data.len()
            invariant
                i <= data@.len(),
                at + data@.len() == end <= bytes@.len() == n == grown.len(),
                forall|k: int|
                    0 <= k < n ==> bytes@[k] == (if at <= k < at + i { data@[k - at] } else {
                        grown[k]
                    }),
            decreases data@.len() - i,
        {
            bytes.set(at + i, data[i]);
            i += 1;
        }
        self.bytes = bytes;
        assert(self@ =~= splice(old(self)@, addr as int, data@));
    }

    /// Writes the eight little-endian bytes of `val` at `addr`. The caller
    /// proves that they fit.
    pub fn write_obj_unchecked_boot_only(&mut self, addr: u64, val: u64)
        requires
            addr + 8 <= old(self)@.len(),
        ensures
            final(self)@ == splice(old(self)@, addr as int, le64(val)),
    {
        let mut v: Vec<u8> = Vec::new();
        push_u64(&mut v, val);
        assert(v@ =~= le64(val));
        self.write_slice_unchecked_boot_only(addr, v.as_slice());
    }

    /// Writes `src` at `addr`, if it fits.
    pub fn write_checked(&mut self, addr: u64, src: &[u8]) -> (r: bool)
        ensures
            r == (addr + src@.len() <= old(self)@.len()),
            r ==> final(self)@ == splice(old(self)@, addr as int, src@),
            !r ==> final(self)@ == old(self)@,
    {
        if !self.in_bounds(addr, src.len() as u64) {
            return false;
        }
        self.write_slice_unchecked_boot_only(addr, src);
        true
    }

    /// The 16-bit number at `addr`, if it lies within guest memory.
    pub fn read_u16_checked(&self, addr: u64) -> (r: Option<u16>)
        ensures
            r == (if addr + 2 <= self@.len() { Some(u16_at(self@, addr as int)) } else { None }),
    {
        match self.read_vec(addr, 2) {
            Some(v) => {
                proof {
                    lemma_u16_same(self@, addr as int, v@, 0);
                }
                Some(get_u16(v.as_slice(), 0))
            },
            None => None,
        }
    }

    /// The 32-bit number at `addr`, if it lies within guest memory.
    pub fn read_u32_checked(&self, addr: u64) -> (r: Option<u32>)
        ensures
            r == (if addr + 4 <= self@.len() { Some(u32_at(self@, addr as int)) } else { None }),
    {
        match self.read_vec(addr, 4) {
            Some(v) => {
                proof {
                    lemma_u32_same(self@, addr as int, v@, 0);
                }
                Some(get_u32(v.as_slice(), 0))
            },
            None => None,
        }
    }

    /// The 64-bit number at `addr`, if it lies within guest memory.
    pub fn read_u64_checked(&self, addr: u64) -> (r: Option<u64>)
        ensures
            r == (if addr + 8 <= self@.len() { Some(u64_at(self@, addr as int)) } else { None }),
    {
        match self.read_vec(addr, 8) {
            Some(v) => {
                proof {
                    lemma_u64_same(self@, addr as int, v@, 0);
                }
                Some(get_u64(v.as_slice(), 0))
            },
            None => None,
        }
    }

    /// Writes a 16-bit number at `addr`, if it fits.
    pub fn write_u16_checked(&mut self, addr: u64, val: u16) -> (r: bool)
        ensures
            r == (addr + 2 <= old(self)@.len()),
            r ==> final(self)@ == splice(old(self)@, addr as int, le16(val)),
            !r ==> final(self)@ == old(self)@,
    {
        let mut v: Vec<u8> = Vec::new();
        push_u16(&mut v, val);
        assert(v@ =~= le16(val));
        self.write_checked(addr, v.as_slice())
    }

    /// Writes a 32-bit number at `addr`, if it fits.
    pub fn write_u32_checked(&mut self, addr: u64, val: u32) -> (r: bool)
        ensures
            r == (addr + 4 <= old(self)@.len()),
            r ==> final(self)@ == splice(old(self)@, addr as int, le32(val)),
            !r ==> final(self)@ == old(self)@,
    {
        let mut v: Vec<u8> = Vec::new();
        push_u32(&mut v, val);
        assert(v@ =~= le32(val));
        self.write_checked(addr, v.as_slice())
    }
}

/// A read of a range gives back what was last written there.
pub proof fn law_write_then_read(mem: Seq<u8>, addr: u64, data: Seq<u8>)
    requires
        addr + data.len() <= mem.len(),
    ensures
        splice(mem, addr as int, data).subrange(addr as int, addr + data.len()) == data,
{
    assert(splice(mem, addr as int, data).subrange(addr as int, addr + data.len()) =~= data);
}

/// A write leaves every range that it does not touch as it was.
pub proof fn law_write_leaves_the_rest(mem: Seq<u8>, addr: u64, data: Seq<u8>, at: int, len: int)
    requires
        addr + data.len() <= mem.len(),
        0 <= at,
        0 <= len,
        at + len <= mem.len(),
        at + len <= addr || addr + data.len() <= at,
    ensures
        splice(mem, addr as int, data).subrange(at, at + len) == mem.subrange(at, at + len),
        splice(mem, addr as int, data).len() == mem.len(),
{
    assert(splice(mem, addr as int, data).subrange(at, at + len) =~= mem.subrange(at, at + len));
}

/// A 16-bit number read back is the number written.
pub proof fn law_u16_round_trip(mem: Seq<u8>, addr: u64, val: u16)
    requires
        addr + 2 <= mem.len(),
    ensures
        u16_at(splice(mem, addr as int, le16(val)), addr as int) == val,
{
    crate::bytes::lemma_u16_le(splice(mem, addr as int, le16(val)), addr as int, val);
}

/// A 32-bit number read back is the number written.
pub proof fn law_u32_round_trip(mem: Seq<u8>, addr: u64, val: u32)
    requires
        addr + 4 <= mem.len(),
    ensures
        u32_at(splice(mem, addr as int, le32(val)), addr as int) == val,
{
    crate::bytes::lemma_u32_le(splice(mem, addr as int, le32(val)), addr as int, val);
}

/// A 64-bit number read back is the number written.
pub proof fn law_u64_round_trip(mem: Seq<u8>, addr: u64, val: u64)
    requires
        addr + 8 <= mem.len(),
    ensures
        u64_at(splice(mem, addr as int, le64(val)), addr as int) == val,
{
    crate::bytes::lemma_u64_le(splice(mem, addr as int, le64(val)), addr as int, val);
}

/// Memory of a guest begins as zeroes, and reads back what was last written:
/// a write that fits changes the bytes that it names and no others, and one
/// that does not fit changes nothing.
pub proof fn law_memory(
    fresh: usize,
    made: Result<GuestMemory, HyperbugError>,
    mem: &mut GuestMemory,
    addr: u64,
    src: &[u8],
    wrote: bool,
    later: &GuestMemory,
    at: u64,
    len: u64,
    r: Option<Vec<u8>>,
    k: int,
)
    requires
        call_ensures(GuestMemory::new, (fresh,), made),
        call_ensures(GuestMemory::write_checked, (mem, addr, src), wrote),
        later@ == final(mem)@,
        call_ensures(GuestMemory::read_vec, (later, at, len), r),
        0 <= k < len,
    ensures
        made matches Ok(m) ==> m@.len() == fresh && (k < fresh ==> m@[k] == 0),
        made is Ok <==> fresh > 0,
        wrote <==> addr + src@.len() <= old(mem)@.len(),
        r is Some <==> at + len <= old(mem)@.len(),
        r matches Some(v) ==> v@.len() == len && v@[k] == (if wrote && addr <= at + k < addr + src@.len() {
            src@[at + k - addr]
        } else {
            old(mem)@[at + k]
        }),
{
}

} // verus!
