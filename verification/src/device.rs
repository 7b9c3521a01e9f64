//! The device under the decoder.
//!
//! [`Disk`] is the contract the rest of the crate reads volumes through: a
//! random-access byte device with a current position.  [`MemDisk`] is the
//! in-memory device: a byte image with an instrumented seek counter, used
//! as the synthetic backing store for whole-volume walks.
use crate::error::NtfsError;
use vstd::prelude::*;

verus! {

/// A random-access byte device.
///
/// `contents` is the device's byte image, `pos` the offset the next read
/// starts at, and `seeks` the number of repositionings the device has
/// performed; `seeks` is what lets callers state that a seek was avoided.
pub trait Disk: Sized {
    /// The bytes the device holds.
    spec fn contents(&self) -> Seq<u8>;

    /// The offset the next read starts at.
    spec fn pos(&self) -> int;

    /// How many repositionings the device has performed.
    spec fn seeks(&self) -> nat;

    /// The implementation's internal consistency; `true` for a plain
    /// device, and carried through every operation.
    spec fn inv(&self) -> bool;

    /// A device image is addressable by byte offset, so it fits one,
    /// and the device always sits at some byte offset.
    proof fn contents_bounded(&self)
        requires
            self.inv(),
        ensures
            self.contents().len() <= u64::MAX,
            0 <= self.pos() <= u64::MAX,
    ;

    /// Where the device sits, asked of the device itself: the query a
    /// caller adopting an already-positioned handle starts from.
    fn stream_position(&self) -> (p: u64)
        requires
            self.inv(),
        ensures
            p as int == self.pos(),
    ;

    /// Moves the device to the absolute byte offset `target`.  Seeking
    /// beyond the end is allowed; reads there return nothing.  A failed
    /// seek leaves the device where it was.
    fn seek(&mut self, target: u64) -> (r: Result<(), NtfsError>)
        requires
            old(self).inv(),
        ensures
            final(self).inv(),
            final(self).contents() == old(self).contents(),
            r is Ok ==> final(self).pos() == target as int && final(self).seeks() == old(
                self,
            ).seeks() + 1,
            r is Err ==> final(self).pos() == old(self).pos() && final(self).seeks() == old(
                self,
            ).seeks(),
            r matches Err(e) ==> e == NtfsError::Device,
    ;

    /// Reads up to `n` bytes at the current position and advances past
    /// them.  A read may return fewer bytes than asked for even when more
    /// remain, so callers loop; it returns no bytes only when asked for
    /// none or when the position is at or past the end.
    fn read(&mut self, n: usize) -> (r: Result<Vec<u8>, NtfsError>)
        requires
            old(self).inv(),
        ensures
            final(self).inv(),
            final(self).contents() == old(self).contents(),
            final(self).seeks() == old(self).seeks(),
            r matches Ok(v) ==> {
                &&& v@.len() <= n
                &&& final(self).pos() == old(self).pos() + v@.len()
                &&& v@.len() > 0 ==> 0 <= old(self).pos() && old(self).pos() + v@.len() <= old(
                    self,
                ).contents().len() && v@ == old(self).contents().subrange(
                    old(self).pos(),
                    old(self).pos() + v@.len(),
                )
                &&& (v@.len() == 0 <==> n == 0 || old(self).pos() >= old(self).contents().len()
                    || old(self).pos() < 0)
            },
            r is Err ==> final(self).pos() == old(self).pos(),
            r matches Err(e) ==> e == NtfsError::Device,
    ;
}

/// An in-memory device: the whole volume image held as bytes.  The seek
/// counter makes repositioning observable; the device reports failure in
/// the far-fetched case of the counter running out rather than miscount.
pub struct MemDisk {
    data: Vec<u8>,
    position: u64,
    seek_count: u64,
}

impl MemDisk {
    pub fn new(data: Vec<u8>) -> (d: MemDisk)
        ensures
            d.contents() == data@,
            d.pos() == 0,
            d.seeks() == 0,
    {
        MemDisk { data, position: 0, seek_count: 0 }
    }

    /// The number of seeks the device has performed: the observable side
    /// of `seeks()`.
    pub fn seek_count(&self) -> (n: u64)
        ensures
            n as nat == self.seeks(),
    {
        self.seek_count
    }
}

impl Disk for MemDisk {
    closed spec fn contents(&self) -> Seq<u8> {
        self.data@
    }

    closed spec fn pos(&self) -> int {
        self.position as int
    }

    closed spec fn seeks(&self) -> nat {
        self.seek_count as nat
    }

    open spec fn inv(&self) -> bool {
        true
    }

    proof fn contents_bounded(&self) {
        broadcast use vstd::std_specs::vec::axiom_spec_len;

        assert(vstd::std_specs::vec::spec_vec_len(&self.data) == self.data@.len());
    }

    fn stream_position(&self) -> (p: u64) {
        self.position
    }

    fn seek(&mut self, target: u64) -> (r: Result<(), NtfsError>) {
        if self.seek_count == u64::MAX {
            return Err(NtfsError::Device);
        }
        self.position = target;
        self.seek_count = self.seek_count + 1;
        Ok(())
    }

    fn read(&mut self, n: usize) -> (r: Result<Vec<u8>, NtfsError>) {
        let len: usize = self.data.len();
        if n == 0 || self.position >= len as u64 {
            return Ok(Vec::new());
        }
        let start: usize = self.position as usize;
        let mut take: usize = len - start;
        if n < take {
            take = n;
        }
        let mut v: Vec<u8> = Vec::new();
        let mut i: usize = 0;
        while i < take
            invariant
                i <= take,
                start + take <= self.data@.len(),
                v@ == self.data@.subrange(start as int, start + i),
            decreases take - i,
        {
            v.push(self.data[start + i]);
            i = i + 1;
            proof {
                assert(self.data@.subrange(start as int, start + i - 1).push(
                    self.data@[start + i - 1],
                ) =~= self.data@.subrange(start as int, start + i));
            }
        }
        self.position = self.position + take as u64;
        Ok(v)
    }
}

} // verus!
