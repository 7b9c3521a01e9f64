//! One physical device multiplexed by several logical cursors.
//!
//! [`SharedFile`] owns the device together with the position it is last
//! known to sit at; a [`SharedCursor`] is one logical reader's believed
//! position.  Every operation reconciles the two before touching the
//! device: a seek whose target is exactly where the device already sits
//! is elided, and a read re-seeks first only when the device was last
//! moved by some other cursor.  Reads through a cursor therefore always
//! observe the bytes at the position that cursor last sought or advanced
//! to, however the sibling cursors interleave.
use crate::device::Disk;
use crate::error::NtfsError;
use vstd::prelude::*;

verus! {

/// The believed position of one logical reader over a shared device.
#[derive(Clone, Copy)]
pub struct SharedCursor {
    position: u64,
}

impl SharedCursor {
    /// The position this cursor believes the next read starts at.
    pub closed spec fn pos(self) -> int {
        self.position as int
    }
}

/// One device plus the position it is last known to sit at.
pub struct SharedFile<D: Disk> {
    file: D,
    position: u64,
}

impl<D: Disk> SharedFile<D> {
    /// Well-formedness: the recorded physical position agrees with the
    /// device itself.  `new` establishes it and every operation keeps it.
    pub closed spec fn wf(&self) -> bool {
        self.position as int == self.file.pos() && self.file.inv()
    }

    /// The bytes of the underlying device.
    pub closed spec fn contents(&self) -> Seq<u8> {
        self.file.contents()
    }

    /// Where the device is last known to sit.
    pub closed spec fn device_pos(&self) -> int {
        self.position as int
    }

    /// How many physical seeks the device has performed.
    pub closed spec fn device_seeks(&self) -> nat {
        self.file.seeks()
    }

    /// Takes over a device, adopting the position it already sits at:
    /// one position query, no seek issued and no bytes moved.
    pub fn new(file: D) -> (s: SharedFile<D>)
        requires
            file.inv(),
        ensures
            s.wf(),
            s.contents() == file.contents(),
            s.device_pos() == file.pos(),
            s.device_seeks() == file.seeks(),
    {
        let position = file.stream_position();
        SharedFile { file, position }
    }

    /// A fresh logical handle that believes the device's recorded
    /// position: the equivalent of handing a reader its own clone of the
    /// handle.
    pub fn cursor(&self) -> (c: SharedCursor)
        ensures
            c.pos() == self.device_pos(),
    {
        SharedCursor { position: self.position }
    }

    /// Hands the device back, for instance to read its instrumentation.
    pub fn into_inner(self) -> (d: D)
        ensures
            d.contents() == self.contents(),
            d.seeks() == self.device_seeks(),
            self.wf() ==> d.inv() && d.pos() == self.device_pos(),
    {
        self.file
    }

    /// A logical handle at a chosen position, taken without touching the
    /// device.
    pub fn cursor_at(&self, position: u64) -> (c: SharedCursor)
        ensures
            c.pos() == position as int,
    {
        SharedCursor { position }
    }

    /// Repositions one logical cursor.  When the target is exactly where
    /// the device is recorded to sit, the physical seek is elided; the
    /// cursor still takes the target as its believed position.
    pub fn seek(&mut self, cur: &mut SharedCursor, target: u64) -> (r: Result<(), NtfsError>)
        requires
            old(self).wf(),
        ensures
            final(self).wf(),
            final(self).contents() == old(self).contents(),
            r is Ok ==> {
                &&& final(cur).pos() == target as int
                &&& final(self).device_pos() == target as int
                &&& final(self).device_seeks() == old(self).device_seeks() + (
                if old(self).device_pos() == target as int {
                    0int
                } else {
                    1int
                })
            },
            r is Err ==> final(cur).pos() == old(cur).pos() && final(self).device_pos() == old(
                self,
            ).device_pos() && final(self).device_seeks() == old(self).device_seeks(),
            r matches Err(e) ==> e == NtfsError::Device,
            old(self).device_pos() == target as int ==> r is Ok,
    {
        if self.position == target {
            cur.position = target;
            return Ok(());
        }
        match self.file.seek(target) {
            Ok(()) => {
                self.position = target;
                cur.position = target;
                Ok(())
            },
            Err(e) => Err(e),
        }
    }

    /// Reads up to `n` bytes for one logical cursor: re-seeks first when
    /// the device was last moved by another cursor, then advances the
    /// cursor and the recorded device position together.  Exactly the
    /// reads whose cursor disagrees with the device cost a physical seek.
    pub fn read(&mut self, cur: &mut SharedCursor, n: usize) -> (r: Result<Vec<u8>, NtfsError>)
        requires
            old(self).wf(),
        ensures
            final(self).wf(),
            final(self).contents() == old(self).contents(),
            r matches Ok(v) ==> {
                &&& v@.len() <= n
                &&& final(cur).pos() == old(cur).pos() + v@.len()
                &&& final(self).device_pos() == final(cur).pos()
                &&& v@.len() > 0 ==> old(cur).pos() + v@.len() <= old(self).contents().len()
                    && v@ == old(self).contents().subrange(
                    old(cur).pos(),
                    old(cur).pos() + v@.len(),
                )
                &&& (v@.len() == 0 <==> n == 0 || old(cur).pos() >= old(self).contents().len())
                &&& final(self).device_seeks() == old(self).device_seeks() + (
                if old(self).device_pos() == old(cur).pos() {
                    0int
                } else {
                    1int
                })
            },
            r is Err ==> final(cur).pos() == old(cur).pos() && final(self).device_seeks() <= old(
                self,
            ).device_seeks() + 1,
            r matches Err(e) ==> e == NtfsError::Device,
    {
        if self.position != cur.position {
            match self.file.seek(cur.position) {
                Ok(()) => {
                    self.position = cur.position;
                },
                Err(e) => {
                    return Err(e);
                },
            }
        }
        match self.file.read(n) {
            Ok(v) => {
                proof {
                    self.file.contents_bounded();
                }
                self.position = self.position + v.len() as u64;
                cur.position = self.position;
                Ok(v)
            },
            Err(e) => Err(e),
        }
    }
}

} // verus!
