//! The sector-aligned reader.
//!
//! A raw volume handle only accepts seeks at sector boundaries, so this
//! adapter floors every requested offset down to the alignment, remembers
//! the sub-sector distance still to be skipped, and buffers whole blocks;
//! what it hands out are exactly the device's bytes at the positions the
//! caller asked for.  [`AlignedFile`] is itself a [`Disk`], so the rest of
//! the stack sits on it unchanged.
use crate::device::Disk;
use crate::error::NtfsError;
use vstd::arithmetic::div_mod::lemma_fundamental_div_mod;
use vstd::arithmetic::div_mod::lemma_fundamental_div_mod_converse;
use vstd::arithmetic::div_mod::lemma_mod_bound;
use vstd::arithmetic::div_mod::lemma_mod_multiples_basic;
use vstd::prelude::*;

verus! {

/// Rounds `offset` down to the nearest multiple of `alignment`, toward
/// negative infinity for negative offsets.
pub fn floor(offset: i64, alignment: u64) -> (r: i64)
    requires
        1 <= alignment <= i64::MAX as u64,
        offset as int - alignment as int >= i64::MIN as int,
    ensures
        r as int == offset as int - (offset as int % alignment as int),
        r <= offset < r + alignment as int,
        r as int % alignment as int == 0,
{
    let a: u64 = alignment;
    let r: i64 = if offset >= 0 {
        let o: u64 = offset as u64;
        proof {
            lemma_u64_mod_bound(o, a);
        }
        let f: u64 = o - o % a;
        f as i64
    } else {
        let m: u64 = (-offset) as u64;
        let rem: u64 = m % a;
        proof {
            lemma_u64_mod_bound(m, a);
            lemma_neg_mod(m as int, a as int);
        }
        if rem == 0 {
            offset
        } else {
            -((m + (a - rem)) as i64)
        }
    };
    proof {
        lemma_fundamental_div_mod(offset as int, a as int);
        lemma_mod_bound(offset as int, a as int);
        lemma_mod_multiples_basic(offset as int / a as int, a as int);
        assert(offset as int - (offset as int % a as int) == (offset as int / a as int) * (
        a as int)) by (nonlinear_arith)
            requires
                offset as int == (a as int) * (offset as int / a as int) + (offset as int % (
                a as int)),
        ;
    }
    r
}

proof fn lemma_u64_mod_bound(x: u64, a: u64)
    requires
        a >= 1,
    ensures
        0 <= (x as int) % (a as int) < a,
        (x as int) % (a as int) == x % a,
        (x as int) % (a as int) <= x,
{
    lemma_fundamental_div_mod(x as int, a as int);
    lemma_mod_bound(x as int, a as int);
    vstd::arithmetic::div_mod::lemma_div_pos_is_pos(x as int, a as int);
    assert((a as int) * ((x as int) / (a as int)) >= 0) by (nonlinear_arith)
        requires
            a as int >= 1 && (x as int) / (a as int) >= 0,
    ;
}

/// What a negative value leaves under a positive modulus: `0` when the
/// magnitude divides evenly, the complement of its remainder otherwise.
proof fn lemma_neg_mod(m: int, a: int)
    requires
        m >= 0,
        a >= 1,
    ensures
        m % a == 0 ==> (-m) % a == 0,
        m % a != 0 ==> (-m) % a == a - (m % a),
{
    lemma_fundamental_div_mod(m, a);
    lemma_mod_bound(m, a);
    let q = m / a;
    let r = m % a;
    if r == 0 {
        assert((-m) == a * (-q) + 0) by (nonlinear_arith)
            requires
                m == a * q + r && r == 0,
        ;
        lemma_fundamental_div_mod_converse(-m, a, -q, 0);
    } else {
        assert((-m) == a * (-q - 1) + (a - r)) by (nonlinear_arith)
            requires
                m == a * q + r,
        ;
        lemma_fundamental_div_mod_converse(-m, a, -q - 1, a - r);
    }
}

/// Adapts a device that is honoured at sector granularity into an
/// arbitrary-offset byte stream.
pub struct AlignedFile<D: Disk> {
    file: D,
    buffer: Vec<u8>,
    start: usize,
    alignment: u64,
    capacity: usize,
    skip: u64,
}

impl<D: Disk> AlignedFile<D> {
    /// Everything but quiescence: the buffered tail is exactly the
    /// device's bytes just before its position.  Mid-read the pending
    /// skip may coexist with a freshly filled buffer.
    spec fn inv_core(&self) -> bool {
        &&& self.file.inv()
        &&& self.alignment >= 1
        &&& self.capacity >= 1
        &&& self.start <= self.buffer@.len()
        &&& self.buffer@.len() - self.start <= self.file.pos()
        &&& self.file.pos() - (self.buffer@.len() - self.start) + self.skip <= u64::MAX
        &&& self.start < self.buffer@.len() ==> self.file.pos() <= self.file.contents().len()
            && self.buffer@.subrange(self.start as int, self.buffer@.len() as int)
            == self.file.contents().subrange(
            self.file.pos() - (self.buffer@.len() - self.start),
            self.file.pos(),
        )
    }

    /// Wraps `file`; reads are buffered `blocks` sectors at a time.
    pub fn new(file: D, alignment: usize, blocks: usize) -> (r: AlignedFile<D>)
        requires
            file.inv(),
            1 <= alignment,
            1 <= blocks,
            alignment * blocks <= usize::MAX,
        ensures
            r.inv(),
            r.contents() == file.contents(),
            r.pos() == file.pos(),
            r.seeks() == file.seeks(),
    {
        proof {
            file.contents_bounded();
            assert(alignment * blocks >= 1) by (nonlinear_arith)
                requires
                    alignment >= 1 && blocks >= 1,
            ;
        }
        AlignedFile {
            file,
            buffer: Vec::new(),
            start: 0,
            alignment: alignment as u64,
            capacity: alignment * blocks,
            skip: 0,
        }
    }
}

impl<D: Disk> Disk for AlignedFile<D> {
    closed spec fn contents(&self) -> Seq<u8> {
        self.file.contents()
    }

    closed spec fn pos(&self) -> int {
        self.file.pos() - (self.buffer@.len() - self.start) + self.skip
    }

    closed spec fn seeks(&self) -> nat {
        self.file.seeks()
    }

    closed spec fn inv(&self) -> bool {
        &&& self.inv_core()
        &&& self.skip > 0 ==> self.start == self.buffer@.len()
    }

    proof fn contents_bounded(&self) {
        self.file.contents_bounded();
    }

    fn stream_position(&self) -> (p: u64) {
        let fp: u64 = self.file.stream_position();
        let blen: usize = self.buffer.len();
        fp - (blen - self.start) as u64 + self.skip
    }

    fn seek(&mut self, target: u64) -> (r: Result<(), NtfsError>) {
        let rem: u64 = target % self.alignment;
        proof {
            lemma_u64_mod_bound(target, self.alignment);
        }
        let floored: u64 = target - rem;
        match self.file.seek(floored) {
            Ok(()) => {
                self.buffer = Vec::new();
                self.start = 0;
                self.skip = rem;
                Ok(())
            },
            Err(e) => Err(e),
        }
    }

    #[verifier::loop_isolation(true)]
    fn read(&mut self, n: usize) -> (r: Result<Vec<u8>, NtfsError>) {
        if n == 0 {
            return Ok(Vec::new());
        }
        loop
            invariant
                self.inv_core(),
                n >= 1,
                self.contents() == old(self).contents(),
                self.seeks() == old(self).seeks(),
                self.pos() == old(self).pos(),
                self.alignment == old(self).alignment,
                self.capacity == old(self).capacity,
            ensures
                self.skip == 0,
                self.start < self.buffer@.len(),
            decreases
                    self.skip,
                    (if self.start < self.buffer@.len() {
                        0int
                    } else {
                        1int
                    }),
        {
            let blen: usize = self.buffer.len();
            if self.start < blen {
                if self.skip == 0 {
                    break ;
                }
                let avail: u64 = (blen - self.start) as u64;
                let consume: u64 = if self.skip < avail {
                    self.skip
                } else {
                    avail
                };
                proof {
                    assert(self.buffer@.subrange(
                        self.start + consume,
                        self.buffer@.len() as int,
                    ) =~= self.buffer@.subrange(self.start as int, self.buffer@.len() as int)
                        .subrange(consume as int, (self.buffer@.len() - self.start) as int));
                    assert(self.file.contents().subrange(
                        self.file.pos() - (self.buffer@.len() - self.start - consume),
                        self.file.pos(),
                    ) =~= self.file.contents().subrange(
                        self.file.pos() - (self.buffer@.len() - self.start),
                        self.file.pos(),
                    ).subrange(consume as int, (self.buffer@.len() - self.start) as int));
                }
                self.start = self.start + consume as usize;
                self.skip = self.skip - consume;
            } else {
                proof {
                    self.file.contents_bounded();
                }
                let filled = match self.file.read(self.capacity) {
                    Ok(v) => v,
                    Err(e) => {
                        return Err(e);
                    },
                };
                if filled.len() == 0 {
                    proof {
                        self.file.contents_bounded();
                    }
                    return Ok(Vec::new());
                }
                self.buffer = filled;
                self.start = 0;
                proof {
                    assert(self.buffer@.subrange(0, self.buffer@.len() as int) =~= self.buffer@);
                }
            }
        }
        // The cursor now rests on a buffered byte, and everything from it
        // to the end of the buffer is exactly the device's bytes there.
        let blen: usize = self.buffer.len();
        let mut count: usize = blen - self.start;
        if n < count {
            count = n;
        }
        let mut out: Vec<u8> = Vec::new();
        let mut i: usize = 0;
        while i < count
            invariant
                i <= count,
                self.start + count <= self.buffer@.len(),
                self.buffer@.len() == blen,
                out@ == self.buffer@.subrange(self.start as int, self.start + i),
            decreases count - i,
        {
            out.push(self.buffer[self.start + i]);
            i = i + 1;
            proof {
                assert(self.buffer@.subrange(self.start as int, self.start + i - 1).push(
                    self.buffer@[self.start + i - 1],
                ) =~= self.buffer@.subrange(self.start as int, self.start + i));
            }
        }
        proof {
            assert(out@ =~= self.contents().subrange(self.pos(), self.pos() + count));
        }
        let ghost pre = *self;
        self.start = self.start + count;
        proof {
            self.file.contents_bounded();
            assert(pre.file.pos() <= pre.file.contents().len());
            if self.start < self.buffer@.len() {
                assert(self.buffer@.subrange(self.start as int, self.buffer@.len() as int)
                    =~= pre.buffer@.subrange(pre.start as int, pre.buffer@.len() as int).subrange(
                    count as int,
                    (pre.buffer@.len() - pre.start) as int,
                ));
                assert(self.file.contents().subrange(
                    self.file.pos() - (self.buffer@.len() - self.start),
                    self.file.pos(),
                ) =~= pre.file.contents().subrange(
                    pre.file.pos() - (pre.buffer@.len() - pre.start),
                    pre.file.pos(),
                ).subrange(count as int, (pre.buffer@.len() - pre.start) as int));
            }
        }
        Ok(out)
    }
}

} // verus!
