//! The data-run decoder and the reader over decoded runs.
//!
//! A non-resident attribute maps its logical clusters onto disk through a
//! compact encoding: each run starts with a header byte whose low nibble
//! gives the byte width of a length field and whose high nibble gives the
//! byte width of a signed, sign-extended delta applied to a running
//! absolute cluster number.  The first run's offset is absolute; each
//! later one is a delta.  Decoding stops at a zero header byte, at the
//! end of the input, or once the declared virtual-cluster count is
//! reached, and each run's byte length is trimmed so the total never
//! exceeds the attribute's declared size.
use crate::device::Disk;
use crate::error::NtfsError;
use crate::flat::le_value;
use crate::flat::pow256;
use crate::shared::SharedCursor;
use crate::shared::SharedFile;
use vstd::prelude::*;

verus! {

/// The value of `v`, read as a two's-complement integer of `width` bytes.
/// A high top bit pulls the value below zero: one `0xFF` byte is `-1`,
/// never `255`; a zero-width field carries no bits and stays `0`, the
/// encoding of a run that does not move.
pub open spec fn sign_extend(v: nat, width: nat) -> int {
    if 2 * v < pow256(width) {
        v as int
    } else {
        v as int - pow256(width)
    }
}

/// One decoding step of the run list starting at `src`, carrying the
/// running absolute cluster number, the virtual clusters and bytes seen
/// so far, and whether this is the first run.  `None` marks input the
/// decoder refuses: a truncated field, a field wider than eight bytes, or
/// a run that leaves the device's address space.
pub open spec fn decode_runs(
    src: Seq<u8>,
    cluster: u64,
    vcns: u64,
    limit: u64,
    absolute: u64,
    total_vcns: u64,
    total_len: u64,
    first: bool,
) -> Option<Seq<(u64, u64)>>
    decreases src.len(),
{
    if total_vcns >= vcns || src.len() == 0 || src[0] == 0 {
        Some(Seq::empty())
    } else {
        let head = src[0];
        let lw = (head & 0x0F) as int;
        let ow = (head >> 4) as int;
        if lw > 8 || ow > 8 || 1 + lw + ow > src.len() {
            None
        } else {
            let len = le_value(src.subrange(1, 1 + lw)) as int;
            let off = le_value(src.subrange(1 + lw, 1 + lw + ow));
            let delta = if first {
                off as int
            } else {
                sign_extend(off, ow as nat)
            };
            let new_abs = absolute + delta;
            let run_bytes = len * cluster;
            let new_vcns: u64 = if total_vcns + len >= vcns {
                vcns
            } else {
                (total_vcns + len) as u64
            };
            let trimmed = if total_len + run_bytes > limit {
                limit - total_len
            } else {
                run_bytes
            };
            let new_total: u64 = if total_len + run_bytes > limit {
                limit
            } else {
                (total_len + run_bytes) as u64
            };
            if new_abs < 0 || new_abs > u64::MAX || new_abs * cluster + trimmed > u64::MAX {
                None
            } else {
                match decode_runs(
                    src.skip(1 + lw + ow),
                    cluster,
                    vcns,
                    limit,
                    new_abs as u64,
                    new_vcns,
                    new_total,
                    false,
                ) {
                    Option::None => Option::None,
                    Option::Some(rest) => Option::Some(
                        seq![(((new_abs * cluster) as u64, trimmed as u64))] + rest,
                    ),
                }
            }
        }
    }
}

/// The bytes covered by the first `i` runs.
pub open spec fn runs_prefix_len(s: Seq<(u64, u64)>, i: int) -> int
    decreases i,
{
    if i <= 0 {
        0
    } else {
        runs_prefix_len(s, i - 1) + s[i - 1].1
    }
}

/// Whether every run's extent lies inside the device's bytes.
pub open spec fn runs_in_contents(runs: Seq<(u64, u64)>, contents: Seq<u8>) -> bool {
    forall|i: int| 0 <= i < runs.len() ==> #[trigger] runs[i].0 + runs[i].1 <= contents.len()
}

/// The logical byte stream a run list maps: each extent's device bytes,
/// laid end to end.
pub open spec fn stream_view(runs: Seq<(u64, u64)>, contents: Seq<u8>) -> Seq<u8>
    decreases runs.len(),
{
    if runs.len() == 0 {
        Seq::empty()
    } else {
        contents.subrange(runs[0].0 as int, runs[0].0 + runs[0].1) + stream_view(
            runs.skip(1),
            contents,
        )
    }
}

/// The stream is as long as its runs together.
pub proof fn lemma_stream_view_len(runs: Seq<(u64, u64)>, contents: Seq<u8>)
    requires
        runs_in_contents(runs, contents),
    ensures
        stream_view(runs, contents).len() == runs_prefix_len(runs, runs.len() as int),
    decreases runs.len(),
{
    if runs.len() > 0 {
        assert(runs_in_contents(runs.skip(1), contents)) by {
            assert(forall|i: int|
                0 <= i < runs.skip(1).len() ==> runs.skip(1)[i] == #[trigger] runs[i + 1]);
        }
        lemma_stream_view_len(runs.skip(1), contents);
        lemma_runs_prefix_of_skip(runs, runs.len() as int);
    }
}

/// Peeling the first run off a prefix sum.
proof fn lemma_runs_prefix_of_skip(runs: Seq<(u64, u64)>, i: int)
    requires
        1 <= i <= runs.len(),
    ensures
        runs_prefix_len(runs, i) == runs[0].1 + runs_prefix_len(runs.skip(1), i - 1),
    decreases i,
{
    if i == 1 {
        assert(runs_prefix_len(runs, 1) == runs_prefix_len(runs, 0) + runs[0].1);
        assert(runs_prefix_len(runs, 0) == 0);
        assert(runs_prefix_len(runs.skip(1), 0) == 0);
    } else {
        lemma_runs_prefix_of_skip(runs, i - 1);
        assert(runs.skip(1)[i - 2] == runs[i - 1]);
        assert(runs_prefix_len(runs.skip(1), i - 1) == runs_prefix_len(runs.skip(1), i - 2)
            + runs.skip(1)[i - 2].1);
        assert(runs_prefix_len(runs, i) == runs_prefix_len(runs, i - 1) + runs[i - 1].1);
    }
}

/// A piece of one run, seen through the stream, is the device's own
/// bytes at the run's extent.
pub proof fn lemma_stream_view_run_piece(
    runs: Seq<(u64, u64)>,
    contents: Seq<u8>,
    i: int,
    o: int,
    k: int,
)
    requires
        runs_in_contents(runs, contents),
        0 <= i < runs.len(),
        0 <= o,
        0 <= k,
        o + k <= runs[i].1,
    ensures
        runs_prefix_len(runs, i) + o + k <= stream_view(runs, contents).len(),
        stream_view(runs, contents).subrange(
            runs_prefix_len(runs, i) + o,
            runs_prefix_len(runs, i) + o + k,
        ) == contents.subrange(runs[i].0 + o, runs[i].0 + o + k),
    decreases i,
{
    lemma_stream_view_len(runs, contents);
    lemma_runs_prefix_mono(runs, i + 1, runs.len() as int);
    assert(runs_prefix_len(runs, i + 1) == runs_prefix_len(runs, i) + runs[i].1);
    lemma_runs_prefix_mono(runs, 0, i);
    if i == 0 {
        let head = contents.subrange(runs[0].0 as int, runs[0].0 + runs[0].1);
        assert(stream_view(runs, contents).subrange(o, o + k) =~= head.subrange(o, o + k));
        assert(head.subrange(o, o + k) =~= contents.subrange(runs[0].0 + o, runs[0].0 + o + k));
    } else {
        assert(runs_in_contents(runs.skip(1), contents)) by {
            assert(forall|j: int|
                0 <= j < runs.skip(1).len() ==> runs.skip(1)[j] == #[trigger] runs[j + 1]);
        }
        lemma_stream_view_run_piece(runs.skip(1), contents, i - 1, o, k);
        lemma_runs_prefix_of_skip(runs, i);
        lemma_stream_view_len(runs.skip(1), contents);
        let head = contents.subrange(runs[0].0 as int, runs[0].0 + runs[0].1);
        let rest = stream_view(runs.skip(1), contents);
        let base = runs_prefix_len(runs.skip(1), i - 1) + o;
        assert(stream_view(runs, contents) == head + rest);
        assert(runs.skip(1)[i - 1] == runs[i]);
        lemma_runs_prefix_mono(runs.skip(1), 0, i - 1);
        assert(base + k <= rest.len());
        assert forall|j: int| 0 <= j < k implies #[trigger] stream_view(runs, contents)[runs_prefix_len(
            runs,
            i,
        ) + o + j] == rest[base + j] by {
            assert((head + rest)[head.len() + (base + j)] == rest[base + j]);
        }
        assert(stream_view(runs, contents).subrange(
            runs_prefix_len(runs, i) + o,
            runs_prefix_len(runs, i) + o + k,
        ) =~= rest.subrange(base, base + k));
    }
}

/// Every run stays inside the device's address space, and the whole
/// stream is byte-addressable.
pub open spec fn runs_wf(s: Seq<(u64, u64)>) -> bool {
    &&& forall|i: int| 0 <= i < s.len() ==> #[trigger] s[i].0 + s[i].1 <= u64::MAX
    &&& runs_prefix_len(s, s.len() as int) <= u64::MAX
}

/// An ordered list of disk extents: each entry is an absolute byte
/// offset and a byte length.
#[derive(Debug)]
pub struct DataRuns(pub Vec<(u64, u64)>);

impl Clone for DataRuns {
    fn clone(&self) -> (r: DataRuns)
        ensures
            r.0@ == self.0@,
    {
        let mut v: Vec<(u64, u64)> = Vec::new();
        let mut i: usize = 0;
        let count: usize = self.0.len();
        while i < count
            invariant
                i <= count,
                count == self.0@.len(),
                v@ == self.0@.take(i as int),
            decreases count - i,
        {
            let (a, b) = self.0[i];
            v.push((a, b));
            i = i + 1;
            proof {
                assert(self.0@.take(i - 1).push(self.0@[i - 1]) =~= self.0@.take(i as int));
            }
        }
        proof {
            assert(self.0@.take(count as int) =~= self.0@);
        }
        DataRuns(v)
    }
}

impl DataRuns {
    /// Decodes the compact run encoding in `src` against the volume's
    /// cluster size, the attribute's declared virtual-cluster count and
    /// its declared byte size.  Returns exactly what [`decode_runs`]
    /// describes, or the error marking the input it refuses.
    #[verifier::loop_isolation(true)]
    #[verifier::rlimit(100)]
    pub fn parse(src: &[u8], cluster_size: u64, vcns: u64, length: u64) -> (r: Result<
        DataRuns,
        NtfsError,
    >)
        ensures
            r matches Ok(runs) ==> Some(runs.0@) == decode_runs(
                src@,
                cluster_size,
                vcns,
                length,
                0,
                0,
                0,
                true,
            ) && runs_wf(runs.0@) && runs_prefix_len(runs.0@, runs.0@.len() as int) <= length,
            r is Err ==> r == Err::<DataRuns, NtfsError>(NtfsError::OutOfBounds) && decode_runs(
                src@,
                cluster_size,
                vcns,
                length,
                0,
                0,
                0,
                true,
            ) is None,
    {
        let slen: usize = src.len();
        let mut pos: usize = 0;
        let mut absolute: u64 = 0;
        let mut out: Vec<(u64, u64)> = Vec::new();
        let mut total_vcns: u64 = 0;
        let mut total_len: u64 = 0;
        let ghost full = decode_runs(src@, cluster_size, vcns, length, 0, 0, 0, true);
        proof {
            assert(src@.skip(0) =~= src@);
        }
        loop
            invariant
                pos <= slen,
                slen == src@.len(),
                total_vcns <= vcns,
                total_len <= length,
                out@.len() == 0 ==> pos == 0 && absolute == 0 && total_vcns == 0 && total_len
                    == 0,
                runs_wf(out@),
                runs_prefix_len(out@, out@.len() as int) == total_len,
                decode_runs(src@, cluster_size, vcns, length, 0, 0, 0, true) == (match decode_runs(
                    src@.skip(pos as int),
                    cluster_size,
                    vcns,
                    length,
                    absolute,
                    total_vcns,
                    total_len,
                    out@.len() == 0,
                ) {
                    Option::None => Option::<Seq<(u64, u64)>>::None,
                    Option::Some(rest) => Option::Some(out@ + rest),
                }),
            ensures
                total_vcns >= vcns || pos >= slen || src@[pos as int] == 0,
            decreases slen - pos,
        {
            if total_vcns >= vcns || pos >= slen {
                break ;
            }
            let head: u8 = src[pos];
            if head == 0 {
                break ;
            }
            let lw: usize = (head & 0x0F) as usize;
            let ow: usize = (head >> 4) as usize;
            let ghost rem = src@.skip(pos as int);
            proof {
                assert(rem[0] == src@[pos as int]);
                assert(rem.len() == slen - pos);
            }
            if lw > 8 || ow > 8 || slen - pos < 1 + lw + ow {
                return Err(NtfsError::OutOfBounds);
            }
            let len: u64 = crate::flat::load_le(src, pos + 1, lw);
            let off: u64 = crate::flat::load_le(src, pos + 1 + lw, ow);
            proof {
                assert(rem.subrange(1, 1 + lw) =~= src@.subrange(pos + 1, pos + 1 + lw));
                assert(rem.subrange(1 + lw, 1 + lw + ow) =~= src@.subrange(
                    pos + 1 + lw,
                    pos + 1 + lw + ow,
                ));
            }
            let pow: u128 = pow256_exec(ow);
            let delta: i128 = if out.len() == 0 {
                off as i128
            } else if 2 * (off as u128) < pow {
                off as i128
            } else {
                off as i128 - pow as i128
            };
            let new_abs_wide: i128 = absolute as i128 + delta;
            if new_abs_wide < 0 || new_abs_wide > u64::MAX as i128 {
                return Err(NtfsError::OutOfBounds);
            }
            let new_abs: u64 = new_abs_wide as u64;
            proof {
                assert((len as u128) * (cluster_size as u128) <= u128::MAX) by (nonlinear_arith)
                    requires
                        len <= u64::MAX && cluster_size <= u64::MAX,
                ;
                assert((new_abs as u128) * (cluster_size as u128) <= u128::MAX)
                    by (nonlinear_arith)
                    requires
                        new_abs <= u64::MAX && cluster_size <= u64::MAX,
                ;
            }
            let run_bytes_wide: u128 = len as u128 * cluster_size as u128;
            let new_vcns: u64 = if len >= vcns - total_vcns {
                vcns
            } else {
                total_vcns + len
            };
            let trimmed_wide: u128 = if run_bytes_wide > (length - total_len) as u128 {
                (length - total_len) as u128
            } else {
                run_bytes_wide
            };
            let trimmed: u64 = trimmed_wide as u64;
            let new_total: u64 = if run_bytes_wide > (length - total_len) as u128 {
                length
            } else {
                total_len + run_bytes_wide as u64
            };
            let start_wide: u128 = new_abs as u128 * cluster_size as u128;
            if start_wide > u64::MAX as u128 || start_wide + trimmed as u128 > u64::MAX as u128 {
                return Err(NtfsError::OutOfBounds);
            }
            let start: u64 = start_wide as u64;
            let ghost pre_out = out@;
            let ghost pre_pos = pos as int;
            out.push((start, trimmed));
            absolute = new_abs;
            total_vcns = new_vcns;
            total_len = new_total;
            pos = pos + 1 + lw + ow;
            proof {
                assert(src@.skip(pre_pos).skip(1 + lw + ow) =~= src@.skip(pos as int));
                lemma_runs_prefix_snoc(out@, pre_out, start, trimmed);
                assert(out@ + decode_runs(
                    src@.skip(pos as int),
                    cluster_size,
                    vcns,
                    length,
                    absolute,
                    total_vcns,
                    total_len,
                    false,
                ).unwrap() =~= pre_out + (seq![((start, trimmed))] + decode_runs(
                    src@.skip(pos as int),
                    cluster_size,
                    vcns,
                    length,
                    absolute,
                    total_vcns,
                    total_len,
                    false,
                ).unwrap()));
            }
        }
        proof {
            assert(out@ + Seq::<(u64, u64)>::empty() =~= out@);
        }
        Ok(DataRuns(out))
    }
}

/// Appending one run extends the covered prefix by its length.
proof fn lemma_runs_prefix_snoc(s: Seq<(u64, u64)>, pre: Seq<(u64, u64)>, a: u64, b: u64)
    requires
        s == pre.push((a, b)),
    ensures
        runs_prefix_len(s, s.len() as int) == runs_prefix_len(pre, pre.len() as int) + b,
{
    lemma_runs_prefix_prefix(s, pre.len() as int);
    assert(s.subrange(0, pre.len() as int) =~= pre);
}

/// The covered prefix only looks at the runs before `i`.
proof fn lemma_runs_prefix_prefix(s: Seq<(u64, u64)>, i: int)
    requires
        0 <= i <= s.len(),
    ensures
        runs_prefix_len(s, i) == runs_prefix_len(s.subrange(0, i), i),
    decreases i,
{
    if i > 0 {
        lemma_runs_prefix_prefix(s, i - 1);
        assert(s.subrange(0, i - 1) =~= s.subrange(0, i).subrange(0, i - 1));
        lemma_runs_prefix_prefix(s.subrange(0, i), i - 1);
    }
}

/// Prefixes cover no less as they grow.
proof fn lemma_runs_prefix_mono(s: Seq<(u64, u64)>, i: int, j: int)
    requires
        0 <= i <= j <= s.len(),
    ensures
        runs_prefix_len(s, i) <= runs_prefix_len(s, j),
    decreases j - i,
{
    if i < j {
        lemma_runs_prefix_mono(s, i, j - 1);
    }
}

/// A position to seek a run-backed stream to, mirroring the three
/// anchorings a byte stream offers.
#[derive(Clone, Copy, Debug)]
pub enum SeekPos {
    /// An absolute offset from the front of the logical stream.
    Start(u64),
    /// A signed offset from the end of the logical stream.
    End(i64),
    /// A signed offset from the current position.
    Current(i64),
}

impl DataRuns {
    /// Hands the run list to a reader over the given logical handle.
    pub fn open(self, disk: SharedCursor) -> (r: DataRunReader)
        requires
            runs_wf(self.0@),
        ensures
            r.wf(),
            r.runs_view() == self.0@,
            r.pos_spec() == 0,
    {
        DataRunReader::new(disk, self)
    }
}

/// A seekable, readable stream over the logical byte space of a run
/// list, as if the extents were contiguous.  The cursor is a run index
/// plus an offset within that run; reads go to the physical handle at
/// the run's absolute position plus the offset.
pub struct DataRunReader {
    raw: SharedCursor,
    runs: DataRuns,
    index: usize,
    offset: u64,
}

impl DataRunReader {
    /// The extents the stream is backed by.
    pub closed spec fn runs_view(&self) -> Seq<(u64, u64)> {
        self.runs.0@
    }

    /// The current logical position: the bytes of all prior runs plus
    /// the offset inside the current one.
    pub closed spec fn pos_spec(&self) -> int {
        runs_prefix_len(self.runs.0@, self.index as int) + self.offset
    }

    /// The logical length of the whole stream.
    pub open spec fn total_spec(&self) -> int {
        runs_prefix_len(self.runs_view(), self.runs_view().len() as int)
    }

    /// The run index sits on a run (or nowhere, for an empty list) and
    /// the offset stays inside it.
    pub closed spec fn wf(&self) -> bool {
        &&& runs_wf(self.runs.0@)
        &&& if self.runs.0@.len() == 0 {
            self.index == 0 && self.offset == 0
        } else {
            self.index < self.runs.0@.len() && self.offset <= self.runs.0@[self.index as int].1
        }
    }

    /// A well-formed reader's cursor rests on one of its runs.
    pub proof fn cursor_in_runs(&self)
        requires
            self.wf(),
            self.runs_view().len() > 0,
        ensures
            0 <= self.index_spec() < self.runs_view().len(),
            0 <= self.offset_spec() <= self.runs_view()[self.index_spec()].1,
    {
    }

    /// A well-formed reader's position lies within the mapped bytes.
    pub proof fn pos_in_range(&self)
        requires
            self.wf(),
        ensures
            0 <= runs_prefix_len(self.runs_view(), self.index_spec()),
            0 <= self.pos_spec() <= self.total_spec() <= u64::MAX,
    {
        let s = self.runs.0@;
        if s.len() == 0 {
            assert(runs_prefix_len(s, 0) == 0);
        } else {
            lemma_runs_prefix_mono(s, 0, self.index as int);
            assert(runs_prefix_len(s, self.index + 1) == runs_prefix_len(s, self.index as int)
                + s[self.index as int].1);
            lemma_runs_prefix_mono(s, self.index + 1, s.len() as int);
        }
    }

    /// Starts a stream at the front of the run list.
    pub fn new(raw: SharedCursor, runs: DataRuns) -> (r: DataRunReader)
        requires
            runs_wf(runs.0@),
        ensures
            r.wf(),
            r.runs_view() == runs.0@,
            r.pos_spec() == 0,
    {
        DataRunReader { raw, runs, index: 0, offset: 0 }
    }

    /// How many bytes remain in the current run.
    fn ready(&self) -> (n: u64)
        requires
            self.wf(),
            self.runs.0@.len() > 0,
        ensures
            n == self.runs.0@[self.index as int].1 - self.offset,
    {
        let (_, limit) = self.runs.0[self.index];
        limit - self.offset
    }

    /// Steps to the front of the next run, if any.
    fn next_run(&mut self) -> (b: bool)
        requires
            old(self).wf(),
            old(self).runs_view().len() > 0,
        ensures
            final(self).wf(),
            final(self).runs_view() == old(self).runs_view(),
            final(self).raw == old(self).raw,
            b <==> old(self).index + 1 < old(self).runs_view().len(),
            b ==> final(self).index == old(self).index + 1 && final(self).offset == 0,
            !b ==> *final(self) == *old(self),
    {
        let count: usize = self.runs.0.len();
        if self.index + 1 == count {
            false
        } else {
            self.index = self.index + 1;
            self.offset = 0;
            true
        }
    }

    /// Steps to the back of the previous run, if any.
    fn prev_run(&mut self) -> (b: bool)
        requires
            old(self).wf(),
            old(self).runs_view().len() > 0,
        ensures
            final(self).wf(),
            final(self).runs_view() == old(self).runs_view(),
            final(self).raw == old(self).raw,
            b <==> old(self).index > 0,
            b ==> final(self).index == old(self).index - 1
                && final(self).offset == final(self).runs_view()[final(self).index as int].1,
            !b ==> *final(self) == *old(self),
    {
        if self.index == 0 {
            false
        } else {
            self.index = self.index - 1;
            let (_, limit) = self.runs.0[self.index];
            self.offset = limit;
            true
        }
    }

    /// The visible fields the reader's contracts speak of: index into the
    /// runs and offset inside the current run.
    pub closed spec fn index_spec(&self) -> int {
        self.index as int
    }

    pub closed spec fn offset_spec(&self) -> int {
        self.offset as int
    }

    /// Whether a read can yield nothing more from this position: the run
    /// list is empty, the cursor rests at the end of the last run, or the
    /// next physical byte lies at or past the device's end.
    pub open spec fn end_of_stream(&self, contents: Seq<u8>) -> bool {
        if self.runs_view().len() == 0 {
            true
        } else {
            let runs = self.runs_view();
            let fresh = self.index_spec() + 1 < runs.len() && self.offset_spec()
                == runs[self.index_spec()].1;
            let i = if fresh {
                self.index_spec() + 1
            } else {
                self.index_spec()
            };
            let o = if fresh {
                0int
            } else {
                self.offset_spec()
            };
            o == runs[i].1 || runs[i].0 + o >= contents.len()
        }
    }

    /// Walks `count` bytes forward across run boundaries.  Succeeds
    /// exactly when the target stays inside the mapped extents.
    fn walk_forward(&mut self, count: u64) -> (r: Result<(), NtfsError>)
        requires
            old(self).wf(),
        ensures
            final(self).wf(),
            final(self).runs_view() == old(self).runs_view(),
            final(self).raw == old(self).raw,
            r is Ok <==> old(self).pos_spec() + count <= old(self).total_spec(),
            r is Ok ==> final(self).pos_spec() == old(self).pos_spec() + count,
            r is Err ==> r == Err::<(), NtfsError>(NtfsError::SeekOutOfRange),
        decreases old(self).runs_view().len() - old(self).index,
    {
        proof {
            self.pos_in_range();
        }
        if count == 0 {
            return Ok(());
        }
        if self.runs.0.len() == 0 {
            return Err(NtfsError::SeekOutOfRange);
        }
        let ready = self.ready();
        proof {
            assert(runs_prefix_len(self.runs.0@, self.index + 1) == runs_prefix_len(
                self.runs.0@,
                self.index as int,
            ) + self.runs.0@[self.index as int].1);
            lemma_runs_prefix_mono(self.runs.0@, self.index + 1, self.runs.0@.len() as int);
        }
        if ready >= count {
            self.offset = self.offset + count;
            Ok(())
        } else {
            if !self.next_run() {
                return Err(NtfsError::SeekOutOfRange);
            }
            self.walk_forward(count - ready)
        }
    }

    /// Walks `count` bytes backward across run boundaries.  Succeeds
    /// exactly when the target does not fall before the stream's start.
    fn walk_backward(&mut self, count: u64) -> (r: Result<(), NtfsError>)
        requires
            old(self).wf(),
        ensures
            final(self).wf(),
            final(self).runs_view() == old(self).runs_view(),
            final(self).raw == old(self).raw,
            r is Ok <==> count <= old(self).pos_spec(),
            r is Ok ==> final(self).pos_spec() == old(self).pos_spec() - count,
            r is Err ==> r == Err::<(), NtfsError>(NtfsError::SeekOutOfRange),
        decreases old(self).index,
    {
        proof {
            self.pos_in_range();
        }
        if count == 0 {
            return Ok(());
        }
        if self.offset >= count {
            self.offset = self.offset - count;
            return Ok(());
        }
        if self.runs.0.len() == 0 {
            return Err(NtfsError::SeekOutOfRange);
        }
        let consumed = self.offset;
        proof {
            if self.index == 0 {
                assert(runs_prefix_len(self.runs.0@, 0) == 0);
            } else {
                assert(runs_prefix_len(self.runs.0@, self.index as int) == runs_prefix_len(
                    self.runs.0@,
                    self.index - 1,
                ) + self.runs.0@[self.index - 1].1);
            }
        }
        if !self.prev_run() {
            return Err(NtfsError::SeekOutOfRange);
        }
        self.walk_backward(count - consumed)
    }

    /// The current logical position, counted by summing the prior runs.
    pub fn stream_position(&self) -> (p: u64)
        requires
            self.wf(),
        ensures
            p == self.pos_spec(),
    {
        let mut sum: u64 = 0;
        let mut i: usize = 0;
        proof {
            self.pos_in_range();
            assert(runs_prefix_len(self.runs.0@, 0) == 0);
        }
        while i < self.index
            invariant
                i <= self.index,
                self.wf(),
                sum == runs_prefix_len(self.runs.0@, i as int),
                runs_prefix_len(self.runs.0@, self.index as int) + self.offset <= u64::MAX,
            decreases self.index - i,
        {
            proof {
                lemma_runs_prefix_mono(self.runs.0@, i + 1, self.index as int);
            }
            let (_, limit) = self.runs.0[i];
            sum = sum + limit;
            i = i + 1;
        }
        sum + self.offset
    }

    /// Repositions the logical cursor within the mapped byte space.
    /// Seeking past the extents in either direction is refused; the
    /// device itself is only repositioned by the next read.
    pub fn seek(&mut self, pos: SeekPos) -> (r: Result<u64, NtfsError>)
        requires
            old(self).wf(),
        ensures
            final(self).wf(),
            final(self).runs_view() == old(self).runs_view(),
            ({
                let target: int = match pos {
                    SeekPos::Start(o) => o as int,
                    SeekPos::End(o) => old(self).total_spec() + o,
                    SeekPos::Current(o) => old(self).pos_spec() + o,
                };
                &&& (r is Ok <==> 0 <= target <= old(self).total_spec())
                &&& r matches Ok(p) ==> final(self).pos_spec() == target && p == target
                &&& r is Err ==> r == Err::<u64, NtfsError>(NtfsError::SeekOutOfRange)
            }),
    {
        proof {
            self.pos_in_range();
        }
        let result = match pos {
            SeekPos::Start(o) => {
                self.index = 0;
                self.offset = 0;
                self.walk_forward(o)
            },
            SeekPos::End(o) => {
                let len = self.runs.0.len();
                if len > 0 {
                    self.index = len - 1;
                    let (_, limit) = self.runs.0[len - 1];
                    self.offset = limit;
                    proof {
                        assert(runs_prefix_len(self.runs.0@, len as int) == runs_prefix_len(
                            self.runs.0@,
                            len - 1,
                        ) + self.runs.0@[len - 1].1);
                    }
                }
                proof {
                    self.pos_in_range();
                }
                if o >= 0 {
                    self.walk_forward(o as u64)
                } else {
                    let m: u64 = (-(o + 1)) as u64 + 1;
                    self.walk_backward(m)
                }
            },
            SeekPos::Current(o) => {
                if o >= 0 {
                    self.walk_forward(o as u64)
                } else {
                    let m: u64 = (-(o + 1)) as u64 + 1;
                    self.walk_backward(m)
                }
            },
        };
        match result {
            Ok(()) => Ok(self.stream_position()),
            Err(e) => Err(e),
        }
    }

    /// Reads up to `n` bytes at the logical position, never crossing the
    /// current run's end: an exhausted run advances to the next, an
    /// exhausted run list yields end-of-stream.  The device is seeked to
    /// the run's absolute position plus offset only when it is not
    /// already there.
    pub fn read<D: Disk>(&mut self, disk: &mut SharedFile<D>, n: usize) -> (r: Result<
        Vec<u8>,
        NtfsError,
    >)
        requires
            old(self).wf(),
            old(disk).wf(),
        ensures
            final(self).wf(),
            final(disk).wf(),
            final(self).runs_view() == old(self).runs_view(),
            final(disk).contents() == old(disk).contents(),
            r matches Ok(v) ==> final(self).pos_spec() == old(self).pos_spec() + v@.len(),
            r is Err ==> final(self).pos_spec() == old(self).pos_spec(),
            r matches Err(e) ==> e == NtfsError::Device,
            old(self).runs_view().len() == 0 ==> r is Ok,
            (old(self).runs_view().len() > 0 && old(self).index_spec() + 1 == old(
                self,
            ).runs_view().len() && old(self).offset_spec() == old(self).runs_view()[old(
                self,
            ).index_spec()].1) ==> r is Ok,
            r matches Ok(v) ==> (v@.len() == 0 <==> n == 0 || old(self).end_of_stream(
                old(disk).contents(),
            )),
            r matches Ok(v) ==> (runs_in_contents(old(self).runs_view(), old(disk).contents())
                ==> v@ == stream_view(old(self).runs_view(), old(disk).contents()).subrange(
                old(self).pos_spec(),
                old(self).pos_spec() + v@.len(),
            )),
            r matches Ok(v) ==> ({
                let runs = old(self).runs_view();
                let fresh = old(self).index_spec() + 1 < runs.len() && old(self).offset_spec()
                    == runs[old(self).index_spec()].1;
                let i = if fresh {
                    old(self).index_spec() + 1
                } else {
                    old(self).index_spec()
                };
                let o = if fresh {
                    0int
                } else {
                    old(self).offset_spec()
                };
                &&& v@.len() <= n
                &&& runs.len() > 0 ==> ({
                    let phys = runs[i].0 + o;
                    &&& o + v@.len() <= runs[i].1
                    &&& final(self).index_spec() == i && final(self).offset_spec() == o + v@.len()
                    &&& v@.len() > 0 ==> phys + v@.len() <= old(disk).contents().len() && v@ == old(
                        disk,
                    ).contents().subrange(phys, phys + v@.len())
                    &&& (o < runs[i].1 ==> final(disk).device_seeks() == old(disk).device_seeks()
                        + (if old(disk).device_pos() == phys {
                        0int
                    } else {
                        1int
                    }))
                    &&& (v@.len() == 0 <==> n == 0 || o == runs[i].1 || phys >= old(
                        disk,
                    ).contents().len())
                })
                &&& runs.len() == 0 ==> v@.len() == 0 && *final(self) == *old(self)
            }),
    {
        proof {
            self.pos_in_range();
            if runs_in_contents(self.runs.0@, disk.contents()) {
                lemma_stream_view_len(self.runs.0@, disk.contents());
                assert(stream_view(self.runs.0@, disk.contents()).subrange(
                    self.pos_spec(),
                    self.pos_spec(),
                ) =~= Seq::<u8>::empty());
            }
        }
        if self.runs.0.len() == 0 {
            return Ok(Vec::new());
        }
        let mut ready = self.ready();
        if ready == 0 {
            if !self.next_run() {
                return Ok(Vec::new());
            }
            ready = self.ready();
            proof {
                assert(runs_prefix_len(self.runs.0@, self.index as int) == runs_prefix_len(
                    self.runs.0@,
                    self.index - 1,
                ) + self.runs.0@[self.index - 1].1);
            }
        }
        let ghost g_index = self.index as int;
        let ghost g_offset = self.offset as int;
        let (global, _) = self.runs.0[self.index];
        let phys: u64 = global + self.offset;
        match disk.seek(&mut self.raw, phys) {
            Ok(()) => (),
            Err(e) => {
                return Err(e);
            },
        }
        let limit: usize = if n as u64 <= ready {
            n
        } else {
            ready as usize
        };
        let v = match disk.read(&mut self.raw, limit) {
            Ok(v) => v,
            Err(e) => {
                return Err(e);
            },
        };
        proof {
            if runs_in_contents(self.runs.0@, old(disk).contents()) && v@.len() > 0 {
                lemma_stream_view_run_piece(
                    self.runs.0@,
                    old(disk).contents(),
                    g_index,
                    g_offset,
                    v@.len() as int,
                );
            }
        }
        self.offset = self.offset + v.len() as u64;
        Ok(v)
    }
}

/// Executable mirror of [`pow256`].
fn pow256_exec(n: usize) -> (p: u128)
    requires
        n <= 8,
    ensures
        p as nat == pow256(n as nat),
        p >= 1,
{
    let mut p: u128 = 1;
    let mut i: usize = 0;
    proof {
        crate::flat::lemma_pow256_increases(n as nat, 8);
        reveal_with_fuel(pow256, 9);
    }
    while i < n
        invariant
            i <= n <= 8,
            p as nat == pow256(i as nat),
            pow256(n as nat) <= pow256(8),
            pow256(8) == 0x1_0000_0000_0000_0000,
        decreases n - i,
    {
        proof {
            crate::flat::lemma_pow256_increases(i as nat + 1, n as nat);
        }
        p = p * 256;
        i = i + 1;
    }
    p
}

} // verus!
