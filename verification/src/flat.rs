//! Typed views over raw bytes.
//!
//! Every on-disk field of an NTFS structure is a fixed-width little-endian
//! integer at a fixed byte offset, deliberately unaligned.  This module is
//! the one place that turns byte ranges into typed values and back:
//! scalars implement [`Flat`]/[`FlatMut`], whole on-disk structures
//! implement [`FlatDataImpl`] (and [`FlatDataImplMut`] where laying them
//! back down is wanted, to assemble volume images), and the extension
//! traits [`LoadExt`]/[`StoreExt`] give sequential, cursor-style access.
use vstd::arithmetic::div_mod::lemma_fundamental_div_mod;
use vstd::prelude::*;

verus! {

/// 256 raised to `n`: the number of values a run of `n` bytes can hold.
pub open spec fn pow256(n: nat) -> nat
    decreases n,
{
    if n == 0 {
        1
    } else {
        256 * pow256((n - 1) as nat)
    }
}

/// The value of a little-endian byte sequence; the first byte is the least
/// significant.
pub open spec fn le_value(s: Seq<u8>) -> nat
    decreases s.len(),
{
    if s.len() == 0 {
        0
    } else {
        (s[0] + 256 * le_value(s.subrange(1, s.len() as int))) as nat
    }
}

/// The `n` little-endian bytes that encode `v % pow256(n)`.
pub open spec fn le_bytes_of(v: nat, n: nat) -> Seq<u8>
    decreases n,
{
    if n == 0 {
        Seq::empty()
    } else {
        seq![(v % 256) as u8] + le_bytes_of(v / 256, (n - 1) as nat)
    }
}

pub proof fn lemma_le_value_bound(s: Seq<u8>)
    ensures
        le_value(s) < pow256(s.len()),
    decreases s.len(),
{
    if s.len() > 0 {
        lemma_le_value_bound(s.subrange(1, s.len() as int));
    }
}

/// Peeling the first byte off a little-endian range.
pub proof fn lemma_le_value_unfold(s: Seq<u8>, a: int, b: int)
    requires
        0 <= a < b <= s.len(),
    ensures
        le_value(s.subrange(a, b)) == s[a] + 256 * le_value(s.subrange(a + 1, b)),
{
    let whole = s.subrange(a, b);
    assert(whole.subrange(1, whole.len() as int) =~= s.subrange(a + 1, b));
}

pub proof fn lemma_le_bytes_of_value(v: nat, n: nat)
    requires
        v < pow256(n),
    ensures
        le_bytes_of(v, n).len() == n,
        le_value(le_bytes_of(v, n)) == v,
    decreases n,
{
    if n > 0 {
        lemma_fundamental_div_mod(v as int, 256);
        lemma_le_bytes_of_value(v / 256, (n - 1) as nat);
        let s = le_bytes_of(v, n);
        assert(s.subrange(1, s.len() as int) =~= le_bytes_of(v / 256, (n - 1) as nat));
    }
}

/// A little-endian range decodes back to the bytes it came from: the
/// encoding at each width is one to one.
pub proof fn lemma_le_bytes_of_le_value(s: Seq<u8>)
    ensures
        le_bytes_of(le_value(s), s.len()) == s,
    decreases s.len(),
{
    if s.len() > 0 {
        let tail = s.subrange(1, s.len() as int);
        lemma_le_value_bound(tail);
        lemma_fundamental_div_mod(le_value(s) as int, 256);
        assert(le_value(s) == s[0] + 256 * le_value(tail));
        assert(le_value(s) % 256 == s[0] && le_value(s) / 256 == le_value(tail)) by {
            vstd::arithmetic::div_mod::lemma_mod_multiples_vanish(
                le_value(tail) as int,
                s[0] as int,
                256,
            );
            vstd::arithmetic::div_mod::lemma_div_multiples_vanish_fancy(
                le_value(tail) as int,
                s[0] as int,
                256,
            );
        }
        lemma_le_bytes_of_le_value(tail);
        assert(le_bytes_of(le_value(s), s.len()) =~= s);
    }
}

/// Loads a `width`-byte little-endian integer found `offset` bytes into
/// `src`.  This is the one workhorse every typed read goes through; the
/// data-run decoder calls it directly with variable widths.
pub fn load_le(src: &[u8], offset: usize, width: usize) -> (v: u64)
    requires
        offset + width <= src@.len(),
        width <= 8,
    ensures
        v as nat == le_value(src@.subrange(offset as int, offset + width)),
{
    let mut acc: u64 = 0;
    let mut i: usize = width;
    let slen: usize = src.len();
    proof {
        assert(offset + width <= slen);
        assert(src@.subrange(offset + width, offset + width) =~= Seq::<u8>::empty());
    }
    while i > 0
        invariant
            i <= width <= 8,
            offset + width <= src@.len(),
            offset + width <= usize::MAX,
            acc as nat == le_value(src@.subrange(offset + i, offset + width)),
        decreases i,
    {
        i = i - 1;
        proof {
            lemma_le_value_unfold(src@, offset + i, offset + width);
            lemma_le_value_bound(src@.subrange(offset + i + 1, offset + width));
            lemma_pow256_increases((width - i - 1) as nat, 7);
            reveal_with_fuel(pow256, 9);
        }
        acc = acc * 256 + (src[offset + i] as u64);
    }
    acc
}

pub proof fn lemma_pow256_increases(a: nat, b: nat)
    requires
        a <= b,
    ensures
        pow256(a) <= pow256(b),
    decreases b,
{
    if a < b && b > 0 {
        lemma_pow256_increases(a, (b - 1) as nat);
    }
}

/// Appends the `width`-byte little-endian encoding of `v` to `dst`.
pub fn store_le(dst: &mut Vec<u8>, v: u64, width: usize)
    requires
        width <= 8,
        (v as nat) < pow256(width as nat),
    ensures
        final(dst)@ == old(dst)@ + le_bytes_of(v as nat, width as nat),
{
    let ghost start = dst@;
    let mut rest: u64 = v;
    let mut i: usize = 0;
    proof {
        assert(start + le_bytes_of(v as nat, 0) =~= start);
        assert(pow256(0) == 1);
        assert((v as nat) / 1 == v as nat);
    }
    while i < width
        invariant
            i <= width,
            rest as nat == (v as nat) / pow256(i as nat),
            dst@ == start + le_bytes_of(v as nat, i as nat),
        decreases width - i,
    {
        proof {
            lemma_le_bytes_of_snoc(v as nat, i as nat);
            lemma_pow_div_step(v as nat, i as nat);
        }
        dst.push((rest % 256) as u8);
        rest = rest / 256;
        i = i + 1;
        proof {
            assert(start + le_bytes_of(v as nat, (i - 1) as nat) + seq![
                (((v as nat) / pow256((i - 1) as nat) % 256) as u8),
            ] =~= start + le_bytes_of(v as nat, i as nat));
        }
    }
}

/// Extending a little-endian encoding by one byte appends the next digit.
proof fn lemma_le_bytes_of_snoc(v: nat, n: nat)
    ensures
        le_bytes_of(v, n + 1) == le_bytes_of(v, n) + seq![((v / pow256(n) % 256) as u8)],
    decreases n,
{
    if n == 0 {
        assert(le_bytes_of(v / 256, 0) =~= Seq::<u8>::empty());
        assert(pow256(0) == 1);
        assert(v / 1 == v);
        assert(le_bytes_of(v, 1) =~= le_bytes_of(v, 0) + seq![((v / pow256(0) % 256) as u8)]);
    } else {
        lemma_le_bytes_of_snoc(v / 256, (n - 1) as nat);
        lemma_pow_div_step(v, (n - 1) as nat);
        assert(le_bytes_of(v, n + 1) =~= le_bytes_of(v, n) + seq![((v / pow256(n) % 256) as u8)]);
    }
}

/// Dividing by one more byte-width factor: `v / 256^n / 256 == v / 256^(n+1)`.
proof fn lemma_pow_div_step(v: nat, n: nat)
    ensures
        (v / pow256(n)) / 256 == v / pow256(n + 1),
        (v / 256) / pow256(n) == v / pow256(n + 1),
    decreases n,
{
    lemma_pow256_pos(n);
    vstd::arithmetic::div_mod::lemma_div_denominator(v as int, pow256(n) as int, 256);
    vstd::arithmetic::div_mod::lemma_div_denominator(v as int, 256, pow256(n) as int);
    assert(pow256(n) * 256 == pow256(n + 1)) by {
        lemma_pow256_snoc(n);
    }
    assert(256 * pow256(n) == pow256(n) * 256) by (nonlinear_arith);
}

/// Each byte of a little-endian encoding is the matching base-256 digit.
pub proof fn lemma_le_bytes_of_index(v: nat, n: nat, i: int)
    requires
        0 <= i < n,
    ensures
        le_bytes_of(v, n).len() == n,
        le_bytes_of(v, n)[i] == ((v / pow256(i as nat)) % 256) as u8,
    decreases n,
{
    lemma_le_bytes_of_len(v, n);
    if i == 0 {
        assert(pow256(0) == 1);
        assert(v / 1 == v);
    } else {
        lemma_le_bytes_of_index(v / 256, (n - 1) as nat, i - 1);
        lemma_pow_div_step(v, (i - 1) as nat);
    }
}

pub proof fn lemma_le_bytes_of_len(v: nat, n: nat)
    ensures
        le_bytes_of(v, n).len() == n,
    decreases n,
{
    if n > 0 {
        lemma_le_bytes_of_len(v / 256, (n - 1) as nat);
    }
}

/// Writes the `width`-byte little-endian encoding of `v` over
/// `dst[offset..offset + width]`, leaving every other byte alone.
pub fn store_le_at(dst: &mut Vec<u8>, offset: usize, v: u64, width: usize)
    requires
        offset + width <= old(dst)@.len(),
        width <= 8,
        (v as nat) < pow256(width as nat),
    ensures
        final(dst)@.len() == old(dst)@.len(),
        final(dst)@.subrange(offset as int, offset + width) == le_bytes_of(v as nat, width as nat),
        forall|j: int|
            0 <= j < old(dst)@.len() && !(offset <= j < offset + width) ==> final(dst)@[j] == old(
                dst,
            )@[j],
{
    let mut rest: u64 = v;
    let mut i: usize = 0;
    let dlen: usize = dst.len();
    proof {
        assert(offset + width <= dlen);
        assert(pow256(0) == 1);
        assert((v as nat) / 1 == v as nat);
    }
    while i < width
        invariant
            i <= width <= 8,
            offset + width <= dst@.len(),
            offset + width <= usize::MAX,
            dst@.len() == old(dst)@.len(),
            rest as nat == (v as nat) / pow256(i as nat),
            forall|j: int|
                0 <= j < dst@.len() && !(offset <= j < offset + i) ==> dst@[j] == old(dst)@[j],
            forall|j: int|
                0 <= j < i ==> dst@[offset + j] == le_bytes_of(v as nat, width as nat)[j],
        decreases width - i,
    {
        proof {
            lemma_le_bytes_of_index(v as nat, width as nat, i as int);
            lemma_pow_div_step(v as nat, i as nat);
        }
        dst.set(offset + i, (rest % 256) as u8);
        rest = rest / 256;
        i = i + 1;
    }
    proof {
        lemma_le_bytes_of_len(v as nat, width as nat);
        assert(dst@.subrange(offset as int, offset + width) =~= le_bytes_of(
            v as nat,
            width as nat,
        ));
    }
}

/// Two adjacent subranges concatenate to the covering one.
pub proof fn lemma_adjacent_subranges(s: Seq<u8>, p: int, a: Seq<u8>, b: Seq<u8>)
    requires
        0 <= p,
        p + a.len() + b.len() <= s.len(),
        a == s.subrange(p, p + a.len()),
        b == s.subrange(p + a.len(), p + a.len() + b.len()),
    ensures
        a + b == s.subrange(p, p + a.len() + b.len()),
{
    assert forall|i: int| 0 <= i < a.len() + b.len() implies (a + b)[i] == s[p + i] by {
        if i < a.len() {
            assert((a + b)[i] == a[i]);
            assert(s.subrange(p, p + a.len())[i] == s[p + i]);
        } else {
            assert((a + b)[i] == b[i - a.len()]);
            assert(s.subrange(p + a.len(), p + a.len() + b.len())[i - a.len()] == s[p + i]);
        }
    }
    assert(a + b =~= s.subrange(p, p + a.len() + b.len()));
}

pub proof fn lemma_pow256_pos(n: nat)
    ensures
        pow256(n) >= 1,
    decreases n,
{
    if n > 0 {
        lemma_pow256_pos((n - 1) as nat);
    }
}

proof fn lemma_pow256_snoc(n: nat)
    ensures
        pow256(n) * 256 == pow256(n + 1),
    decreases n,
{
    if n > 0 {
        lemma_pow256_snoc((n - 1) as nat);
        assert(pow256(n) * 256 == 256 * (pow256((n - 1) as nat) * 256)) by (nonlinear_arith)
            requires
                pow256(n) == 256 * pow256((n - 1) as nat),
        ;
    }
}

/// Anything with a fixed on-disk width.
pub trait FlatBase: Sized {
    /// The number of bytes the type occupies on disk.
    spec fn size() -> nat;

    /// Executable mirror of [`Self::size`].
    fn flat_size() -> (n: usize)
        ensures
            n as nat == Self::size(),
            1 <= n,
    ;
}

/// A scalar that is read from its little-endian on-disk bytes.
pub trait Flat: FlatBase {
    /// The value that a run of `size()` bytes decodes to.
    spec fn decode_spec(s: Seq<u8>) -> Self;

    /// Reads the value found `offset` bytes into `src`.
    fn load(src: &[u8], offset: usize) -> (v: Self)
        requires
            offset + Self::size() <= src@.len(),
        ensures
            v == Self::decode_spec(src@.subrange(offset as int, offset + Self::size())),
    ;
}

/// A scalar that can also be written back as little-endian bytes.
pub trait FlatMut: Flat {
    /// The bytes the value encodes to.
    spec fn encode_spec(self) -> Seq<u8>;

    /// The encoding has the declared width and decodes back to the value.
    proof fn encode_decode(self)
        ensures
            self.encode_spec().len() == Self::size(),
            Self::decode_spec(self.encode_spec()) == self,
    ;

    /// Overwrites `dst[offset..offset + size()]` with the encoding and
    /// leaves every other byte alone.
    fn store(self, dst: &mut Vec<u8>, offset: usize)
        requires
            offset + Self::size() <= old(dst)@.len(),
        ensures
            final(dst)@.len() == old(dst)@.len(),
            final(dst)@.subrange(offset as int, offset + Self::size()) == self.encode_spec(),
            forall|j: int|
                0 <= j < old(dst)@.len() && !(offset <= j < offset + Self::size())
                    ==> final(dst)@[j] == old(dst)@[j],
    ;
}

impl FlatBase for u8 {
    open spec fn size() -> nat {
        1
    }

    fn flat_size() -> usize {
        1
    }
}

impl Flat for u8 {
    open spec fn decode_spec(s: Seq<u8>) -> u8 {
        le_value(s) as u8
    }

    fn load(src: &[u8], offset: usize) -> (v: u8) {
        let w = load_le(src, offset, 1);
        proof {
            lemma_le_value_bound(src@.subrange(offset as int, offset + 1));
            reveal_with_fuel(pow256, 2);
        }
        w as u8
    }
}

impl FlatMut for u8 {
    open spec fn encode_spec(self) -> Seq<u8> {
        le_bytes_of(self as nat, 1)
    }

    proof fn encode_decode(self) {
        reveal_with_fuel(pow256, 2);
        lemma_le_bytes_of_value(self as nat, 1);
    }

    fn store(self, dst: &mut Vec<u8>, offset: usize) {
        proof {
            reveal_with_fuel(pow256, 2);
        }
        store_le_at(dst, offset, self as u64, 1);
    }
}

impl FlatBase for u16 {
    open spec fn size() -> nat {
        2
    }

    fn flat_size() -> usize {
        2
    }
}

impl Flat for u16 {
    open spec fn decode_spec(s: Seq<u8>) -> u16 {
        le_value(s) as u16
    }

    fn load(src: &[u8], offset: usize) -> (v: u16) {
        let w = load_le(src, offset, 2);
        proof {
            lemma_le_value_bound(src@.subrange(offset as int, offset + 2));
            reveal_with_fuel(pow256, 3);
        }
        w as u16
    }
}

impl FlatMut for u16 {
    open spec fn encode_spec(self) -> Seq<u8> {
        le_bytes_of(self as nat, 2)
    }

    proof fn encode_decode(self) {
        reveal_with_fuel(pow256, 3);
        lemma_le_bytes_of_value(self as nat, 2);
    }

    fn store(self, dst: &mut Vec<u8>, offset: usize) {
        proof {
            reveal_with_fuel(pow256, 3);
        }
        store_le_at(dst, offset, self as u64, 2);
    }
}

impl FlatBase for u32 {
    open spec fn size() -> nat {
        4
    }

    fn flat_size() -> usize {
        4
    }
}

impl Flat for u32 {
    open spec fn decode_spec(s: Seq<u8>) -> u32 {
        le_value(s) as u32
    }

    fn load(src: &[u8], offset: usize) -> (v: u32) {
        let w = load_le(src, offset, 4);
        proof {
            lemma_le_value_bound(src@.subrange(offset as int, offset + 4));
            reveal_with_fuel(pow256, 5);
        }
        w as u32
    }
}

impl FlatMut for u32 {
    open spec fn encode_spec(self) -> Seq<u8> {
        le_bytes_of(self as nat, 4)
    }

    proof fn encode_decode(self) {
        reveal_with_fuel(pow256, 5);
        lemma_le_bytes_of_value(self as nat, 4);
    }

    fn store(self, dst: &mut Vec<u8>, offset: usize) {
        proof {
            reveal_with_fuel(pow256, 5);
        }
        store_le_at(dst, offset, self as u64, 4);
    }
}

impl FlatBase for u64 {
    open spec fn size() -> nat {
        8
    }

    fn flat_size() -> usize {
        8
    }
}

impl Flat for u64 {
    open spec fn decode_spec(s: Seq<u8>) -> u64 {
        le_value(s) as u64
    }

    fn load(src: &[u8], offset: usize) -> (v: u64) {
        let w = load_le(src, offset, 8);
        proof {
            lemma_le_value_bound(src@.subrange(offset as int, offset + 8));
            reveal_with_fuel(pow256, 9);
        }
        w
    }
}

impl FlatMut for u64 {
    open spec fn encode_spec(self) -> Seq<u8> {
        le_bytes_of(self as nat, 8)
    }

    proof fn encode_decode(self) {
        reveal_with_fuel(pow256, 9);
        lemma_le_bytes_of_value(self as nat, 8);
    }

    fn store(self, dst: &mut Vec<u8>, offset: usize) {
        proof {
            reveal_with_fuel(pow256, 9);
        }
        store_le_at(dst, offset, self, 8);
    }
}

/// A structured on-disk record, decoded as a whole from a byte buffer.
/// Scalars get [`Flat`]; multi-field structures get this.
pub trait FlatDataImpl: FlatBase {
    /// The structure that a run of `size()` bytes describes.
    spec fn read_spec(s: Seq<u8>) -> Self;

    /// Decodes the structure found `offset` bytes into `src`.
    fn load_at(src: &[u8], offset: usize) -> (v: Self)
        requires
            offset + Self::size() <= src@.len(),
        ensures
            v == Self::read_spec(src@.subrange(offset as int, offset + Self::size())),
    ;
}

/// A structured record that can also be laid back down as bytes, used to
/// assemble volume images that exercise the decoder.
pub trait FlatDataImplMut: FlatDataImpl {
    /// The bytes the structure lays down.
    spec fn write_spec(self) -> Seq<u8>;

    /// Appends the structure's bytes to `dst`.
    fn append_to(self, dst: &mut Vec<u8>)
        ensures
            final(dst)@ == old(dst)@ + self.write_spec(),
            self.write_spec().len() == Self::size(),
    ;
}

/// Sequential typed reads: a source of bytes that hands out one value
/// after another, consuming its input.
pub trait LoadExt {
    /// The bytes not yet consumed.
    spec fn loadable(&self) -> Seq<u8>;

    /// Reads one byte and advances past it.
    fn load_u8(&mut self) -> (v: u8)
        requires
            old(self).loadable().len() >= 1,
        ensures
            v == old(self).loadable()[0],
            final(self).loadable() == old(self).loadable().skip(1),
    ;

    /// Reads `n` raw bytes and advances past them.
    fn load_bytes(&mut self, n: usize) -> (v: Vec<u8>)
        requires
            old(self).loadable().len() >= n,
        ensures
            v@ == old(self).loadable().take(n as int),
            final(self).loadable() == old(self).loadable().skip(n as int),
    ;
}

/// A read cursor over borrowed bytes; the [`LoadExt`] impl advances it.
pub struct ByteCursor<'a> {
    data: &'a [u8],
    pos: usize,
}

impl<'a> ByteCursor<'a> {
    #[verifier::type_invariant]
    spec fn wf(self) -> bool {
        self.pos <= self.data@.len()
    }

    pub fn new(data: &'a [u8]) -> (c: ByteCursor<'a>)
        ensures
            c.loadable() == data@,
    {
        let c = ByteCursor { data, pos: 0 };
        proof {
            assert(c.loadable() =~= data@);
        }
        c
    }
}

impl<'a> LoadExt for ByteCursor<'a> {
    closed spec fn loadable(&self) -> Seq<u8> {
        if self.pos <= self.data@.len() {
            self.data@.subrange(self.pos as int, self.data@.len() as int)
        } else {
            Seq::empty()
        }
    }

    fn load_u8(&mut self) -> (v: u8) {
        proof {
            use_type_invariant(&*self);
        }
        let _len: usize = self.data.len();
        let v = self.data[self.pos];
        self.pos = self.pos + 1;
        proof {
            assert(final(self).loadable() =~= old(self).loadable().skip(1));
        }
        v
    }

    fn load_bytes(&mut self, n: usize) -> (v: Vec<u8>) {
        proof {
            use_type_invariant(&*self);
        }
        let _len: usize = self.data.len();
        let piece = vstd::slice::slice_subrange(self.data, self.pos, self.pos + n);
        let v = vstd::slice::slice_to_vec(piece);
        self.pos = self.pos + n;
        proof {
            assert(old(self).loadable().take(n as int) =~= self.data@.subrange(
                old(self).pos as int,
                old(self).pos + n,
            ));
            assert(final(self).loadable() =~= old(self).loadable().skip(n as int));
        }
        v
    }
}

/// Sequential typed writes: a sink that grows by one encoded value at a
/// time, used to assemble on-disk images.
pub trait StoreExt {
    /// Everything written so far.
    spec fn stored(&self) -> Seq<u8>;

    fn store_u8(&mut self, v: u8)
        ensures
            final(self).stored() == old(self).stored().push(v),
    ;

    fn store_u16(&mut self, v: u16)
        ensures
            final(self).stored() == old(self).stored() + le_bytes_of(v as nat, 2),
    ;

    fn store_u32(&mut self, v: u32)
        ensures
            final(self).stored() == old(self).stored() + le_bytes_of(v as nat, 4),
    ;

    fn store_u64(&mut self, v: u64)
        ensures
            final(self).stored() == old(self).stored() + le_bytes_of(v as nat, 8),
    ;

    fn store_bytes(&mut self, v: &[u8])
        ensures
            final(self).stored() == old(self).stored() + v@,
    ;
}

impl StoreExt for Vec<u8> {
    open spec fn stored(&self) -> Seq<u8> {
        self@
    }

    fn store_u8(&mut self, v: u8) {
        self.push(v);
    }

    fn store_u16(&mut self, v: u16) {
        proof {
            reveal_with_fuel(pow256, 3);
        }
        store_le(self, v as u64, 2);
    }

    fn store_u32(&mut self, v: u32) {
        proof {
            reveal_with_fuel(pow256, 5);
        }
        store_le(self, v as u64, 4);
    }

    fn store_u64(&mut self, v: u64) {
        proof {
            reveal_with_fuel(pow256, 9);
        }
        store_le(self, v, 8);
    }

    fn store_bytes(&mut self, v: &[u8]) {
        let ghost start = self@;
        let mut i: usize = 0;
        while i < v.len()
            invariant
                i <= v@.len(),
                self@ == start + v@.take(i as int),
            decreases v@.len() - i,
        {
            self.push(v[i]);
            i = i + 1;
            proof {
                assert(start + v@.take(i - 1) + seq![v@[i - 1]] =~= start + v@.take(i as int));
            }
        }
        proof {
            assert(start + v@.take(v@.len() as int) =~= start + v@);
        }
    }
}

} // verus!
