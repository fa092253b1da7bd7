//! Fold levels and XOR helpers for explicit multi-segment folding.

use vstd::prelude::*;
use vstd::arithmetic::power2::pow2;
use crate::error::BitBabblerError;

verus! {

/// Byte-wise XOR of two sequences of equal length.
pub open spec fn xor_bytes(a: Seq<u8>, b: Seq<u8>) -> Seq<u8> {
    Seq::new(a.len(), |i: int| a[i] ^ b[i])
}

/// Successive XOR of the first `segments` consecutive segments of `n`
/// bytes of `block`: the first segment, XORed with the second, then with
/// the third, and so on.
pub open spec fn fold_segments(block: Seq<u8>, segments: nat, n: nat) -> Seq<u8>
    decreases segments,
{
    if segments <= 1 {
        block.take(n as int)
    } else {
        xor_bytes(
            fold_segments(block, (segments - 1) as nat, n),
            block.subrange((segments - 1) * n, (segments * n) as int),
        )
    }
}

/// Explicit XOR folding depth applied only by `get_bits_with_fold`.
///
/// Fold `n` reads `2^n` consecutive raw segments of the requested length and
/// combines them with successive byte-wise XOR. [`Fold::Raw`] (`0`) performs no
/// folding and is the crate default.
#[derive(Debug, Clone, Copy, PartialEq, Eq, Hash, Structural)]
pub enum Fold {
    /// No folding: return raw device bytes (`fold = 0`).
    Raw,
    /// XOR two consecutive raw segments (`fold = 1`).
    One,
    /// XOR four consecutive raw segments (`fold = 2`).
    Two,
    /// XOR eight consecutive raw segments (`fold = 3`).
    Three,
    /// XOR sixteen consecutive raw segments (`fold = 4`).
    Four,
}

impl Fold {
    /// Numeric fold depth in `0..=4`.
    pub open spec fn depth(self) -> nat {
        match self {
            Fold::Raw => 0,
            Fold::One => 1,
            Fold::Two => 2,
            Fold::Three => 3,
            Fold::Four => 4,
        }
    }

    /// Number of raw segments this fold combines.
    pub open spec fn segments(self) -> nat {
        match self {
            Fold::Raw => 1,
            Fold::One => 2,
            Fold::Two => 4,
            Fold::Three => 8,
            Fold::Four => 16,
        }
    }

    /// Numeric fold depth in `0..=4`.
    pub fn as_u8(self) -> (depth: u8)
        ensures
            depth == self.depth(),
            depth <= 4,
            self == Fold::Raw ==> depth == 0,
            self == Fold::One ==> depth == 1,
            self == Fold::Two ==> depth == 2,
            self == Fold::Three ==> depth == 3,
            self == Fold::Four ==> depth == 4,
    {
        match self {
            Fold::Raw => 0,
            Fold::One => 1,
            Fold::Two => 2,
            Fold::Three => 3,
            Fold::Four => 4,
        }
    }

    /// Number of equal-sized raw segments required for this fold.
    pub fn segment_count(self) -> (count: usize)
        ensures
            count == self.segments(),
            1 <= count <= 16,
    {
        let depth = self.as_u8();
        let count = 1usize << depth;
        proof {
            assert(depth <= 4 ==> (depth == 0 ==> 1usize << depth == 1usize) && (depth == 1 ==> 1usize << depth == 2usize)
                && (depth == 2 ==> 1usize << depth == 4usize) && (depth == 3 ==> 1usize << depth == 8usize)
                && (depth == 4 ==> 1usize << depth == 16usize)) by (bit_vector);
        }
        count
    }
}

impl Default for Fold {
    /// [`Fold::Raw`]: raw device bytes.
    fn default() -> (fold: Self)
        ensures
            fold == Fold::Raw,
    {
        Fold::Raw
    }
}

/// What converting a numeric depth into a [`Fold`] gives: the fold of that
/// depth for `0..=4`, [`BitBabblerError::InvalidFold`] for anything else.
pub open spec fn fold_from_depth(value: u8) -> Result<Fold, BitBabblerError> {
    match value {
        0 => Ok(Fold::Raw),
        1 => Ok(Fold::One),
        2 => Ok(Fold::Two),
        3 => Ok(Fold::Three),
        4 => Ok(Fold::Four),
        _ => Err(BitBabblerError::InvalidFold { value }),
    }
}

impl TryFrom<u8> for Fold {
    type Error = BitBabblerError;

    /// Converts a numeric fold depth into a [`Fold`].
    ///
    /// Returns [`BitBabblerError::InvalidFold`] if `value` is outside `0..=4`.
    fn try_from(value: u8) -> (fold: Result<Self, Self::Error>)
        ensures
            fold == fold_from_depth(value),
    {
        match value {
            0 => Ok(Fold::Raw),
            1 => Ok(Fold::One),
            2 => Ok(Fold::Two),
            3 => Ok(Fold::Three),
            4 => Ok(Fold::Four),
            other => Err(BitBabblerError::InvalidFold { value: other }),
        }
    }
}

impl vstd::std_specs::convert::TryFromSpecImpl<u8> for Fold {
    open spec fn obeys_try_from_spec() -> bool {
        true
    }

    open spec fn try_from_spec(value: u8) -> Result<Self, BitBabblerError> {
        fold_from_depth(value)
    }
}

/// The fold levels: `Raw`, `One`, `Two`, `Three` and `Four` are the depths
/// 0 to 4, and XOR 1, 2, 4, 8 and 16 segments; the numeric depths 0 to 4
/// convert back to them, in that order.
pub proof fn lemma_fold_levels()
    ensures
        Fold::Raw.depth() == 0 && Fold::Raw.segments() == 1,
        Fold::One.depth() == 1 && Fold::One.segments() == 2,
        Fold::Two.depth() == 2 && Fold::Two.segments() == 4,
        Fold::Three.depth() == 3 && Fold::Three.segments() == 8,
        Fold::Four.depth() == 4 && Fold::Four.segments() == 16,
        fold_from_depth(0) == Ok::<Fold, BitBabblerError>(Fold::Raw),
        fold_from_depth(1) == Ok::<Fold, BitBabblerError>(Fold::One),
        fold_from_depth(2) == Ok::<Fold, BitBabblerError>(Fold::Two),
        fold_from_depth(3) == Ok::<Fold, BitBabblerError>(Fold::Three),
        fold_from_depth(4) == Ok::<Fold, BitBabblerError>(Fold::Four),
{
}

/// One level deeper XORs twice as many segments: for folds of depths `d`
/// and `d + 1`, the second combines twice the segments of the first.
pub proof fn lemma_fold_depth_doubles(a: Fold, b: Fold)
    requires
        b.depth() == a.depth() + 1,
    ensures
        b.segments() == 2 * a.segments(),
{
}

/// Converting the depth of a fold back gives the same fold, and every
/// accepted depth is the depth of the fold it gives.
pub proof fn lemma_depth_round_trip(fold: Fold, value: u8)
    ensures
        fold_from_depth(fold.depth() as u8) == Ok::<Fold, BitBabblerError>(fold),
        fold_from_depth(value) matches Ok(f) ==> f.depth() == value,
        fold_from_depth(value) is Ok <==> value <= 4,
{
}

/// XOR `src` into `dst` byte by byte. Lengths must match.
pub fn xor_into(dst: &mut Vec<u8>, src: &[u8])
    requires
        old(dst)@.len() == src@.len(),
    ensures
        final(dst)@ == xor_bytes(old(dst)@, src@),
{
    xor_into_at(dst, 0, src);
    assert(old(dst)@.subrange(0, src@.len() as int) == old(dst)@);
    assert(final(dst)@ =~= xor_bytes(old(dst)@, src@));
}

/// XOR `src` into the bytes of `dst` that start at `offset`; the bytes of
/// `dst` outside that window are left as they are.
pub fn xor_into_at(dst: &mut Vec<u8>, offset: usize, src: &[u8])
    requires
        offset + src@.len() <= old(dst)@.len(),
    ensures
        final(dst)@ == old(dst)@.take(offset as int) + xor_bytes(
            old(dst)@.subrange(offset as int, offset + src@.len()),
            src@,
        ) + old(dst)@.skip(offset + src@.len()),
{
    let ghost dst0 = dst@;
    let len = src.len();
    let mut i: usize = 0;
    while i < len
        invariant
            i <= len == src@.len(),
            offset + len <= dst0.len(),
            dst@.len() == dst0.len(),
            offset + len <= dst.len(),
            forall|j: int| 0 <= j < offset + i ==> j < offset ==> #[trigger] dst@[j] == dst0[j],
            forall|j: int| offset <= j < offset + i ==> #[trigger] dst@[j] == dst0[j] ^ src@[j - offset],
            forall|j: int| offset + i <= j < dst0.len() ==> #[trigger] dst@[j] == dst0[j],
        decreases len - i,
    {
        let b = dst[offset + i] ^ src[i];
        dst.set(offset + i, b);
        i = i + 1;
    }
    assert(dst@ =~= dst0.take(offset as int) + xor_bytes(
        dst0.subrange(offset as int, offset + len),
        src@,
    ) + dst0.skip(offset + len));
}

/// Folds a contiguous block of `fold.segment_count()` equal segments.
///
/// This is the whole-block statement of folding that the streaming path in
/// the device handle is proved to match.
pub fn fold_contiguous(block: &[u8], fold: Fold) -> (folded: Vec<u8>)
    requires
        block@.len() % fold.segments() == 0,
    ensures
        folded@ == fold_segments(block@, fold.segments(), block@.len() / fold.segments()),
        folded@.len() == block@.len() / fold.segments(),
{
    let segments = fold.segment_count();
    let n = block.len() / segments;
    proof {
        assert(n * segments <= block@.len()) by (nonlinear_arith)
            requires n as int == block@.len() as int / segments as int, segments > 0;
    }
    let mut out = vstd::slice::slice_to_vec(vstd::slice::slice_subrange(block, 0, n));
    assert(out@ == fold_segments(block@, 1, n as nat));
    let mut seg: usize = 1;
    while seg < segments
        invariant
            1 <= seg <= segments <= 16,
            n * segments <= block.len(),
            out@ == fold_segments(block@, seg as nat, n as nat),
            out@.len() == n,
        decreases segments - seg,
    {
        proof {
            assert(seg * n + n <= segments * n) by (nonlinear_arith)
                requires seg < segments;
            assert(seg * n + n == (seg + 1) * n) by (nonlinear_arith);
            assert(n * segments == segments * n) by (nonlinear_arith);
        }
        let start = seg * n;
        let piece = vstd::slice::slice_subrange(block, start, start + n);
        xor_into(&mut out, piece);
        seg = seg + 1;
    }
    out
}

/// A fold combines `2^depth` segments.
pub proof fn lemma_segments_are_powers_of_two(fold: Fold)
    ensures
        fold.segments() == pow2(fold.depth()),
{
    vstd::arithmetic::power2::lemma2_to64();
}

/// With no folding, the whole-block fold is the block itself.
pub proof fn lemma_raw_fold_is_identity(block: Seq<u8>)
    ensures
        fold_segments(block, Fold::Raw.segments(), block.len()) == block,
{
    assert(block.take(block.len() as int) =~= block);
}

/// Folding while reading and folding a whole block agree: for a block of
/// exactly `fold.segments()` segments of `n` bytes, the fold that
/// [`fold_contiguous`] states (segment length taken from the block) is the
/// fold of `n`-byte segments that the device handle's streaming read states.
pub proof fn lemma_streaming_fold_matches_contiguous(block: Seq<u8>, fold: Fold, n: nat)
    requires
        block.len() == n * fold.segments(),
    ensures
        block.len() % fold.segments() == 0,
        fold_segments(block, fold.segments(), block.len() / fold.segments()) == fold_segments(block, fold.segments(), n),
{
    vstd::arithmetic::div_mod::lemma_div_multiples_vanish(n as int, fold.segments() as int);
    vstd::arithmetic::div_mod::lemma_mod_multiples_basic(n as int, fold.segments() as int);
    assert(n * fold.segments() == fold.segments() * n) by (nonlinear_arith);
}

/// Byte `i` of each of the first `segments` segments of `n` bytes of
/// `block`, XORed together: `block[i] ^ block[n + i] ^ ... ^
/// block[(segments - 1) * n + i]`.
pub open spec fn column_xor(block: Seq<u8>, segments: nat, n: nat, i: int) -> u8
    decreases segments,
{
    if segments <= 1 {
        block[i]
    } else {
        column_xor(block, (segments - 1) as nat, n, i) ^ block[(segments - 1) * n + i]
    }
}

/// A fold is the XOR of the segments byte by byte: byte `i` of the fold of
/// `segments` segments of `n` bytes is byte `i` of every segment, XORed.
pub proof fn lemma_fold_is_columnwise_xor(block: Seq<u8>, segments: nat, n: nat, i: int)
    requires
        1 <= segments,
        segments * n <= block.len(),
        0 <= i < n,
    ensures
        fold_segments(block, segments, n)[i] == column_xor(block, segments, n, i),
    decreases segments,
{
    if segments > 1 {
        assert((segments - 1) * n <= segments * n) by (nonlinear_arith);
        assert(segments * n == (segments - 1) * n + n) by (nonlinear_arith);
        lemma_fold_len(block, (segments - 1) as nat, n);
        lemma_fold_is_columnwise_xor(block, (segments - 1) as nat, n, i);
        let prev = fold_segments(block, (segments - 1) as nat, n);
        let seg = block.subrange((segments - 1) * n, (segments * n) as int);
        assert(seg[i] == block[(segments - 1) * n + i]);
        assert(fold_segments(block, segments, n) == xor_bytes(prev, seg));
        assert(xor_bytes(prev, seg)[i] == prev[i] ^ seg[i]);
    } else {
        assert(n <= block.len()) by (nonlinear_arith)
            requires
                segments == 1,
                segments * n <= block.len(),
        ;
        assert(block.take(n as int)[i] == block[i]);
    }
}

/// Folding keeps the segment length: `segments` segments of `n` bytes fold
/// down to `n` bytes.
pub proof fn lemma_fold_len(block: Seq<u8>, segments: nat, n: nat)
    requires
        1 <= segments,
        segments * n <= block.len(),
    ensures
        fold_segments(block, segments, n).len() == n,
    decreases segments,
{
    assert(n <= segments * n) by (nonlinear_arith)
        requires 1 <= segments;
    if segments > 1 {
        assert((segments - 1) * n <= segments * n) by (nonlinear_arith);
        lemma_fold_len(block, (segments - 1) as nat, n);
    }
}

} // verus!
