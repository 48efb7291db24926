//! Fixed-width records written into an output buffer, and the
//! little-endian encoding of their 32-bit fields.

use vstd::prelude::*;

verus! {

/// The four bytes of `v`, least significant first.
pub open spec fn le32(v: u32) -> Seq<u8> {
    seq![
        (v & 0xff) as u8,
        ((v >> 8u32) & 0xff) as u8,
        ((v >> 16u32) & 0xff) as u8,
        ((v >> 24u32) & 0xff) as u8,
    ]
}

/// The value of four bytes read least significant first.
pub open spec fn le32_value(b: Seq<u8>) -> int
    recommends
        b.len() == 4,
{
    b[0] + 256 * b[1] + 65536 * b[2] + 16777216 * b[3]
}

/// Reading back the four bytes that encode `v` gives `v`.
pub proof fn lemma_le32_roundtrip(v: u32)
    ensures
        le32(v).len() == 4,
        le32_value(le32(v)) == v,
{
    let b0 = (v & 0xff) as u8;
    let b1 = ((v >> 8u32) & 0xff) as u8;
    let b2 = ((v >> 16u32) & 0xff) as u8;
    let b3 = ((v >> 24u32) & 0xff) as u8;
    assert(b0 + 256 * b1 + 65536 * b2 + 16777216 * b3 == v) by (bit_vector)
        requires
            b0 == (v & 0xff) as u8,
            b1 == ((v >> 8u32) & 0xff) as u8,
            b2 == ((v >> 16u32) & 0xff) as u8,
            b3 == ((v >> 24u32) & 0xff) as u8,
    ;
}

/// The little-endian bytes of `v`.
pub fn le32_bytes(v: u32) -> (r: Vec<u8>)
    ensures
        r@ == le32(v),
{
    let r = vec![
        (v & 0xff) as u8,
        ((v >> 8u32) & 0xff) as u8,
        ((v >> 16u32) & 0xff) as u8,
        ((v >> 24u32) & 0xff) as u8,
    ];
    assert(r@ =~= le32(v));
    r
}

/// `s` with the bytes from `pos` on replaced by `bytes`.
pub open spec fn splice(s: Seq<u8>, pos: int, bytes: Seq<u8>) -> Seq<u8> {
    s.subrange(0, pos) + bytes + s.subrange(pos + bytes.len(), s.len() as int)
}

/// Block `k` of width `width` of `s`.
pub open spec fn block_at(s: Seq<u8>, k: int, width: nat) -> Seq<u8> {
    s.subrange(k * width, k * width + width)
}

/// `new` is `old` with its first `count` blocks of `width` bytes replaced,
/// block `k` by `block(k, b)` where `b` is what block `k` held before, and
/// every byte after them left as it was.
pub open spec fn blocks_written(
    old: Seq<u8>,
    new: Seq<u8>,
    width: nat,
    count: nat,
    block: spec_fn(int, Seq<u8>) -> Seq<u8>,
) -> bool {
    &&& new.len() == old.len()
    &&& count * width <= old.len()
    &&& forall|k: int|
        0 <= k < count ==> #[trigger] block_at(new, k, width) == block(k, block_at(old, k, width))
    &&& forall|i: int| count * width <= i < new.len() ==> new[i] == old[i]
}

/// Writing nothing leaves the buffer as it was.
pub proof fn lemma_blocks_written_none(
    old: Seq<u8>,
    width: nat,
    block: spec_fn(int, Seq<u8>) -> Seq<u8>,
)
    ensures
        blocks_written(old, old, width, 0, block),
{
}

/// Writing the next block, computed from what that block held, extends
/// the written prefix by one block.
pub proof fn lemma_blocks_written_next(
    old: Seq<u8>,
    cur: Seq<u8>,
    width: nat,
    count: nat,
    block: spec_fn(int, Seq<u8>) -> Seq<u8>,
    rec: Seq<u8>,
)
    requires
        width > 0,
        blocks_written(old, cur, width, count, block),
        (count + 1) * width <= old.len(),
        rec.len() == width,
        rec == block(count as int, block_at(old, count as int, width)),
    ensures
        blocks_written(old, splice(cur, (count * width) as int, rec), width, count + 1, block),
{
    let new = splice(cur, (count * width) as int, rec);
    let base = count * width;
    assert(base + width == (count + 1) * width) by (nonlinear_arith)
        requires base == count * width;
    assert forall|k: int| 0 <= k < count + 1 implies #[trigger] block_at(new, k, width) == block(
        k,
        block_at(old, k, width),
    ) by {
        if k < count {
            assert(k * width + width <= base) by (nonlinear_arith)
                requires base == count * width, k < count, k >= 0;
            assert(0 <= k * width) by (nonlinear_arith)
                requires k >= 0;
            assert(block_at(new, k, width) =~= block_at(cur, k, width));
        } else {
            assert(k * width == base);
            assert(block_at(new, k, width) =~= rec);
            assert(block_at(old, k, width) =~= block_at(cur, k, width));
        }
    }
}

/// Copies `bytes` into `out` from position `pos` on.
pub fn write_bytes(out: &mut Vec<u8>, pos: usize, bytes: &Vec<u8>)
    requires
        pos + bytes@.len() <= old(out)@.len(),
    ensures
        final(out)@ == splice(old(out)@, pos as int, bytes@),
{
    let ghost start = out@;
    let n = out.len();
    let mut i: usize = 0;
    while i < bytes.len()
        invariant
            n == start.len(),
            pos + bytes@.len() <= start.len(),
            i <= bytes@.len(),
            out@ == splice(start, pos as int, bytes@.subrange(0, i as int)),
        decreases bytes.len() - i,
    {
        out.set(pos + i, bytes[i]);
        assert(out@ =~= splice(start, pos as int, bytes@.subrange(0, i + 1)));
        i = i + 1;
    }
    assert(bytes@.subrange(0, i as int) =~= bytes@);
}

} // verus!
