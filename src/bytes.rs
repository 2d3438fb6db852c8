use vstd::prelude::*;

verus! {

/// Byte `k` (0 is the least significant) of `x`.
pub open spec fn byte_of(x: u32, k: int) -> u8 {
    ((x as int / pow256(k)) % 256) as u8
}

pub open spec fn pow256(k: int) -> int
    decreases k,
{
    if k <= 0 {
        1
    } else {
        256 * pow256(k - 1)
    }
}

/// The four bytes of `x`, least significant first.
pub fn u32_le_bytes(x: u32) -> (r: [u8; 4])
    ensures
        forall|k: int| 0 <= k < 4 ==> #[trigger] r@[k] == byte_of(x, k),
{
    let b0 = (x & 0xff) as u8;
    let b1 = ((x >> 8u32) & 0xff) as u8;
    let b2 = ((x >> 16u32) & 0xff) as u8;
    let b3 = ((x >> 24u32) & 0xff) as u8;
    proof {
        assert(pow256(1) == 256 && pow256(2) == 65536 && pow256(3) == 16777216) by {
            reveal_with_fuel(pow256, 4);
        }
        assert(x & 0xff == x % 256) by (bit_vector);
        assert((x >> 8u32) & 0xff == (x / 256) % 256) by (bit_vector);
        assert((x >> 16u32) & 0xff == (x / 65536) % 256) by (bit_vector);
        assert((x >> 24u32) & 0xff == (x / 16777216) % 256) by (bit_vector);
    }
    [b0, b1, b2, b3]
}

/// An index buffer's contents: each index as four little-endian bytes, in order.
pub fn index_bytes(indices: &Vec<u32>) -> (r: Vec<u8>)
    requires
        indices@.len() * 4 <= usize::MAX,
    ensures
        r@.len() == indices@.len() * 4,
        forall|i: int, k: int| 0 <= i < indices@.len() && 0 <= k < 4
            ==> #[trigger] r@[i * 4 + k] == byte_of(#[trigger] indices@[i], k),
{
    let mut out: Vec<u8> = Vec::new();
    let mut i: usize = 0;
    while i < indices.len()
        invariant
            i <= indices@.len(),
            out@.len() == i * 4,
            forall|j: int, k: int| 0 <= j < i && 0 <= k < 4 ==> #[trigger] out@[j * 4 + k] == byte_of(#[trigger] indices@[j], k),
        decreases indices@.len() - i,
    {
        let b = u32_le_bytes(indices[i]);
        let ghost before = out@;
        out.push(b[0]);
        out.push(b[1]);
        out.push(b[2]);
        out.push(b[3]);
        proof {
            assert forall|j: int, k: int| 0 <= j < i + 1 && 0 <= k < 4 implies #[trigger] out@[j * 4 + k] == byte_of(#[trigger] indices@[j], k) by {
                if j < i {
                    assert(j * 4 + k < i * 4) by (nonlinear_arith)
                        requires j < i, k < 4;
                    assert(out@[j * 4 + k] == before[j * 4 + k]);
                } else {
                    assert(j * 4 + k == i * 4 + k);
                    assert(out@[i * 4 + k] == b@[k]);
                }
            }
        }
        i = i + 1;
    }
    out
}

} // verus!
