//! The bit-level codec: packing flag values against a resolved schema into
//! the byte-packed or boolean-array form, and unpacking either form.

use vstd::prelude::*;

use crate::schema::{bytes_for_bits, ResolvedSchema, SchemaError};
use vstd::arithmetic::div_mod::{lemma_fundamental_div_mod, lemma_mod_bound};

verus! {

/// True when bit `pos` of `byte` is set (least-significant bit is bit 0).
pub open spec fn byte_bit(byte: u8, pos: u8) -> bool
    recommends
        pos < 8,
{
    byte & (1u8 << pos) != 0
}

/// The value packed at bit index `b`: the value of the last flag declared
/// with index `b`, or `false` when no flag claims `b`.
pub open spec fn packed_bit(indices: Seq<usize>, values: Seq<bool>, b: int) -> bool
    recommends
        indices.len() == values.len(),
    decreases indices.len(),
{
    if indices.len() == 0 {
        false
    } else if indices.last() == b {
        values.last()
    } else {
        packed_bit(indices.drop_last(), values.drop_last(), b)
    }
}

/// `bytes` is the byte-packed encoding of `values` under `s`: exactly
/// `s.total_bytes` bytes, and bit `p` of byte `k` holds the value packed at
/// bit index `8 * k + p`.
pub open spec fn is_byte_encoding(s: ResolvedSchema, values: Seq<bool>, bytes: Seq<u8>) -> bool {
    &&& bytes.len() == s.total_bytes
    &&& forall|k: int, p: u8|
        0 <= k < bytes.len() && p < 8 ==> (#[trigger] byte_bit(bytes[k], p)) == packed_bit(
            s.indices@,
            values,
            8 * k + p,
        )
}

/// What decoding the byte form reads: flag `j` takes bit `indices[j] % 8` of
/// byte `indices[j] / 8`.
pub open spec fn spec_decode_bytes(s: ResolvedSchema, bytes: Seq<u8>) -> Seq<bool> {
    Seq::new(
        s.flag_count(),
        |j: int| byte_bit(bytes[s.indices@[j] as int / 8], (s.indices@[j] % 8) as u8),
    )
}

/// The boolean-array encoding of `values` under `s`: slot `i` holds the value
/// packed at bit index `i`.
pub open spec fn spec_encode_bits(s: ResolvedSchema, values: Seq<bool>) -> Seq<bool> {
    Seq::new(s.total_bits as nat, |i: int| packed_bit(s.indices@, values, i))
}

/// What decoding the boolean-array form reads: flag `j` takes slot
/// `indices[j]`.
pub open spec fn spec_decode_bits(s: ResolvedSchema, bits: Seq<bool>) -> Seq<bool> {
    Seq::new(s.flag_count(), |j: int| bits[s.indices@[j] as int])
}

/// Setting bit `p` makes bit `p` true and leaves every other bit alone.
proof fn lemma_set_bit(x: u8, p: u8, q: u8)
    by (bit_vector)
    requires
        p < 8,
        q < 8,
    ensures
        byte_bit(x | (1u8 << p), p),
        p != q ==> byte_bit(x | (1u8 << p), q) == byte_bit(x, q),
{
}

/// Clearing bit `p` makes bit `p` false and leaves every other bit alone.
proof fn lemma_clear_bit(x: u8, p: u8, q: u8)
    by (bit_vector)
    requires
        p < 8,
        q < 8,
    ensures
        !byte_bit(x & !(1u8 << p), p),
        p != q ==> byte_bit(x & !(1u8 << p), q) == byte_bit(x, q),
{
}

/// The zero byte has no bit set.
proof fn lemma_zero_byte(p: u8)
    by (bit_vector)
    requires
        p < 8,
    ensures
        !byte_bit(0u8, p),
{
}

/// A bit index below the bit width lands in a byte below the byte width.
proof fn lemma_byte_index_bound(idx: int, total_bits: int)
    requires
        0 <= idx < total_bits,
    ensures
        0 <= idx / 8 < bytes_for_bits(total_bits),
        0 <= idx % 8 < 8,
        8 * (idx / 8) + idx % 8 == idx,
{
    lemma_fundamental_div_mod(idx, 8);
    lemma_fundamental_div_mod(total_bits, 8);
    lemma_mod_bound(idx, 8);
    lemma_mod_bound(total_bits, 8);
}

/// Packs `values` against `schema` into the byte form: `schema.total_bytes`
/// bytes, least-significant bit first within each byte.  Bits no flag claims
/// stay 0; when flags collide on an index, the last one declared wins.
#[verifier::loop_isolation(false)]
pub fn encode_bytes(schema: &ResolvedSchema, values: &Vec<bool>) -> (out: Vec<u8>)
    requires
        schema.wf(),
        values@.len() == schema.flag_count(),
    ensures
        is_byte_encoding(*schema, values@, out@),
{
    let n = schema.indices.len();
    let mut out: Vec<u8> = Vec::new();
    for k in 0..schema.total_bytes
        invariant
            out@.len() == k,
            forall|i: int, p: u8| 0 <= i < k && p < 8 ==> !(#[trigger] byte_bit(out@[i], p)),
    {
        out.push(0u8);
        proof {
            assert forall|p: u8| p < 8 implies !byte_bit(0u8, p) by {
                lemma_zero_byte(p);
            }
        }
    }
    for j in 0..n
        invariant
            out@.len() == schema.total_bytes,
            forall|k: int, p: u8|
                0 <= k < out@.len() && p < 8 ==> (#[trigger] byte_bit(out@[k], p)) == packed_bit(
                    schema.indices@.take(j as int),
                    values@.take(j as int),
                    8 * k + p,
                ),
    {
        let idx = schema.indices[j];
        proof {
            lemma_byte_index_bound(idx as int, schema.total_bits as int);
        }
        let ki: usize = idx / 8;
        let pos: u8 = (idx % 8) as u8;
        let mask: u8 = 1u8 << pos;
        let old_byte: u8 = out[ki];
        let new_byte: u8 = if values[j] {
            old_byte | mask
        } else {
            old_byte & !mask
        };
        out.set(ki, new_byte);
        proof {
            let gind = schema.indices@;
            let gval = values@;
            assert(gind.take(j + 1).drop_last() =~= gind.take(j as int));
            assert(gval.take(j + 1).drop_last() =~= gval.take(j as int));
            assert forall|k: int, p: u8| 0 <= k < out@.len() && p < 8 implies (#[trigger] byte_bit(
                out@[k],
                p,
            )) == packed_bit(gind.take(j + 1), gval.take(j + 1), 8 * k + p) by {
                if k == ki && p == pos {
                    assert(8 * k + p == idx);
                    if gval[j as int] {
                        lemma_set_bit(old_byte, pos, p);
                    } else {
                        lemma_clear_bit(old_byte, pos, p);
                    }
                } else {
                    assert(8 * k + p != idx);
                    if k == ki {
                        if gval[j as int] {
                            lemma_set_bit(old_byte, pos, p);
                        } else {
                            lemma_clear_bit(old_byte, pos, p);
                        }
                    }
                }
            }
        }
    }
    proof {
        assert(schema.indices@.take(n as int) =~= schema.indices@);
        assert(values@.take(n as int) =~= values@);
    }
    out
}

/// Unpacks the byte form: flag `j` reads bit `indices[j] % 8` of byte
/// `indices[j] / 8`.  A buffer of any length other than `schema.total_bytes`
/// is rejected with [`SchemaError::SizeMismatch`].
#[verifier::loop_isolation(false)]
pub fn decode_bytes(schema: &ResolvedSchema, bytes: &Vec<u8>) -> (r: Result<
    Vec<bool>,
    SchemaError,
>)
    requires
        schema.wf(),
    ensures
        r is Ok <==> bytes@.len() == schema.total_bytes,
        r matches Ok(v) ==> v@ == spec_decode_bytes(*schema, bytes@),
        r matches Err(e) ==> e matches SchemaError::SizeMismatch { expected, actual }
            && expected == schema.total_bytes && actual == bytes@.len(),
{
    if bytes.len() != schema.total_bytes {
        return Err(
            SchemaError::SizeMismatch { expected: schema.total_bytes, actual: bytes.len() },
        );
    }
    let n = schema.indices.len();
    let mut vals: Vec<bool> = Vec::new();
    for j in 0..n
        invariant
            bytes@.len() == schema.total_bytes,
            vals@.len() == j,
            forall|i: int|
                0 <= i < j ==> (#[trigger] vals@[i]) == byte_bit(
                    bytes@[schema.indices@[i] as int / 8],
                    (schema.indices@[i] % 8) as u8,
                ),
    {
        let idx = schema.indices[j];
        proof {
            lemma_byte_index_bound(idx as int, schema.total_bits as int);
        }
        let b: u8 = bytes[idx / 8];
        let pos: u8 = (idx % 8) as u8;
        vals.push(b & (1u8 << pos) != 0);
    }
    proof {
        assert(vals@ =~= spec_decode_bytes(*schema, bytes@));
    }
    Ok(vals)
}

/// Packs `values` against `schema` into the boolean-array form:
/// `schema.total_bits` slots, slot `i` holding the value of the flag with bit
/// index `i`.  Slots no flag claims stay `false`; when flags collide on an
/// index, the last one declared wins.
#[verifier::loop_isolation(false)]
pub fn encode_bits(schema: &ResolvedSchema, values: &Vec<bool>) -> (out: Vec<bool>)
    requires
        schema.wf(),
        values@.len() == schema.flag_count(),
    ensures
        out@ == spec_encode_bits(*schema, values@),
{
    let n = schema.indices.len();
    let mut out: Vec<bool> = Vec::new();
    for k in 0..schema.total_bits
        invariant
            out@.len() == k,
            forall|i: int| 0 <= i < k ==> !(#[trigger] out@[i]),
    {
        out.push(false);
    }
    for j in 0..n
        invariant
            out@.len() == schema.total_bits,
            forall|i: int|
                0 <= i < out@.len() ==> (#[trigger] out@[i]) == packed_bit(
                    schema.indices@.take(j as int),
                    values@.take(j as int),
                    i,
                ),
    {
        out.set(schema.indices[j], values[j]);
        proof {
            assert(schema.indices@.take(j + 1).drop_last() =~= schema.indices@.take(j as int));
            assert(values@.take(j + 1).drop_last() =~= values@.take(j as int));
        }
    }
    proof {
        assert(schema.indices@.take(n as int) =~= schema.indices@);
        assert(values@.take(n as int) =~= values@);
        assert(out@ =~= spec_encode_bits(*schema, values@));
    }
    out
}

/// Unpacks the boolean-array form: flag `j` reads slot `indices[j]`.  A
/// buffer of any length other than `schema.total_bits` is rejected with
/// [`SchemaError::SizeMismatch`].
#[verifier::loop_isolation(false)]
pub fn decode_bits(schema: &ResolvedSchema, bits: &Vec<bool>) -> (r: Result<Vec<bool>, SchemaError>)
    requires
        schema.wf(),
    ensures
        r is Ok <==> bits@.len() == schema.total_bits,
        r matches Ok(v) ==> v@ == spec_decode_bits(*schema, bits@),
        r matches Err(e) ==> e matches SchemaError::SizeMismatch { expected, actual } && expected
            == schema.total_bits && actual == bits@.len(),
{
    if bits.len() != schema.total_bits {
        return Err(SchemaError::SizeMismatch { expected: schema.total_bits, actual: bits.len() });
    }
    let n = schema.indices.len();
    let mut vals: Vec<bool> = Vec::new();
    for j in 0..n
        invariant
            bits@.len() == schema.total_bits,
            vals@.len() == j,
            forall|i: int|
                0 <= i < j ==> (#[trigger] vals@[i]) == bits@[schema.indices@[i] as int],
    {
        vals.push(bits[schema.indices[j]]);
    }
    proof {
        assert(vals@ =~= spec_decode_bits(*schema, bits@));
    }
    Ok(vals)
}

/// Without a collision, the bit packed at flag `j`'s own index is flag `j`'s
/// value.
proof fn lemma_packed_bit_at(indices: Seq<usize>, values: Seq<bool>, j: int)
    requires
        values.len() == indices.len(),
        0 <= j < indices.len(),
        forall|a: int, b: int|
            0 <= a < b < indices.len() ==> #[trigger] indices[a] != #[trigger] indices[b],
    ensures
        packed_bit(indices, values, indices[j] as int) == values[j],
    decreases indices.len(),
{
    if j < indices.len() - 1 {
        assert(indices.last() != indices[j]);
        lemma_packed_bit_at(indices.drop_last(), values.drop_last(), j);
    }
}

/// Round trip, byte form: when no two flags of `schema` share a bit index,
/// decoding any byte encoding of `values` yields `values` again.  The
/// hypotheses on `bytes` are exactly what [`encode_bytes`] ensures of its
/// result, so the law covers every encode/decode pair.
pub proof fn lemma_byte_round_trip(schema: ResolvedSchema, values: Seq<bool>, bytes: Seq<u8>)
    requires
        schema.wf(),
        schema.no_collision(),
        values.len() == schema.flag_count(),
        is_byte_encoding(schema, values, bytes),
    ensures
        spec_decode_bytes(schema, bytes) == values,
{
    assert forall|j: int| 0 <= j < values.len() implies spec_decode_bytes(schema, bytes)[j]
        == values[j] by {
        let idx = schema.indices@[j] as int;
        lemma_byte_index_bound(idx, schema.total_bits as int);
        let k = idx / 8;
        let p = (idx % 8) as u8;
        assert(8 * k + p == idx);
        assert(byte_bit(bytes[k], p) == packed_bit(schema.indices@, values, idx));
        lemma_packed_bit_at(schema.indices@, values, j);
    }
    assert(spec_decode_bytes(schema, bytes) =~= values);
}

/// Round trip, boolean-array form: when no two flags of `schema` share a bit
/// index, decoding the array encoding of `values` yields `values` again.
pub proof fn lemma_bit_array_round_trip(schema: ResolvedSchema, values: Seq<bool>)
    requires
        schema.wf(),
        schema.no_collision(),
        values.len() == schema.flag_count(),
    ensures
        spec_decode_bits(schema, spec_encode_bits(schema, values)) == values,
{
    assert forall|j: int| 0 <= j < values.len() implies spec_decode_bits(
        schema,
        spec_encode_bits(schema, values),
    )[j] == values[j] by {
        lemma_packed_bit_at(schema.indices@, values, j);
    }
    assert(spec_decode_bits(schema, spec_encode_bits(schema, values)) =~= values);
}

/// Reports whether every flag of `schema` holds a bit index of its own.
#[verifier::loop_isolation(false)]
pub fn check_no_collision(schema: &ResolvedSchema) -> (r: bool)
    ensures
        r == schema.no_collision(),
{
    let n = schema.indices.len();
    for a in 0..n
        invariant
            forall|i: int, k: int|
                0 <= i < a && i < k < n ==> #[trigger] schema.indices@[i]
                    != #[trigger] schema.indices@[k],
    {
        for b in (a + 1)..n
            invariant
                forall|i: int, k: int|
                    0 <= i < a && i < k < n ==> #[trigger] schema.indices@[i]
                        != #[trigger] schema.indices@[k],
                forall|k: int|
                    a < k < b ==> #[trigger] schema.indices@[a as int] != schema.indices@[k],
        {
            if schema.indices[a] == schema.indices[b] {
                return false;
            }
        }
    }
    true
}

} // verus!
