//! The per-record affine transform.
//!
//! A particle record stores, after 8 bytes of flags and energy, four
//! single-precision fields: position `x_cm`, `y_cm` (offsets 8 and 12) and
//! direction cosines `x_cos`, `y_cos` (offsets 16 and 20). A geometric
//! operation is a 3×3 matrix on homogeneous 2-D coordinates; positions
//! receive the full affine map, direction cosines only its linear part (a
//! direction must not be translated). Every other byte of the record passes
//! through unchanged.

use crate::fp::{add_bits, fadd, fmul, mul_bits};
use crate::le::{read_u32_at, write_u32_at};
use vstd::bytes::*;
use vstd::prelude::*;

verus! {

/// A 3×3 affine matrix on homogeneous 2-D coordinates `(x, y, 1)`. Entries
/// are kept as the bit patterns of their single-precision values; only the
/// two upper rows ever reach a record.
#[derive(Clone, Copy, Debug, PartialEq, Eq, Structural)]
pub struct Matrix {
    pub m00: u32,
    pub m01: u32,
    pub m02: u32,
    pub m10: u32,
    pub m11: u32,
    pub m12: u32,
    pub m20: u32,
    pub m21: u32,
    pub m22: u32,
}

impl Matrix {
    /// Builds a matrix from the bit patterns of its entries, row by row.
    pub fn new(
        m00: u32,
        m01: u32,
        m02: u32,
        m10: u32,
        m11: u32,
        m12: u32,
        m20: u32,
        m21: u32,
        m22: u32,
    ) -> (m: Matrix)
        ensures
            m == (Matrix { m00, m01, m02, m10, m11, m12, m20, m21, m22 }),
    {
        Matrix { m00, m01, m02, m10, m11, m12, m20, m21, m22 }
    }
}

/// The little-endian 32-bit field at byte offset `off` of a record.
pub open spec fn spec_field(rec: Seq<u8>, off: int) -> u32 {
    spec_u32_from_le_bytes(rec.subrange(off, off + 4))
}

/// Transformed x position: full affine row 0, `m00*x + m01*y + m02`, each
/// step in single precision.
pub open spec fn spec_new_x(m: Matrix, x: u32, y: u32) -> u32 {
    add_bits(add_bits(mul_bits(m.m00, x), mul_bits(m.m01, y)), m.m02)
}

/// Transformed y position: full affine row 1, `m10*x + m11*y + m12`.
pub open spec fn spec_new_y(m: Matrix, x: u32, y: u32) -> u32 {
    add_bits(add_bits(mul_bits(m.m10, x), mul_bits(m.m11, y)), m.m12)
}

/// Transformed x direction cosine: linear part of row 0 only.
pub open spec fn spec_new_x_cos(m: Matrix, x_cos: u32, y_cos: u32) -> u32 {
    add_bits(mul_bits(m.m00, x_cos), mul_bits(m.m01, y_cos))
}

/// Transformed y direction cosine: linear part of row 1 only.
pub open spec fn spec_new_y_cos(m: Matrix, x_cos: u32, y_cos: u32) -> u32 {
    add_bits(mul_bits(m.m10, x_cos), mul_bits(m.m11, y_cos))
}

/// A record (or a buffer starting with one) after the transform: bytes 8..24
/// are replaced by the four transformed fields, computed from the original
/// values; everything else is kept.
pub open spec fn spec_transform_fields(m: Matrix, rec: Seq<u8>) -> Seq<u8>
    recommends
        rec.len() >= 24,
{
    let x = spec_field(rec, 8);
    let y = spec_field(rec, 12);
    let x_cos = spec_field(rec, 16);
    let y_cos = spec_field(rec, 20);
    rec.subrange(0, 8) + spec_u32_to_le_bytes(spec_new_x(m, x, y)) + spec_u32_to_le_bytes(
        spec_new_y(m, x, y),
    ) + spec_u32_to_le_bytes(spec_new_x_cos(m, x_cos, y_cos)) + spec_u32_to_le_bytes(
        spec_new_y_cos(m, x_cos, y_cos),
    ) + rec.skip(24)
}

/// The transform touches only bytes 8..24: it keeps a record's length, and
/// appending bytes after a record does not change what the record becomes.
pub proof fn lemma_transform_fields_append(m: Matrix, rec: Seq<u8>, rest: Seq<u8>)
    requires
        rec.len() >= 24,
    ensures
        spec_transform_fields(m, rec).len() == rec.len(),
        spec_transform_fields(m, rec + rest) == spec_transform_fields(m, rec) + rest,
{
    lemma_auto_spec_u32_to_from_le_bytes();
    assert((rec + rest).subrange(0, 8) =~= rec.subrange(0, 8));
    assert((rec + rest).subrange(8, 12) =~= rec.subrange(8, 12));
    assert((rec + rest).subrange(12, 16) =~= rec.subrange(12, 16));
    assert((rec + rest).subrange(16, 20) =~= rec.subrange(16, 20));
    assert((rec + rest).subrange(20, 24) =~= rec.subrange(20, 24));
    assert((rec + rest).skip(24) =~= rec.skip(24) + rest);
    assert(spec_transform_fields(m, rec + rest) =~= spec_transform_fields(m, rec) + rest);
}

/// Applies the matrix to the record whose bytes start at `at`, in place. All
/// four outputs are computed from the record's original field values before
/// any of them is written back.
pub fn transform_record(buf: &mut Vec<u8>, at: usize, m: &Matrix)
    requires
        at + 24 <= old(buf).len(),
    ensures
        final(buf)@ == old(buf)@.take(at as int) + spec_transform_fields(
            *m,
            old(buf)@.skip(at as int),
        ),
        final(buf)@.len() == old(buf)@.len(),
{
    let ghost orig = old(buf)@;
    let ghost tail = orig.skip(at as int);
    proof {
        assert(tail.subrange(8, 12) =~= orig.subrange(at as int + 8, at as int + 12));
        assert(tail.subrange(12, 16) =~= orig.subrange(at as int + 12, at as int + 16));
        assert(tail.subrange(16, 20) =~= orig.subrange(at as int + 16, at as int + 20));
        assert(tail.subrange(20, 24) =~= orig.subrange(at as int + 20, at as int + 24));
    }
    let x = read_u32_at(buf, at + 8);
    let y = read_u32_at(buf, at + 12);
    let x_cos = read_u32_at(buf, at + 16);
    let y_cos = read_u32_at(buf, at + 20);
    let new_x = fadd(fadd(fmul(m.m00, x), fmul(m.m01, y)), m.m02);
    let new_y = fadd(fadd(fmul(m.m10, x), fmul(m.m11, y)), m.m12);
    let new_x_cos = fadd(fmul(m.m00, x_cos), fmul(m.m01, y_cos));
    let new_y_cos = fadd(fmul(m.m10, x_cos), fmul(m.m11, y_cos));
    write_u32_at(buf, at + 8, new_x);
    write_u32_at(buf, at + 12, new_y);
    write_u32_at(buf, at + 16, new_x_cos);
    write_u32_at(buf, at + 20, new_y_cos);
    proof {
        lemma_auto_spec_u32_to_from_le_bytes();
        assert(buf@ =~= orig.take(at as int) + spec_transform_fields(*m, tail));
    }
}

/// The record region after the transform: every whole leading record of
/// `data` is transformed in turn; a trailing partial record (shorter than the
/// record length `l`) is left as it is.
pub open spec fn spec_transform_records(m: Matrix, data: Seq<u8>, l: int) -> Seq<u8>
    recommends
        l >= 24,
    decreases data.len(),
{
    if l < 24 || data.len() < l {
        data
    } else {
        spec_transform_fields(m, data.take(l)) + spec_transform_records(m, data.skip(l), l)
    }
}

/// Transforming a region of `n` whole records followed by anything equals
/// transforming the records and the rest separately: record boundaries, not
/// buffer boundaries, decide what is transformed.
pub proof fn lemma_transform_records_concat(m: Matrix, a: Seq<u8>, b: Seq<u8>, n: int, l: int)
    requires
        l >= 24,
        n >= 0,
        a.len() == n * l,
    ensures
        spec_transform_records(m, a + b, l) == spec_transform_records(m, a, l)
            + spec_transform_records(m, b, l),
        spec_transform_records(m, a, l).len() == a.len(),
    decreases n,
{
    if n == 0 {
        assert(a.len() == 0) by (nonlinear_arith)
            requires
                a.len() == n * l,
                n == 0,
        ;
        assert(a + b =~= b);
        assert(spec_transform_records(m, a, l) =~= Seq::<u8>::empty());
        assert(spec_transform_records(m, a, l) + spec_transform_records(m, b, l)
            =~= spec_transform_records(m, b, l));
    } else {
        assert(a.len() >= l && (a.len() - l) == (n - 1) * l) by (nonlinear_arith)
            requires
                a.len() == n * l,
                n >= 1,
                l >= 24,
        ;
        assert((a + b).take(l) =~= a.take(l));
        assert((a + b).skip(l) =~= a.skip(l) + b);
        lemma_transform_records_concat(m, a.skip(l), b, n - 1, l);
        lemma_transform_fields_append(m, a.take(l), a.skip(l));
        assert(a.take(l) + a.skip(l) =~= a);
        assert(spec_transform_records(m, a, l) == spec_transform_fields(m, a.take(l))
            + spec_transform_records(m, a.skip(l), l));
        assert(spec_transform_records(m, a + b, l) =~= spec_transform_records(m, a, l)
            + spec_transform_records(m, b, l));
    }
}

/// Whether applying `m1` and then `m2` returns each of the four stored
/// field values — position and direction, given by bit pattern — to itself.
pub open spec fn spec_fields_round_trip(
    m1: Matrix,
    m2: Matrix,
    x: u32,
    y: u32,
    x_cos: u32,
    y_cos: u32,
) -> bool {
    &&& spec_new_x(m2, spec_new_x(m1, x, y), spec_new_y(m1, x, y)) == x
    &&& spec_new_y(m2, spec_new_x(m1, x, y), spec_new_y(m1, x, y)) == y
    &&& spec_new_x_cos(m2, spec_new_x_cos(m1, x_cos, y_cos), spec_new_y_cos(m1, x_cos, y_cos))
        == x_cos
    &&& spec_new_y_cos(m2, spec_new_x_cos(m1, x_cos, y_cos), spec_new_y_cos(m1, x_cos, y_cos))
        == y_cos
}

/// Whether `m1` followed by `m2` returns this record's transformed fields to
/// their original bit patterns.
pub open spec fn spec_record_round_trips(m1: Matrix, m2: Matrix, rec: Seq<u8>) -> bool {
    spec_fields_round_trip(
        m1,
        m2,
        spec_field(rec, 8),
        spec_field(rec, 12),
        spec_field(rec, 16),
        spec_field(rec, 20),
    )
}

/// The record of `data` that starts at index `k * l`.
pub open spec fn spec_record_at(data: Seq<u8>, l: int, k: int) -> Seq<u8> {
    data.subrange(k * l, k * l + l)
}

/// Whether `m1` followed by `m2` returns every whole record of `data` to its
/// original bytes.
pub open spec fn spec_all_records_round_trip(m1: Matrix, m2: Matrix, data: Seq<u8>, l: int) -> bool {
    forall|k: int|
        0 <= k && (k + 1) * l <= data.len() ==> spec_record_round_trips(
            m1,
            m2,
            #[trigger] spec_record_at(data, l, k),
        )
}

/// One record comes back byte for byte under a transform pair whose
/// arithmetic inverts on its stored field values: the untransformed bytes
/// never move, and the four fields return to their original bit patterns.
pub proof fn lemma_record_round_trip(m1: Matrix, m2: Matrix, rec: Seq<u8>)
    requires
        rec.len() >= 24,
        spec_record_round_trips(m1, m2, rec),
    ensures
        spec_transform_fields(m2, spec_transform_fields(m1, rec)) == rec,
{
    lemma_auto_spec_u32_to_from_le_bytes();
    let x = spec_field(rec, 8);
    let y = spec_field(rec, 12);
    let x_cos = spec_field(rec, 16);
    let y_cos = spec_field(rec, 20);
    let t1 = spec_transform_fields(m1, rec);
    assert(t1.subrange(0, 8) =~= rec.subrange(0, 8));
    assert(t1.subrange(8, 12) =~= spec_u32_to_le_bytes(spec_new_x(m1, x, y)));
    assert(t1.subrange(12, 16) =~= spec_u32_to_le_bytes(spec_new_y(m1, x, y)));
    assert(t1.subrange(16, 20) =~= spec_u32_to_le_bytes(spec_new_x_cos(m1, x_cos, y_cos)));
    assert(t1.subrange(20, 24) =~= spec_u32_to_le_bytes(spec_new_y_cos(m1, x_cos, y_cos)));
    assert(t1.skip(24) =~= rec.skip(24));
    assert(spec_u32_to_le_bytes(x) =~= rec.subrange(8, 12));
    assert(spec_u32_to_le_bytes(y) =~= rec.subrange(12, 16));
    assert(spec_u32_to_le_bytes(x_cos) =~= rec.subrange(16, 20));
    assert(spec_u32_to_le_bytes(y_cos) =~= rec.subrange(20, 24));
    assert(spec_transform_fields(m2, t1) =~= rec);
}

/// A region of `n` whole records comes back byte for byte under a transform
/// pair whose arithmetic inverts on every record's stored field values.
pub proof fn lemma_records_round_trip(m1: Matrix, m2: Matrix, data: Seq<u8>, n: int, l: int)
    requires
        l >= 24,
        n >= 0,
        data.len() == n * l,
        spec_all_records_round_trip(m1, m2, data, l),
    ensures
        spec_transform_records(m2, spec_transform_records(m1, data, l), l) == data,
    decreases n,
{
    if n == 0 {
        assert(data.len() == 0) by (nonlinear_arith)
            requires
                data.len() == n * l,
                n == 0,
        ;
        assert(spec_transform_records(m1, data, l) == data);
        assert(spec_transform_records(m2, data, l) == data);
    } else {
        assert(data.len() >= l && data.len() - l == (n - 1) * l) by (nonlinear_arith)
            requires
                data.len() == n * l,
                n >= 1,
                l >= 24,
        ;
        let rec = data.take(l);
        let rest = data.skip(l);
        assert(rec =~= spec_record_at(data, l, 0)) by {
            assert(0 * l == 0 && 0 * l + l == l) by (nonlinear_arith);
        }
        assert(spec_record_round_trips(m1, m2, rec));
        lemma_record_round_trip(m1, m2, rec);
        // every whole record of the tail is a whole record of the data,
        // shifted by one record slot
        assert forall|k: int| 0 <= k && (k + 1) * l <= rest.len() implies spec_record_round_trips(
            m1,
            m2,
            #[trigger] spec_record_at(rest, l, k),
        ) by {
            assert(k * l + l == (k + 1) * l && (k + 1) * l + l == (k + 2) * l && (k + 2) * l <= l
                + rest.len()) by (nonlinear_arith)
                requires
                    0 <= k,
                    (k + 1) * l <= rest.len(),
                    l >= 24,
            ;
            assert(spec_record_at(rest, l, k) =~= spec_record_at(data, l, k + 1));
            assert(spec_record_round_trips(m1, m2, spec_record_at(data, l, k + 1)));
        }
        lemma_records_round_trip(m1, m2, rest, n - 1, l);
        let t1rec = spec_transform_fields(m1, rec);
        let t1rest = spec_transform_records(m1, rest, l);
        lemma_transform_fields_append(m1, rec, Seq::<u8>::empty());
        assert(t1rec.len() == l) by {
            assert(spec_transform_fields(m1, rec + Seq::<u8>::empty()) =~= spec_transform_fields(
                m1,
                rec,
            ));
        }
        assert(spec_transform_records(m1, data, l) == t1rec + t1rest);
        lemma_transform_records_concat(m2, t1rec, t1rest, 1, l);
        assert(t1rec.len() == 1 * l) by (nonlinear_arith)
            requires
                t1rec.len() == l,
        ;
        assert(t1rec.take(l) =~= t1rec);
        assert(t1rec.skip(l) =~= Seq::<u8>::empty());
        assert(spec_transform_records(m2, t1rec, l) == spec_transform_fields(m2, t1rec.take(l))
            + spec_transform_records(m2, t1rec.skip(l), l));
        assert(spec_transform_records(m2, t1rec, l) =~= spec_transform_fields(m2, t1rec));
        assert(spec_transform_records(m2, spec_transform_records(m1, data, l), l) =~= rec + rest);
        assert(rec + rest =~= data);
    }
}

/// Adding one whole record to a region of `n` whole records transforms the
/// new record after the region.
pub proof fn lemma_transform_records_snoc(m: Matrix, a: Seq<u8>, rec: Seq<u8>, n: int, l: int)
    requires
        l >= 24,
        n >= 0,
        a.len() == n * l,
        rec.len() == l,
    ensures
        spec_transform_records(m, a + rec, l) == spec_transform_records(m, a, l)
            + spec_transform_fields(m, rec),
{
    lemma_transform_records_concat(m, a, rec, n, l);
    assert(rec.take(l) =~= rec);
    assert(rec.skip(l) =~= Seq::<u8>::empty());
    lemma_transform_fields_append(m, rec, Seq::<u8>::empty());
    assert(spec_transform_fields(m, rec.take(l)) + spec_transform_records(m, rec.skip(l), l)
        =~= spec_transform_fields(m, rec));
}

} // verus!
