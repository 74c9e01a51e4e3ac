//! The streaming record-transform engine.
//!
//! A file is processed in fixed-size chunks whose size need not be a
//! multiple of the record length, so a record may straddle a chunk boundary.
//! The engine keeps the bytes of such a partial record in an explicit
//! pending buffer and prepends them to the next chunk; only whole records
//! are ever transformed and flushed. The copy-mode engine streams into a new
//! buffer; the in-place engine rewrites the records of the buffer it was
//! given. Both leave the header region and all non-geometry record bytes
//! untouched, and both produce exactly the same bytes whatever chunk size
//! drives the loop.

use crate::header::{parse_header, spec_header_of, spec_parse_header, EGSError};
use crate::le::extend_bytes;
use crate::transform::{
    lemma_records_round_trip, lemma_transform_fields_append, lemma_transform_records_concat,
    lemma_transform_records_snoc, spec_all_records_round_trip, spec_transform_records,
    transform_record, Matrix,
};
use vstd::arithmetic::div_mod::lemma_fundamental_div_mod;
use vstd::prelude::*;
use vstd::slice::slice_subrange;

verus! {

/// Default chunk size of the streaming loop.
pub const BUFFER_SIZE: usize = 64 * 1024;

/// A valid file after the transform: the header's record slot is kept
/// verbatim, every particle record is transformed.
pub open spec fn spec_transform_file(m: Matrix, file: Seq<u8>, l: int) -> Seq<u8>
    recommends
        24 <= l <= file.len(),
{
    file.take(l) + spec_transform_records(m, file.skip(l), l)
}

/// What transforming a whole file yields: the error of its header when the
/// file is invalid, otherwise exactly the transformed bytes.
pub open spec fn spec_transform_result(m: Matrix, file: Seq<u8>) -> Result<Seq<u8>, EGSError> {
    match spec_parse_header(file) {
        Err(e) => Err(e),
        Ok(h) => Ok(spec_transform_file(m, file, h.spec_record_length())),
    }
}

/// A transform pair whose arithmetic inverts on every record's stored
/// field values — a translation followed by its negation when the additions
/// round exactly, a half turn applied twice, a reflection applied twice —
/// reproduces a valid file byte for byte: transforming the transformed file
/// returns the original. Copy mode and in-place mode both return exactly
/// the transformed bytes of their contract, so the law covers either order
/// of the two modes.
pub proof fn lemma_transform_pair_round_trip(m1: Matrix, m2: Matrix, file: Seq<u8>)
    requires
        spec_parse_header(file) is Ok,
        spec_all_records_round_trip(
            m1,
            m2,
            file.skip(spec_header_of(file).spec_record_length()),
            spec_header_of(file).spec_record_length(),
        ),
    ensures
        spec_transform_result(m1, file) == Ok::<Seq<u8>, EGSError>(
            spec_transform_file(m1, file, spec_header_of(file).spec_record_length()),
        ),
        spec_transform_result(
            m2,
            spec_transform_file(m1, file, spec_header_of(file).spec_record_length()),
        ) == Ok::<Seq<u8>, EGSError>(file),
{
    let h = spec_header_of(file);
    let l = h.spec_record_length();
    let tp = h.total_particles as int;
    let region = file.skip(l);
    assert(region.len() == tp * l) by (nonlinear_arith)
        requires
            file.len() == (tp + 1) * l,
            region.len() == file.len() - l,
            tp >= 0,
            l >= 24,
    ;
    lemma_transform_records_concat(m1, region, Seq::<u8>::empty(), tp, l);
    assert(region + Seq::<u8>::empty() =~= region);
    let t1 = spec_transform_file(m1, file, l);
    assert(t1.len() == file.len());
    assert(t1.take(l) =~= file.take(l));
    assert(t1.skip(l) =~= spec_transform_records(m1, region, l));
    // the transformed file still parses to the same header: the header
    // bytes did not move and the length is unchanged
    assert(t1.subrange(0, 5) =~= file.subrange(0, 5));
    assert(t1.subrange(5, 9) =~= file.subrange(5, 9));
    assert(t1.subrange(9, 13) =~= file.subrange(9, 13));
    assert(t1.subrange(13, 17) =~= file.subrange(13, 17));
    assert(t1.subrange(17, 21) =~= file.subrange(17, 21));
    assert(t1.subrange(21, 25) =~= file.subrange(21, 25));
    assert(spec_header_of(t1) == h);
    assert(spec_parse_header(t1) == Ok::<_, EGSError>(h));
    lemma_records_round_trip(m1, m2, region, tp, l);
    assert(spec_transform_file(m2, t1, l) =~= file);
}

/// Transforms every whole record found in `work`, in place. `work` holds raw
/// bytes copied from the stream; `n` is the number of whole records at its
/// front, and any bytes past them are left as they are.
fn transform_work(work: &mut Vec<u8>, n: usize, l: usize, matrix: &Matrix)
    requires
        24 <= l,
        n * l <= old(work).len(),
    ensures
        final(work)@ == spec_transform_records(
            *matrix,
            old(work)@.take(n as int * l as int),
            l as int,
        ) + old(work)@.skip(n as int * l as int),
        final(work)@.len() == old(work)@.len(),
{
    let ghost work0 = old(work)@;
    let ghost rl = l as int;
    let ghost nn = n as int;
    let mut i: usize = 0;
    proof {
        assert(work0.take(0) =~= Seq::<u8>::empty());
        assert(work0.skip(0) =~= work0);
        assert(work@ =~= spec_transform_records(*matrix, work0.take(0), rl) + work0.skip(0));
    }
    while i < n
        invariant
            24 <= rl && rl == l && nn == n,
            i <= n,
            nn * rl <= work0.len(),
            work@.len() == work0.len(),
            work@ == spec_transform_records(*matrix, work0.take(i as int * rl), rl) + work0.skip(
                i as int * rl,
            ),
        decreases n - i,
    {
        let ghost ii = i as int;
        proof {
            assert(0 <= ii * rl && (ii + 1) * rl <= nn * rl && ii * rl + rl == (ii + 1) * rl)
                by (nonlinear_arith)
                requires
                    0 <= ii < nn,
                    24 <= rl,
            ;
            lemma_transform_records_concat(
                *matrix,
                work0.take(ii * rl),
                Seq::<u8>::empty(),
                ii,
                rl,
            );
            assert(work.len() == work0.len());
            assert(ii * rl <= nn * rl <= work.len());
        }
        let at = i * l;
        let ghost before = work@;
        transform_record(work, at, matrix);
        proof {
            let a = work0.take(ii * rl);
            let ta = spec_transform_records(*matrix, a, rl);
            let rec = work0.subrange(ii * rl, (ii + 1) * rl);
            let rest = work0.skip((ii + 1) * rl);
            assert(before.take(ii * rl) =~= ta);
            assert(before.skip(ii * rl) =~= work0.skip(ii * rl));
            assert(work0.skip(ii * rl) =~= rec + rest);
            lemma_transform_fields_append(*matrix, rec, rest);
            lemma_transform_records_snoc(*matrix, a, rec, ii, rl);
            assert(work0.take((ii + 1) * rl) =~= a + rec);
            assert(work@ =~= spec_transform_records(*matrix, work0.take((ii + 1) * rl), rl)
                + work0.skip((ii + 1) * rl));
        }
        i = i + 1;
    }
}

/// Streams `input` chunk by chunk, transforms every particle record with
/// `matrix`, and returns the transformed copy of the file. `chunk_size` only
/// drives the streaming loop: the result is stated — and therefore provably
/// the same — for every chunk size. Records straddling a chunk boundary are
/// carried over as pending bytes, never skipped or misaligned.
pub fn transform(input: &Vec<u8>, matrix: &Matrix, chunk_size: usize) -> (r: Result<
    Vec<u8>,
    EGSError,
>)
    requires
        chunk_size >= 1,
    ensures
        match r {
            Ok(out) => spec_transform_result(*matrix, input@) == Ok::<Seq<u8>, EGSError>(out@),
            Err(e) => spec_transform_result(*matrix, input@) == Err::<Seq<u8>, EGSError>(e),
        },
{
    let h = match parse_header(input) {
        Ok(h) => h,
        Err(e) => {
            return Err(e);
        },
    };
    let l = h.record_length();
    let len = input.len();
    let ghost rl = l as int;
    let ghost tp = h.total_particles as int;
    proof {
        assert(rl <= len && tp * rl == len - rl) by (nonlinear_arith)
            requires
                len == (tp + 1) * rl,
                tp >= 0,
                24 <= rl,
        ;
    }
    let mut out: Vec<u8> = Vec::new();
    extend_bytes(&mut out, slice_subrange(input.as_slice(), 0, l));
    let mut pending: Vec<u8> = Vec::new();
    let mut records: usize = 0;
    let mut pos: usize = l;
    proof {
        assert(pending@ =~= input@.subrange(rl + 0 * rl, rl));
        assert(input@.subrange(rl, rl + 0 * rl) =~= Seq::<u8>::empty());
        assert(out@ =~= input@.take(rl) + spec_transform_records(
            *matrix,
            input@.subrange(rl, rl + 0 * rl),
            rl,
        ));
    }
    while pos < len
        invariant
            chunk_size >= 1,
            24 <= rl && rl == l,
            h.total_particles == tp && tp >= 0,
            input@.len() == len,
            len == (tp + 1) * rl,
            rl <= pos <= len,
            records as int * rl + pending@.len() == pos - rl,
            pending@.len() < rl,
            pending@ == input@.subrange(rl + records as int * rl, pos as int),
            out@ == input@.take(rl) + spec_transform_records(
                *matrix,
                input@.subrange(rl, rl + records as int * rl),
                rl,
            ),
        decreases len - pos,
    {
        let ghost recs = records as int;
        proof {
            assert(0 <= recs * rl) by (nonlinear_arith)
                requires
                    recs >= 0,
                    rl >= 24,
            ;
        }
        let end = if len - pos < chunk_size {
            len
        } else {
            pos + chunk_size
        };
        let mut work: Vec<u8> = Vec::new();
        work.append(&mut pending);
        extend_bytes(&mut work, slice_subrange(input.as_slice(), pos, end));
        let ghost work0 = work@;
        proof {
            assert(work0 =~= input@.subrange(rl + recs * rl, end as int));
        }
        let n = work.len() / l;
        let ghost nn = n as int;
        proof {
            lemma_fundamental_div_mod(work0.len() as int, rl);
            assert(nn * rl <= work0.len() && work0.len() - nn * rl < rl) by (nonlinear_arith)
                requires
                    work0.len() as int == rl * nn + (work0.len() as int) % rl,
                    0 <= (work0.len() as int) % rl < rl,
                    rl >= 24,
            ;
        }
        transform_work(&mut work, n, l, matrix);
        proof {
            // The n whole records at the front of the chunk continue the
            // record region exactly where the previous iterations left it.
            assert((recs + nn) * rl == recs * rl + nn * rl) by (nonlinear_arith);
            assert(records + n <= end) by (nonlinear_arith)
                requires
                    recs * rl + nn * rl <= end - rl,
                    recs >= 0,
                    nn >= 0,
                    rl >= 24,
                    recs == records as int,
                    nn == n as int,
                    end >= rl,
            ;
        }
        records = records + n;
        extend_bytes(&mut out, slice_subrange(work.as_slice(), 0, n * l));
        extend_bytes(&mut pending, slice_subrange(work.as_slice(), n * l, work.len()));
        proof {
            let prev = input@.subrange(rl, rl + recs * rl);
            let fresh = work0.take(nn * rl);
            lemma_transform_records_concat(*matrix, prev, fresh, recs, rl);
            lemma_transform_records_concat(*matrix, fresh, Seq::<u8>::empty(), nn, rl);
            assert(input@.subrange(rl, rl + (recs + nn) * rl) =~= prev + fresh);
            assert(work@.subrange(0, nn * rl) =~= spec_transform_records(*matrix, fresh, rl));
            assert(spec_transform_records(*matrix, prev + fresh, rl) =~= spec_transform_records(
                *matrix,
                prev,
                rl,
            ) + spec_transform_records(*matrix, fresh, rl));
            assert(out@ =~= input@.take(rl) + spec_transform_records(
                *matrix,
                input@.subrange(rl, rl + (recs + nn) * rl),
                rl,
            ));
            assert(work@.subrange(nn * rl, work@.len() as int) =~= work0.skip(nn * rl));
            assert(pending@ =~= input@.subrange(rl + (recs + nn) * rl, end as int));
        }
        pos = end;
    }
    // End of stream: a leftover partial record would mean the file was
    // truncated, and the streamed record count must match the header. Both
    // are ruled out by the validated length invariant, so these checks can
    // never fire; they mirror the defensive shape of the streaming design.
    proof {
        assert(records as int == tp && pending@.len() == 0) by (nonlinear_arith)
            requires
                records as int * rl + pending@.len() == len - rl,
                tp * rl == len - rl,
                0 <= pending@.len() < rl,
                rl >= 24,
                records as int >= 0,
                tp >= 0,
        ;
    }
    if pending.len() > 0 {
        return Err(EGSError::TruncatedFile);
    }
    if records != h.total_particles as usize {
        return Err(EGSError::RecordCountMismatch);
    }
    proof {
        assert(input@.subrange(rl, rl + tp * rl) =~= input@.skip(rl));
        assert(out@ =~= spec_transform_file(*matrix, input@, rl));
    }
    Ok(out)
}

/// Transforms the records of `buf` in place with `matrix`. Each record's
/// four geometry fields are rewritten at the offsets they were read from,
/// always computed from the record's original bytes; on an invalid file the
/// buffer is left exactly as it was.
pub fn transform_in_place(buf: &mut Vec<u8>, matrix: &Matrix) -> (r: Result<(), EGSError>)
    ensures
        match r {
            Ok(()) => spec_transform_result(*matrix, old(buf)@) == Ok::<Seq<u8>, EGSError>(
                final(buf)@,
            ),
            Err(e) => spec_transform_result(*matrix, old(buf)@) == Err::<Seq<u8>, EGSError>(e)
                && final(buf)@ == old(buf)@,
        },
{
    let h = match parse_header(buf) {
        Ok(h) => h,
        Err(e) => {
            return Err(e);
        },
    };
    let ghost orig = buf@;
    let l = h.record_length();
    let len = buf.len();
    let total = h.total_particles as usize;
    let ghost rl = l as int;
    let ghost tp = h.total_particles as int;
    proof {
        assert(rl <= len && tp * rl == len - rl) by (nonlinear_arith)
            requires
                len == (tp + 1) * rl,
                tp >= 0,
                24 <= rl,
        ;
    }
    let mut i: usize = 0;
    proof {
        assert(orig.subrange(rl, rl + 0 * rl) =~= Seq::<u8>::empty());
        assert(buf@ =~= orig.take(rl) + spec_transform_records(
            *matrix,
            orig.subrange(rl, rl + 0 * rl),
            rl,
        ) + orig.skip(rl + 0 * rl));
    }
    while i < total
        invariant
            24 <= rl && rl == l,
            tp == total && tp >= 0,
            orig.len() == len,
            len == (tp + 1) * rl,
            i <= total,
            buf@.len() == len,
            buf@ == orig.take(rl) + spec_transform_records(
                *matrix,
                orig.subrange(rl, rl + i as int * rl),
                rl,
            ) + orig.skip(rl + i as int * rl),
        decreases total - i,
    {
        let ghost ii = i as int;
        proof {
            assert(0 <= ii * rl && ii * rl + rl == (ii + 1) * rl && rl + (ii + 1) * rl <= len)
                by (nonlinear_arith)
                requires
                    0 <= ii < tp,
                    24 <= rl,
                    len == (tp + 1) * rl,
            ;
            lemma_transform_records_concat(
                *matrix,
                orig.subrange(rl, rl + ii * rl),
                Seq::<u8>::empty(),
                ii,
                rl,
            );
        }
        let at = l + i * l;
        let ghost before = buf@;
        transform_record(buf, at, matrix);
        proof {
            let a = orig.subrange(rl, rl + ii * rl);
            let ta = spec_transform_records(*matrix, a, rl);
            let rec = orig.subrange(rl + ii * rl, rl + (ii + 1) * rl);
            let rest = orig.skip(rl + (ii + 1) * rl);
            assert(before.take(rl + ii * rl) =~= orig.take(rl) + ta);
            assert(before.skip(rl + ii * rl) =~= orig.skip(rl + ii * rl));
            assert(orig.skip(rl + ii * rl) =~= rec + rest);
            lemma_transform_fields_append(*matrix, rec, rest);
            lemma_transform_records_snoc(*matrix, a, rec, ii, rl);
            assert(orig.subrange(rl, rl + (ii + 1) * rl) =~= a + rec);
            assert(buf@ =~= orig.take(rl) + spec_transform_records(
                *matrix,
                orig.subrange(rl, rl + (ii + 1) * rl),
                rl,
            ) + orig.skip(rl + (ii + 1) * rl));
        }
        i = i + 1;
    }
    proof {
        assert(orig.subrange(rl, rl + tp * rl) =~= orig.skip(rl));
        assert(orig.skip(rl + tp * rl) =~= Seq::<u8>::empty());
        assert(buf@ =~= spec_transform_file(*matrix, orig, rl));
    }
    Ok(())
}

} // verus!
