//! The combine engine.
//!
//! Several same-mode files are merged into one: their headers are folded
//! left to right with the header merge (counts summed, energy window
//! widened), and their particle-record regions are concatenated verbatim in
//! input order behind the merged header. Inputs are inspected in order and
//! the first problem — an invalid file or a mode that differs from the first
//! input's — aborts the whole operation before any output is produced.

use crate::header::{
    parse_header, spec_header_of, spec_merge, spec_parse_header, spec_serialize, EGSError, Header,
    Mode,
};
use crate::le::extend_bytes;
use vstd::prelude::*;
use vstd::slice::slice_subrange;

verus! {

/// The byte views of a list of input buffers.
pub open spec fn spec_views(inputs: Seq<Vec<u8>>) -> Seq<Seq<u8>> {
    inputs.map_values(|v: Vec<u8>| v@)
}

/// Every input parses and validates as a phase-space file.
pub open spec fn spec_all_valid(views: Seq<Seq<u8>>) -> bool {
    forall|i: int| 0 <= i < views.len() ==> (#[trigger] spec_parse_header(views[i])) is Ok
}

/// Every input's mode equals the first input's.
pub open spec fn spec_modes_uniform(views: Seq<Seq<u8>>) -> bool {
    forall|i: int|
        0 <= i < views.len() ==> (#[trigger] spec_header_of(views[i])).mode == spec_header_of(
            views[0],
        ).mode
}

/// A combine succeeds exactly on a non-empty list of valid, same-mode files.
pub open spec fn spec_combine_ok(views: Seq<Seq<u8>>) -> bool {
    &&& views.len() >= 1
    &&& spec_all_valid(views)
    &&& spec_modes_uniform(views)
}

/// Left fold of the input headers with the header merge.
pub open spec fn spec_fold_headers(views: Seq<Seq<u8>>) -> Header
    recommends
        views.len() >= 1,
    decreases views.len(),
{
    if views.len() <= 1 {
        spec_header_of(views[0])
    } else {
        spec_merge(spec_fold_headers(views.drop_last()), spec_header_of(views.last()))
    }
}

/// Sum of the inputs' particle counts, as unbounded integers.
pub open spec fn spec_tp_sum(views: Seq<Seq<u8>>) -> int
    decreases views.len(),
{
    if views.len() == 0 {
        0
    } else {
        spec_tp_sum(views.drop_last()) + spec_header_of(views.last()).total_particles
    }
}

/// Sum of the inputs' photon counts, as unbounded integers.
pub open spec fn spec_ph_sum(views: Seq<Seq<u8>>) -> int
    decreases views.len(),
{
    if views.len() == 0 {
        0
    } else {
        spec_ph_sum(views.drop_last()) + spec_header_of(views.last()).total_photons
    }
}

/// Every partial sum of the folded counts stays within the signed 32-bit
/// fields that store them.
pub open spec fn spec_counts_fit(views: Seq<Seq<u8>>) -> bool
    decreases views.len(),
{
    if views.len() <= 1 {
        true
    } else {
        &&& spec_counts_fit(views.drop_last())
        &&& i32::MIN <= spec_tp_sum(views) <= i32::MAX
        &&& i32::MIN <= spec_ph_sum(views) <= i32::MAX
    }
}

/// The folded header carries the summed counts and the first input's mode.
pub proof fn lemma_fold_counts(views: Seq<Seq<u8>>)
    requires
        views.len() >= 1,
        spec_counts_fit(views),
    ensures
        spec_fold_headers(views).total_particles == spec_tp_sum(views),
        spec_fold_headers(views).total_photons == spec_ph_sum(views),
        spec_fold_headers(views).mode == spec_header_of(views[0]).mode,
    decreases views.len(),
{
    if views.len() > 1 {
        lemma_fold_counts(views.drop_last());
        assert(views.drop_last()[0] == views[0]);
        assert(spec_fold_headers(views) == spec_merge(
            spec_fold_headers(views.drop_last()),
            spec_header_of(views.last()),
        ));
        assert(spec_tp_sum(views) == spec_tp_sum(views.drop_last()) + spec_header_of(
            views.last(),
        ).total_particles);
        assert(spec_ph_sum(views) == spec_ph_sum(views.drop_last()) + spec_header_of(
            views.last(),
        ).total_photons);
    } else {
        assert(views.last() == views[0]);
        assert(spec_tp_sum(views.drop_last()) == 0);
        assert(spec_ph_sum(views.drop_last()) == 0);
    }
}

/// The error the scan reports for the first problem at or after position
/// `at`, given the mode of the first input. Filler past the end.
pub open spec fn spec_scan_error(views: Seq<Seq<u8>>, mode: Mode, at: int) -> EGSError
    decreases views.len() - at,
{
    if at < 0 || at >= views.len() {
        EGSError::EmptyInputSet
    } else {
        match spec_parse_header(views[at]) {
            Err(e) => e,
            Ok(h) => if h.mode != mode {
                EGSError::ModeMismatch
            } else {
                spec_scan_error(views, mode, at + 1)
            },
        }
    }
}

/// The error a combine of these inputs reports: no inputs, the first input's
/// own error, or the first later input that fails or changes mode.
pub open spec fn spec_first_error(views: Seq<Seq<u8>>) -> EGSError
    recommends
        !spec_combine_ok(views),
{
    if views.len() == 0 {
        EGSError::EmptyInputSet
    } else {
        match spec_parse_header(views[0]) {
            Err(e) => e,
            Ok(h) => spec_scan_error(views, h.mode, 1),
        }
    }
}

/// Concatenation of the inputs' particle-record regions, in input order.
pub open spec fn spec_records_concat(views: Seq<Seq<u8>>, l: int) -> Seq<u8>
    decreases views.len(),
{
    if views.len() == 0 {
        Seq::<u8>::empty()
    } else {
        spec_records_concat(views.drop_last(), l) + views.last().skip(l)
    }
}

/// The combined output: the merged header in one zero-padded record slot,
/// then every input's record bytes, in order and verbatim.
pub open spec fn spec_combined_bytes(views: Seq<Seq<u8>>) -> Seq<u8>
    recommends
        spec_combine_ok(views),
{
    let h = spec_fold_headers(views);
    let l = h.spec_record_length();
    spec_serialize(h) + Seq::<u8>::new((l - 25) as nat, |i: int| 0u8) + spec_records_concat(
        views,
        l,
    )
}

/// The particle-record region of a combined output — everything past the
/// merged header's record slot — is exactly the concatenation of the
/// inputs' record regions, in input order.
pub proof fn lemma_combined_record_region(views: Seq<Seq<u8>>)
    requires
        spec_combine_ok(views),
    ensures
        spec_combined_bytes(views).skip(spec_fold_headers(views).spec_record_length())
            == spec_records_concat(views, spec_fold_headers(views).spec_record_length()),
{
    let h = spec_fold_headers(views);
    let l = h.spec_record_length();
    assert(spec_serialize(h).len() == 25) by {
        crate::header::lemma_header_roundtrip(h);
    }
    assert(spec_combined_bytes(views).skip(l) =~= spec_records_concat(views, l));
}

/// Combines phase-space files held in memory: parses and validates every
/// input in order, folds their headers, and streams their record regions
/// into one output buffer. Fails on an empty input list, on the first
/// invalid input, or on the first input whose mode differs from the first
/// input's; nothing is produced on failure. Callers must ensure that the
/// summed particle and photon counts of every valid same-mode prefix fit
/// the header's signed 32-bit fields.
pub fn combine(inputs: &Vec<Vec<u8>>) -> (r: Result<Vec<u8>, EGSError>)
    requires
        forall|k: int|
            0 <= k <= spec_views(inputs@).len() && spec_all_valid(
                #[trigger] spec_views(inputs@).take(k),
            ) && spec_modes_uniform(spec_views(inputs@).take(k)) ==> spec_counts_fit(
                spec_views(inputs@).take(k),
            ),
    ensures
        match r {
            Ok(out) => spec_combine_ok(spec_views(inputs@)) && out@ == spec_combined_bytes(
                spec_views(inputs@),
            ),
            Err(e) => !spec_combine_ok(spec_views(inputs@)) && e == spec_first_error(
                spec_views(inputs@),
            ),
        },
{
    let ghost views = spec_views(inputs@);
    let n_inputs = inputs.len();
    if n_inputs == 0 {
        return Err(EGSError::EmptyInputSet);
    }
    let mut acc = match parse_header(&inputs[0]) {
        Ok(h) => h,
        Err(e) => {
            return Err(e);
        },
    };
    let ghost mode0 = spec_header_of(views[0]).mode;
    proof {
        assert(views.take(1).drop_last() =~= views.take(0));
        assert(views.take(1) =~= seq![views[0]]);
        assert(acc == spec_fold_headers(views.take(1)));
    }
    let mut i: usize = 1;
    while i < n_inputs
        invariant
            1 <= i <= n_inputs,
            n_inputs == views.len(),
            views == spec_views(inputs@),
            mode0 == spec_header_of(views[0]).mode,
            spec_all_valid(views.take(i as int)),
            spec_modes_uniform(views.take(i as int)),
            acc == spec_fold_headers(views.take(i as int)),
            acc.mode == mode0,
            spec_parse_header(views[0]) is Ok,
            spec_scan_error(views, mode0, 1) == spec_scan_error(views, mode0, i as int),
            forall|k: int|
                0 <= k <= views.len() && spec_all_valid(#[trigger] views.take(k))
                    && spec_modes_uniform(views.take(k)) ==> spec_counts_fit(views.take(k)),
        decreases n_inputs - i,
    {
        let ghost ii = i as int;
        proof {
            assert(views.take(ii + 1).drop_last() =~= views.take(ii));
            assert(views.take(ii + 1).last() == views[ii]);
            assert(views.take(ii)[0] == views[0]);
        }
        let h = match parse_header(&inputs[i]) {
            Ok(h) => h,
            Err(e) => {
                return Err(e);
            },
        };
        if h.mode != acc.mode {
            return Err(EGSError::ModeMismatch);
        }
        proof {
            // The prefix through input i is valid and uniform, so its counts
            // fit and the next merge cannot overflow.
            assert forall|j: int| 0 <= j < ii + 1 implies (#[trigger] spec_parse_header(
                views.take(ii + 1)[j],
            )) is Ok by {
                assert(views.take(ii + 1)[j] == views[j]);
                if j < ii {
                    assert(spec_parse_header(views.take(ii)[j]) is Ok);
                }
            }
            assert forall|j: int| 0 <= j < ii + 1 implies (#[trigger] spec_header_of(
                views.take(ii + 1)[j],
            )).mode == spec_header_of(views.take(ii + 1)[0]).mode by {
                assert(views.take(ii + 1)[j] == views[j]);
                assert(views.take(ii + 1)[0] == views[0]);
                if j < ii {
                    assert(spec_header_of(views.take(ii)[j]).mode == spec_header_of(
                        views.take(ii)[0],
                    ).mode);
                }
            }
            assert(spec_counts_fit(views.take(ii + 1)));
            lemma_fold_counts(views.take(ii));
            assert(spec_tp_sum(views.take(ii + 1)) == spec_tp_sum(views.take(ii))
                + h.total_particles);
            assert(spec_ph_sum(views.take(ii + 1)) == spec_ph_sum(views.take(ii))
                + h.total_photons);
        }
        acc = match acc.merge(&h) {
            Ok(m) => m,
            Err(_) => {
                // merge only fails on a mode mismatch, tested just above
                return Err(EGSError::ModeMismatch);
            },
        };
        i = i + 1;
    }
    proof {
        assert(views.take(n_inputs as int) =~= views);
    }
    let l = acc.record_length();
    let ghost rl = l as int;
    let mut region: Vec<u8> = vec![0u8; l];
    proof {
        assert(region@ =~= Seq::<u8>::new(rl as nat, |j: int| 0u8));
    }
    acc.write_to_bytes(&mut region);
    let mut out: Vec<u8> = Vec::new();
    out.append(&mut region);
    proof {
        assert(Seq::<u8>::new(rl as nat, |j: int| 0u8).skip(25) =~= Seq::<u8>::new(
            (rl - 25) as nat,
            |j: int| 0u8,
        ));
        assert(out@ =~= spec_serialize(acc) + Seq::<u8>::new((rl - 25) as nat, |j: int| 0u8)
            + spec_records_concat(views.take(0), rl));
    }
    let mut j: usize = 0;
    while j < n_inputs
        invariant
            0 <= j <= n_inputs,
            n_inputs == views.len(),
            n_inputs >= 1,
            views == spec_views(inputs@),
            spec_all_valid(views),
            spec_modes_uniform(views),
            acc == spec_fold_headers(views),
            rl == l && rl == acc.spec_record_length(),
            acc.mode == spec_header_of(views[0]).mode,
            out@ == spec_serialize(acc) + Seq::<u8>::new((rl - 25) as nat, |q: int| 0u8)
                + spec_records_concat(views.take(j as int), rl),
        decreases n_inputs - j,
    {
        let ghost jj = j as int;
        proof {
            assert(spec_parse_header(views[jj]) is Ok);
            let hj = spec_header_of(views[jj]);
            assert(hj.mode == acc.mode);
            assert(views[jj].len() == (hj.total_particles + 1) * rl && hj.total_particles >= 0);
            assert(rl <= views[jj].len()) by (nonlinear_arith)
                requires
                    views[jj].len() == (hj.total_particles + 1) * rl,
                    hj.total_particles >= 0,
                    rl >= 24,
            ;
            assert(inputs@[jj]@ == views[jj]);
            assert(views.take(jj + 1).drop_last() =~= views.take(jj));
            assert(views.take(jj + 1).last() == views[jj]);
        }
        let inp = &inputs[j];
        extend_bytes(&mut out, slice_subrange(inp.as_slice(), l, inp.len()));
        j = j + 1;
    }
    proof {
        assert(views.take(n_inputs as int) =~= views);
        assert(out@ == spec_combined_bytes(views));
    }
    Ok(out)
}

} // verus!
