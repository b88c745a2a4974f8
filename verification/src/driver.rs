//! The batch driver: validate every candidate, enumerate every pair,
//! and resolve each pair from its checksum dumps.
//!
//! The caller performs the I/O up front — one metadata query and one
//! run of the checksum dump tool per candidate — and hands the
//! outcomes in as plain values. Every decision made from them is
//! verified: which files are reported invalid, which pairs are
//! compared, what each pair resolves to, and exactly which share
//! requests are owed (none in dry-run mode). Failures stay scoped to
//! the smallest unit that can fail alone: one file or one pair never
//! aborts the batch.

use vstd::prelude::*;

use crate::checksum::{
    extract_checksums, spec_extract, ExtractionError, FileChecksumProfile, GRecord,
};
use crate::pairing::{index_pairs_seq, lemma_pairs_exactly_once, pair_in_range};
use crate::resolve::{
    do_dedupe, regions_view, requests_of, reqs_view, spec_full_match, spec_regions, DedupDecision,
    GRequest, ShareRequest,
};
use crate::validate::{
    spec_validate_pair, stat_accepts, stat_error, validate_file, validate_files, FileStat,
    ValidatedFile, ValidationError,
};

verus! {

/// One candidate handed to the driver: its path, the outcome of its
/// metadata query, and the raw output of its checksum dump run (or
/// the failure the run ended in).
pub struct CandidateFile {
    pub path: String,
    pub stat: FileStat,
    pub dump: Result<Vec<u8>, ExtractionError>,
}

/// How comparing one pair ended.
#[derive(Clone, Debug, PartialEq, Eq)]
pub enum PairOutcome {
    /// At least one of the two paths is not a valid candidate.
    Invalid(ValidationError),
    /// A checksum profile could not be obtained for one of the files.
    ExtractionFailed(ExtractionError),
    /// Both profiles were obtained and the pair was classified.
    Resolved(DedupDecision),
}

/// The outcome of one candidate pair, under the two paths compared.
#[derive(Clone, Debug, PartialEq, Eq)]
pub struct PairReport {
    pub src: String,
    pub dst: String,
    pub outcome: PairOutcome,
}

/// Everything one batch run decided.
pub struct DedupeReport {
    /// Per-candidate validation outcome, in input order.
    pub file_results: Vec<Result<ValidatedFile, ValidationError>>,
    /// Per-pair outcome, in pair enumeration order.
    pub pair_reports: Vec<PairReport>,
    /// The share requests owed; empty in dry-run mode.
    pub requests: Vec<ShareRequest>,
}

/// The checksum profile owed for one candidate, or the extraction
/// error owed instead.
pub open spec fn spec_candidate_extract(c: CandidateFile) -> Result<Seq<GRecord>, ExtractionError> {
    match c.dump {
        Ok(raw) => match spec_extract(raw@) {
            Some(rs) => Ok(rs),
            None => Err(ExtractionError::ParseError),
        },
        Err(e) => Err(e),
    }
}

/// The outcome owed for one pair: validation failures first, then
/// extraction failures (source before destination), then the resolver
/// classification of the two profiles.
pub open spec fn outcome_matches(o: PairOutcome, a: CandidateFile, b: CandidateFile, bs: int) -> bool {
    match spec_validate_pair(a.stat, b.stat) {
        Err(e) => o == PairOutcome::Invalid(e),
        Ok(_) => match (spec_candidate_extract(a), spec_candidate_extract(b)) {
            (Err(e), _) => o == PairOutcome::ExtractionFailed(e),
            (Ok(_), Err(e)) => o == PairOutcome::ExtractionFailed(e),
            (Ok(ga), Ok(gb)) => {
                let regs = spec_regions(ga, gb, bs);
                &&& (regs.len() == 0 ==> o == PairOutcome::Resolved(DedupDecision::NoMatch))
                &&& (spec_full_match(ga, gb, bs) ==> o == PairOutcome::Resolved(
                    DedupDecision::FullMatch,
                ))
                &&& (regs.len() > 0 && !spec_full_match(ga, gb, bs) ==> (o matches
                    PairOutcome::Resolved(d) && d matches DedupDecision::PartialMatch(v)
                    && regions_view(v@) == regs))
            },
        },
    }
}

/// The share requests owed for one pair: one per shareable region,
/// none when the pair cannot be resolved.
pub open spec fn spec_pair_requests(a: CandidateFile, b: CandidateFile, bs: int) -> Seq<GRequest> {
    match spec_validate_pair(a.stat, b.stat) {
        Err(_) => Seq::empty(),
        Ok(_) => match (spec_candidate_extract(a), spec_candidate_extract(b)) {
            (Ok(ga), Ok(gb)) => requests_of(a.path@, b.path@, spec_regions(ga, gb, bs)),
            _ => Seq::empty(),
        },
    }
}

/// The share requests owed for the pairs from position `k` on.
pub open spec fn spec_requests_from(
    c: Seq<CandidateFile>,
    ip: Seq<(usize, usize)>,
    bs: int,
    k: int,
) -> Seq<GRequest>
    decreases ip.len() - k,
{
    if k < 0 || k >= ip.len() {
        Seq::empty()
    } else {
        spec_pair_requests(c[ip[k].0 as int], c[ip[k].1 as int], bs) + spec_requests_from(
            c,
            ip,
            bs,
            k + 1,
        )
    }
}

/// Resolve one pair whose stats were both accepted. Reports an
/// extraction failure for the source before the destination; when both
/// profiles parse, classifies the pair and returns the share requests
/// owed for it (none when `dry_run` is set).
fn resolve_pair(a: &CandidateFile, b: &CandidateFile, dry_run: bool, block_size: u64) -> (r: (
    PairOutcome,
    Vec<ShareRequest>,
))
    requires
        stat_accepts(a.stat),
        stat_accepts(b.stat),
        block_size > 0,
    ensures
        outcome_matches(r.0, *a, *b, block_size as int),
        dry_run ==> r.1@.len() == 0,
        !dry_run ==> reqs_view(r.1@) == spec_pair_requests(*a, *b, block_size as int),
{
    let empty_reqs: Vec<ShareRequest> = Vec::new();
    proof {
        assert(reqs_view(empty_reqs@) =~= Seq::<GRequest>::empty());
    }
    let va = match validate_file(&a.path, a.stat) {
        Ok(v) => v,
        Err(_) => vstd::pervasive::unreached(),
    };
    let vb = match validate_file(&b.path, b.stat) {
        Ok(v) => v,
        Err(_) => vstd::pervasive::unreached(),
    };
    let pa: FileChecksumProfile = match &a.dump {
        Ok(raw) => match extract_checksums(va, raw) {
            Ok(p) => p,
            Err(e) => {
                return (PairOutcome::ExtractionFailed(e), empty_reqs);
            },
        },
        Err(e) => {
            return (PairOutcome::ExtractionFailed(*e), empty_reqs);
        },
    };
    let pb: FileChecksumProfile = match &b.dump {
        Ok(raw) => match extract_checksums(vb, raw) {
            Ok(p) => p,
            Err(e) => {
                return (PairOutcome::ExtractionFailed(e), empty_reqs);
            },
        },
        Err(e) => {
            return (PairOutcome::ExtractionFailed(*e), empty_reqs);
        },
    };
    let outcome = do_dedupe(&pa, &pb, dry_run, block_size);
    (PairOutcome::Resolved(outcome.decision), outcome.requests)
}

/// Run one batch: validate every candidate, enumerate every unordered
/// pair, resolve each pair, and collect the share requests owed. In
/// dry-run mode the decisions are the same and no request is owed.
pub fn dedupe_files(candidates: &Vec<CandidateFile>, dry_run: bool, block_size: u64) -> (r:
    DedupeReport)
    requires
        block_size > 0,
    ensures
        r.file_results@.len() == candidates@.len(),
        forall|i: int|
            0 <= i < candidates@.len() && stat_accepts(candidates@[i].stat) ==> (
            #[trigger] r.file_results@[i] matches Ok(v) && v.path_spec() == candidates@[i].path@),
        forall|i: int|
            0 <= i < candidates@.len() && !stat_accepts(candidates@[i].stat)
                ==> #[trigger] r.file_results@[i] == Err::<ValidatedFile, ValidationError>(
                stat_error(candidates@[i].stat),
            ),
        r.pair_reports@.len() == index_pairs_seq(candidates@.len() as int).len(),
        forall|k: int|
            0 <= k < r.pair_reports@.len() ==> {
                let p = index_pairs_seq(candidates@.len() as int)[k];
                &&& (#[trigger] r.pair_reports@[k]).src@ == candidates@[p.0 as int].path@
                &&& r.pair_reports@[k].dst@ == candidates@[p.1 as int].path@
                &&& outcome_matches(
                    r.pair_reports@[k].outcome,
                    candidates@[p.0 as int],
                    candidates@[p.1 as int],
                    block_size as int,
                )
            },
        dry_run ==> r.requests@.len() == 0,
        !dry_run ==> reqs_view(r.requests@) == spec_requests_from(
            candidates@,
            index_pairs_seq(candidates@.len() as int),
            block_size as int,
            0,
        ),
{
    let n = candidates.len();

    // Per-file validation: every path gets a definitive outcome.
    let mut file_results: Vec<Result<ValidatedFile, ValidationError>> = Vec::new();
    let mut i: usize = 0;
    while i < n
        invariant
            n == candidates@.len(),
            0 <= i <= n,
            file_results@.len() == i,
            forall|w: int|
                0 <= w < i && stat_accepts(candidates@[w].stat) ==> (
                #[trigger] file_results@[w] matches Ok(v) && v.path_spec()
                    == candidates@[w].path@),
            forall|w: int|
                0 <= w < i && !stat_accepts(candidates@[w].stat) ==> #[trigger] file_results@[w]
                    == Err::<ValidatedFile, ValidationError>(stat_error(candidates@[w].stat)),
        decreases n - i,
    {
        file_results.push(validate_file(&candidates[i].path, candidates[i].stat));
        i = i + 1;
    }

    // Pair enumeration and resolution.
    let idx = crate::pairing::index_pairs(n);
    let ghost ip = index_pairs_seq(n as int);
    proof {
        lemma_pairs_exactly_once(n as int);
    }
    let m = idx.len();
    let mut pair_reports: Vec<PairReport> = Vec::new();
    let mut requests: Vec<ShareRequest> = Vec::new();
    let mut k: usize = 0;
    while k < m
        invariant
            n == candidates@.len(),
            m == idx@.len(),
            idx@ == ip,
            ip == index_pairs_seq(n as int),
            block_size > 0,
            forall|w: int| 0 <= w < m ==> pair_in_range(#[trigger] ip[w], 0, n as int),
            0 <= k <= m,
            pair_reports@.len() == k,
            forall|w: int|
                0 <= w < k ==> {
                    let p = ip[w];
                    &&& (#[trigger] pair_reports@[w]).src@ == candidates@[p.0 as int].path@
                    &&& pair_reports@[w].dst@ == candidates@[p.1 as int].path@
                    &&& outcome_matches(
                        pair_reports@[w].outcome,
                        candidates@[p.0 as int],
                        candidates@[p.1 as int],
                        block_size as int,
                    )
                },
            dry_run ==> requests@.len() == 0,
            !dry_run ==> spec_requests_from(candidates@, ip, block_size as int, 0) == reqs_view(
                requests@,
            ) + spec_requests_from(candidates@, ip, block_size as int, k as int),
        decreases m - k,
    {
        let (pi, pj) = idx[k];
        let a = &candidates[pi];
        let b = &candidates[pj];
        let ghost pair_reqs = spec_pair_requests(
            candidates@[pi as int],
            candidates@[pj as int],
            block_size as int,
        );
        let outcome: PairOutcome;
        let mut new_reqs: Vec<ShareRequest> = Vec::new();
        match validate_files(a.stat, b.stat) {
            Err(e) => {
                outcome = PairOutcome::Invalid(e);
                proof {
                    assert(pair_reqs =~= Seq::<GRequest>::empty());
                }
            },
            Ok(_) => {
                let (o, reqs) = resolve_pair(a, b, dry_run, block_size);
                outcome = o;
                new_reqs = reqs;
            },
        }
        pair_reports.push(
            PairReport { src: a.path.clone(), dst: b.path.clone(), outcome: outcome },
        );
        let ghost prev_reqs = reqs_view(requests@);
        let ghost added = reqs_view(new_reqs@);
        requests.append(&mut new_reqs);
        proof {
            assert(reqs_view(requests@) =~= prev_reqs + added);
            if !dry_run {
                assert(spec_requests_from(candidates@, ip, block_size as int, k as int)
                    == pair_reqs + spec_requests_from(
                    candidates@,
                    ip,
                    block_size as int,
                    k as int + 1,
                ));
                assert(added =~= pair_reqs);
                assert((prev_reqs + added) + spec_requests_from(
                    candidates@,
                    ip,
                    block_size as int,
                    k as int + 1,
                ) =~= prev_reqs + (added + spec_requests_from(
                    candidates@,
                    ip,
                    block_size as int,
                    k as int + 1,
                )));
            }
        }
        k = k + 1;
    }
    proof {
        assert(spec_requests_from(candidates@, ip, block_size as int, m as int) =~= Seq::<
            GRequest,
        >::empty());
        assert(reqs_view(requests@) + Seq::<GRequest>::empty() =~= reqs_view(requests@));
    }
    DedupeReport { file_results, pair_reports, requests }
}

} // verus!
