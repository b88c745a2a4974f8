use fop::checksum::{extract_checksums, ExtractionError, FileChecksumProfile};
use fop::driver::{dedupe_files, CandidateFile, PairOutcome};
use fop::resolve::{do_dedupe, DedupDecision, MatchRegion};
use fop::validate::{
    validate_file, validate_files, FileKind, FileStat, ValidatedFile, ValidationError,
};

const BLOCK: u64 = 4096;

fn valid(path: &str) -> ValidatedFile {
    validate_file(&path.to_string(), FileStat::Found(FileKind::Regular)).unwrap()
}

fn profile(path: &str, dump: &[u8]) -> FileChecksumProfile {
    extract_checksums(valid(path), &dump.to_vec()).unwrap()
}

#[test]
fn validate_accepts_regular_file() {
    let r = validate_file(&"/tmp/a".to_string(), FileStat::Found(FileKind::Regular));
    assert_eq!(r.unwrap().path(), "/tmp/a");
}

#[test]
fn validate_rejects_missing_path() {
    let r = validate_file(&"/tmp/gone".to_string(), FileStat::Missing);
    assert_eq!(r.unwrap_err(), ValidationError::NotFound);
}

#[test]
fn validate_rejects_directory() {
    let r = validate_file(&"/tmp".to_string(), FileStat::Found(FileKind::Directory));
    assert_eq!(r.unwrap_err(), ValidationError::NotRegularFile);
}

#[test]
fn validate_rejects_symlink() {
    let r = validate_file(&"/tmp/link".to_string(), FileStat::Found(FileKind::Symlink));
    assert_eq!(r.unwrap_err(), ValidationError::NotRegularFile);
}

#[test]
fn validate_rejects_denied_path() {
    let r = validate_file(&"/root/secret".to_string(), FileStat::Denied);
    assert_eq!(r.unwrap_err(), ValidationError::PermissionDenied);
}

#[test]
fn validate_pair_needs_two_regular_files() {
    let reg = FileStat::Found(FileKind::Regular);
    assert_eq!(validate_files(reg, reg), Ok(true));
    assert_eq!(validate_files(FileStat::Missing, reg), Err(ValidationError::NotFound));
    assert_eq!(
        validate_files(reg, FileStat::Found(FileKind::Directory)),
        Err(ValidationError::NotRegularFile)
    );
    assert_eq!(validate_files(reg, FileStat::Denied), Err(ValidationError::PermissionDenied));
}

#[test]
fn validate_all_never_aborts_the_batch() {
    let batch = vec![
        ("/a".to_string(), FileStat::Found(FileKind::Regular)),
        ("/b".to_string(), FileStat::Missing),
        ("/c".to_string(), FileStat::Found(FileKind::Regular)),
    ];
    let out = fop::validate::validate_all(&batch);
    assert_eq!(out.len(), 3);
    assert_eq!(out[0].as_ref().unwrap().path(), "/a");
    assert_eq!(out[1].as_ref().unwrap_err(), &ValidationError::NotFound);
    assert_eq!(out[2].as_ref().unwrap().path(), "/c");
}

#[test]
fn pairs_of_four_files_in_order() {
    let files: Vec<ValidatedFile> = vec![valid("/0"), valid("/1"), valid("/2"), valid("/3")];
    let ps = fop::pairing::pairs(&files);
    assert_eq!(ps.len(), 6);
    let expect = [
        ("/0", "/1"),
        ("/0", "/2"),
        ("/0", "/3"),
        ("/1", "/2"),
        ("/1", "/3"),
        ("/2", "/3"),
    ];
    for (p, (ea, eb)) in ps.iter().zip(expect.iter()) {
        assert_eq!(p.a.path(), ea);
        assert_eq!(p.b.path(), eb);
    }
}

#[test]
fn pairs_of_small_sets() {
    assert_eq!(fop::pairing::pairs(&vec![]).len(), 0);
    assert_eq!(fop::pairing::pairs(&vec![valid("/0")]).len(), 0);
    assert_eq!(fop::pairing::pairs(&vec![valid("/0"), valid("/1")]).len(), 1);
}

#[test]
fn parser_reads_records_in_order() {
    let p = profile("/tmp/a", b"0 4096 c1\n4096 8192 c2\n");
    let ex = p.extents();
    assert_eq!(ex.len(), 2);
    assert_eq!((ex[0].offset, ex[0].length), (0, 4096));
    assert_eq!(ex[0].checksum, b"c1".to_vec());
    assert_eq!((ex[1].offset, ex[1].length), (4096, 8192));
    assert_eq!(ex[1].checksum, b"c2".to_vec());
}

#[test]
fn parser_skips_blank_lines_and_final_newline_is_optional() {
    let p = profile("/tmp/a", b"\n0 4096 c1\n\n4096 4096 c2");
    assert_eq!(p.extents().len(), 2);
}

#[test]
fn parser_rejects_wrong_field_count() {
    let r = extract_checksums(valid("/tmp/a"), &b"0 4096\n".to_vec());
    assert_eq!(r.unwrap_err(), ExtractionError::ParseError);
    let r = extract_checksums(valid("/tmp/a"), &b"0 4096 c1 extra\n".to_vec());
    assert_eq!(r.unwrap_err(), ExtractionError::ParseError);
}

#[test]
fn parser_rejects_bad_numbers() {
    let r = extract_checksums(valid("/tmp/a"), &b"zero 4096 c1\n".to_vec());
    assert_eq!(r.unwrap_err(), ExtractionError::ParseError);
    let r = extract_checksums(valid("/tmp/a"), &b"0 99999999999999999999999 c1\n".to_vec());
    assert_eq!(r.unwrap_err(), ExtractionError::ParseError);
}

#[test]
fn parser_rejects_unordered_or_overlapping_extents() {
    let r = extract_checksums(valid("/tmp/a"), &b"4096 4096 c1\n0 4096 c2\n".to_vec());
    assert_eq!(r.unwrap_err(), ExtractionError::ParseError);
    let r = extract_checksums(valid("/tmp/a"), &b"0 4096 c1\n2048 4096 c2\n".to_vec());
    assert_eq!(r.unwrap_err(), ExtractionError::ParseError);
}

#[test]
fn parser_rejects_zero_length_extent() {
    let r = extract_checksums(valid("/tmp/a"), &b"0 0 c1\n".to_vec());
    assert_eq!(r.unwrap_err(), ExtractionError::ParseError);
}

#[test]
fn identical_single_extent_files_fully_match() {
    let a = profile("/tmp/a", b"0 4096 c1\n");
    let b = profile("/tmp/b", b"0 4096 c1\n");
    let out = do_dedupe(&a, &b, false, BLOCK);
    assert_eq!(out.decision, DedupDecision::FullMatch);
    assert_eq!(out.requests.len(), 1);
    let req = &out.requests[0];
    assert_eq!(req.src_path, "/tmp/a");
    assert_eq!(req.dst_path, "/tmp/b");
    assert_eq!((req.src_offset, req.dst_offset, req.length), (0, 0, 4096));
}

#[test]
fn half_matching_files_partially_match() {
    let a = profile("/tmp/a", b"0 4096 c1\n4096 4096 c2\n");
    let b = profile("/tmp/b", b"0 4096 c1\n4096 4096 c3\n");
    let out = do_dedupe(&a, &b, false, BLOCK);
    match out.decision {
        DedupDecision::PartialMatch(regions) => {
            assert_eq!(regions.len(), 1);
            assert_eq!(regions[0], MatchRegion { src_offset: 0, dst_offset: 0, length: 4096 });
        },
        other => panic!("expected a partial match, got {:?}", other),
    }
    assert_eq!(out.requests.len(), 1);
}

#[test]
fn hole_only_files_never_match() {
    let a = profile("/tmp/a", b"");
    let b = profile("/tmp/b", b"");
    let out = do_dedupe(&a, &b, false, BLOCK);
    assert_eq!(out.decision, DedupDecision::NoMatch);
    assert_eq!(out.requests.len(), 0);
}

#[test]
fn unequal_length_extents_do_not_match() {
    let a = profile("/tmp/a", b"0 4096 c1\n");
    let b = profile("/tmp/b", b"0 8192 c1\n");
    let out = do_dedupe(&a, &b, false, BLOCK);
    assert_eq!(out.decision, DedupDecision::NoMatch);
}

#[test]
fn contiguous_matches_merge_into_one_region() {
    let a = profile("/tmp/a", b"0 4096 c1\n4096 4096 c2\n");
    let b = profile("/tmp/b", b"0 4096 c1\n4096 4096 c2\n");
    let out = do_dedupe(&a, &b, false, BLOCK);
    assert_eq!(out.decision, DedupDecision::FullMatch);
    assert_eq!(out.requests.len(), 1);
    assert_eq!(out.requests[0].length, 8192);
}

#[test]
fn sub_block_regions_are_discarded_not_rounded() {
    let a = profile("/tmp/a", b"0 512 c1\n");
    let b = profile("/tmp/b", b"0 512 c1\n");
    let out = do_dedupe(&a, &b, false, BLOCK);
    assert_eq!(out.decision, DedupDecision::NoMatch);
    assert_eq!(out.requests.len(), 0);
}

#[test]
fn dry_run_issues_no_request_and_keeps_the_decision() {
    let a = profile("/tmp/a", b"0 4096 c1\n");
    let b = profile("/tmp/b", b"0 4096 c1\n");
    let wet = do_dedupe(&a, &b, false, BLOCK);
    let dry = do_dedupe(&a, &b, true, BLOCK);
    assert_eq!(dry.requests.len(), 0);
    assert_eq!(dry.decision, wet.decision);
    let dry_again = do_dedupe(&a, &b, true, BLOCK);
    assert_eq!(dry_again.decision, dry.decision);
}

#[test]
fn resolving_an_already_shared_pair_is_idempotent() {
    // After a full share both files carry the same extent checksums,
    // so a second resolution sees identical profiles again.
    let a = profile("/tmp/a", b"0 4096 c1\n");
    let b = profile("/tmp/b", b"0 4096 c1\n");
    let first = do_dedupe(&a, &b, false, BLOCK);
    assert_eq!(first.decision, DedupDecision::FullMatch);
    let second = do_dedupe(&a, &b, false, BLOCK);
    assert_eq!(second.decision, DedupDecision::FullMatch);
}

fn candidate(path: &str, stat: FileStat, dump: Result<&[u8], ExtractionError>) -> CandidateFile {
    CandidateFile { path: path.to_string(), stat, dump: dump.map(|d| d.to_vec()) }
}

#[test]
fn batch_reports_every_file_and_every_pair() {
    let reg = FileStat::Found(FileKind::Regular);
    let cands = vec![
        candidate("/a", reg, Ok(b"0 4096 c1\n")),
        candidate("/b", reg, Ok(b"0 4096 c1\n")),
        candidate("/gone", FileStat::Missing, Ok(b"")),
    ];
    let report = dedupe_files(&cands, false, BLOCK);
    assert_eq!(report.file_results.len(), 3);
    assert!(report.file_results[0].is_ok());
    assert!(report.file_results[1].is_ok());
    assert_eq!(report.file_results[2].as_ref().unwrap_err(), &ValidationError::NotFound);

    assert_eq!(report.pair_reports.len(), 3);
    let ab = &report.pair_reports[0];
    assert_eq!((ab.src.as_str(), ab.dst.as_str()), ("/a", "/b"));
    assert_eq!(ab.outcome, PairOutcome::Resolved(DedupDecision::FullMatch));
    assert_eq!(report.pair_reports[1].outcome, PairOutcome::Invalid(ValidationError::NotFound));
    assert_eq!(report.pair_reports[2].outcome, PairOutcome::Invalid(ValidationError::NotFound));

    assert_eq!(report.requests.len(), 1);
    assert_eq!(report.requests[0].src_path, "/a");
    assert_eq!(report.requests[0].dst_path, "/b");
}

#[test]
fn batch_dry_run_issues_nothing() {
    let reg = FileStat::Found(FileKind::Regular);
    let cands = vec![
        candidate("/a", reg, Ok(b"0 4096 c1\n")),
        candidate("/b", reg, Ok(b"0 4096 c1\n")),
    ];
    let report = dedupe_files(&cands, true, BLOCK);
    assert_eq!(report.pair_reports[0].outcome, PairOutcome::Resolved(DedupDecision::FullMatch));
    assert_eq!(report.requests.len(), 0);
}

#[test]
fn batch_scopes_extraction_failures_to_the_pair() {
    let reg = FileStat::Found(FileKind::Regular);
    let cands = vec![
        candidate("/a", reg, Ok(b"0 4096 c1\n")),
        candidate("/bad", reg, Err(ExtractionError::ExternalToolFailure)),
        candidate("/c", reg, Ok(b"0 4096 c1\n")),
    ];
    let report = dedupe_files(&cands, false, BLOCK);
    assert_eq!(
        report.pair_reports[0].outcome,
        PairOutcome::ExtractionFailed(ExtractionError::ExternalToolFailure)
    );
    assert_eq!(
        report.pair_reports[1].outcome,
        PairOutcome::Resolved(DedupDecision::FullMatch)
    );
    assert_eq!(
        report.pair_reports[2].outcome,
        PairOutcome::ExtractionFailed(ExtractionError::ExternalToolFailure)
    );
    assert_eq!(report.requests.len(), 1);
}

#[test]
fn batch_reports_parse_failures() {
    let reg = FileStat::Found(FileKind::Regular);
    let cands = vec![
        candidate("/a", reg, Ok(b"garbage\n")),
        candidate("/b", reg, Ok(b"0 4096 c1\n")),
    ];
    let report = dedupe_files(&cands, false, BLOCK);
    assert_eq!(
        report.pair_reports[0].outcome,
        PairOutcome::ExtractionFailed(ExtractionError::ParseError)
    );
}
