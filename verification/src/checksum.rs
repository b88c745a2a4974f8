//! Per-extent content checksums and the parser for the checksum dump.
//!
//! The external checksum dump tool emits one text line per allocated
//! extent, `<offset> <length> <checksum>`, the first two fields decimal
//! byte counts and the third the checksum token exactly as the tool
//! prints it. Holes produce no line at all, so hole-only files yield an
//! empty profile. Running the tool is I/O and is left to the caller;
//! the raw bytes it produced are parsed and checked here.

use vstd::prelude::*;

use crate::validate::ValidatedFile;

verus! {

/// One allocated extent of a file: where it starts, how many bytes it
/// covers, and the checksum token of its content.
#[derive(Clone, Debug, PartialEq, Eq)]
pub struct ExtentChecksumRecord {
    pub offset: u64,
    pub length: u64,
    pub checksum: Vec<u8>,
}

/// Mathematical image of one extent record.
pub ghost struct GRecord {
    pub offset: int,
    pub length: int,
    pub checksum: Seq<u8>,
}

impl View for ExtentChecksumRecord {
    type V = GRecord;

    open spec fn view(&self) -> GRecord {
        GRecord {
            offset: self.offset as int,
            length: self.length as int,
            checksum: self.checksum@,
        }
    }
}

/// The mathematical image of a whole record sequence.
pub open spec fn recs_view(s: Seq<ExtentChecksumRecord>) -> Seq<GRecord> {
    s.map_values(|r: ExtentChecksumRecord| r@)
}

/// Why a checksum profile could not be obtained for a file.
#[derive(Clone, Copy, PartialEq, Eq, Structural, Debug)]
pub enum ExtractionError {
    /// The dump tool exited nonzero or could not be run at all.
    ExternalToolFailure,
    /// A line of the dump output is malformed, or the records break the
    /// extent-sequence invariant.
    ParseError,
    /// The file could not be mapped to its backing device.
    DeviceResolutionError,
}

/// A single record is sound: a positive length, an end that fits the
/// offset arithmetic, and a nonempty checksum token.
pub open spec fn record_ok(r: GRecord) -> bool {
    &&& 0 <= r.offset
    &&& 0 < r.length
    &&& r.offset + r.length <= u64::MAX
    &&& r.checksum.len() > 0
}

/// The extent-sequence invariant: every record sound, offsets strictly
/// increasing, extents non-overlapping.
pub open spec fn records_wf(s: Seq<GRecord>) -> bool {
    &&& forall|i: int| 0 <= i < s.len() ==> record_ok(#[trigger] s[i])
    &&& forall|i: int|
        0 <= i && i + 1 < s.len() ==> (#[trigger] s[i]).offset + s[i].length <= s[i + 1].offset
}

/// Total allocated length of a record sequence, from position `i`.
pub open spec fn extents_total_from(s: Seq<GRecord>, i: int) -> int
    decreases s.len() - i,
{
    if i < 0 || i >= s.len() {
        0
    } else {
        s[i].length + extents_total_from(s, i + 1)
    }
}

/// Total allocated length of a record sequence: the sum of its extent
/// lengths (holes are absent and contribute nothing).
pub open spec fn extents_total(s: Seq<GRecord>) -> int {
    extents_total_from(s, 0)
}

/// An ASCII decimal digit.
pub open spec fn is_digit(b: u8) -> bool {
    48 <= b && b <= 57
}

/// Value of a digit string read as a decimal number.
pub open spec fn dec_val(s: Seq<u8>) -> int
    decreases s.len(),
{
    if s.len() == 0 {
        0
    } else {
        10 * dec_val(s.drop_last()) + (s.last() - 48)
    }
}

/// A nonempty, all-digit field.
pub open spec fn is_dec(s: Seq<u8>) -> bool {
    s.len() > 0 && forall|i: int| 0 <= i < s.len() ==> is_digit(#[trigger] s[i])
}

/// Index of the first occurrence of `b` at or after `from`, or the
/// length of `s` if there is none.
pub open spec fn find_from(s: Seq<u8>, b: u8, from: int) -> int
    decreases s.len() - from,
{
    if from < 0 || from >= s.len() {
        s.len() as int
    } else if s[from] == b {
        from
    } else {
        find_from(s, b, from + 1)
    }
}

/// The fields of a line, split at single space bytes.
pub open spec fn split_sp(l: Seq<u8>) -> Seq<Seq<u8>>
    decreases l.len(),
{
    let k = find_from(l, 32, 0);
    if 0 <= k && k < l.len() {
        seq![l.subrange(0, k)] + split_sp(l.subrange(k + 1, l.len() as int))
    } else {
        seq![l]
    }
}

/// What a nonempty dump line means: exactly three fields, the first two
/// decimal numbers that fit in a byte-offset, the third a nonempty
/// checksum token. Anything else is malformed.
pub open spec fn spec_parse_line(l: Seq<u8>) -> Option<GRecord> {
    let f = split_sp(l);
    if f.len() == 3 && is_dec(f[0]) && dec_val(f[0]) <= u64::MAX && is_dec(f[1]) && dec_val(f[1])
        <= u64::MAX && f[2].len() > 0 {
        Some(GRecord { offset: dec_val(f[0]), length: dec_val(f[1]), checksum: f[2] })
    } else {
        None
    }
}

/// What the whole dump output means: one record per nonempty line,
/// blank lines skipped, in output order; `None` as soon as any line is
/// malformed (a file has a complete profile or none).
pub open spec fn spec_parse_records(s: Seq<u8>) -> Option<Seq<GRecord>>
    decreases s.len(),
{
    if s.len() == 0 {
        Some(Seq::empty())
    } else {
        let k = find_from(s, 10, 0);
        if 0 <= k && k < s.len() {
            let line = s.subrange(0, k);
            let tail = spec_parse_records(s.subrange(k + 1, s.len() as int));
            if line.len() == 0 {
                tail
            } else {
                match (spec_parse_line(line), tail) {
                    (Some(r), Some(t)) => Some(seq![r] + t),
                    _ => None,
                }
            }
        } else {
            match spec_parse_line(s) {
                Some(r) => Some(seq![r]),
                None => None,
            }
        }
    }
}

/// A successful extraction: the output parses line by line and the
/// records satisfy the extent-sequence invariant.
pub open spec fn spec_extract(s: Seq<u8>) -> Option<Seq<GRecord>> {
    match spec_parse_records(s) {
        Some(rs) => if records_wf(rs) {
            Some(rs)
        } else {
            None
        },
        None => None,
    }
}

proof fn lemma_find_from_is(s: Seq<u8>, b: u8, from: int, r: int)
    requires
        0 <= from <= r <= s.len(),
        forall|m: int| from <= m < r ==> s[m] != b,
        r < s.len() ==> s[r] == b,
    ensures
        find_from(s, b, from) == r,
    decreases r - from,
{
    if from < r {
        lemma_find_from_is(s, b, from + 1, r);
    }
}

/// First occurrence of `b` in `s`, or `s.len()` if there is none.
fn find_byte(s: &[u8], b: u8) -> (r: usize)
    ensures
        r == find_from(s@, b, 0),
        r <= s@.len(),
        r < s@.len() ==> s@[r as int] == b,
        forall|m: int| 0 <= m < r ==> s@[m] != b,
{
    let n = s.len();
    let mut i: usize = 0;
    while i < n
        invariant
            n == s@.len(),
            0 <= i <= n,
            forall|m: int| 0 <= m < i ==> s@[m] != b,
        decreases n - i,
    {
        if s[i] == b {
            proof {
                lemma_find_from_is(s@, b, 0, i as int);
            }
            return i;
        }
        i = i + 1;
    }
    proof {
        lemma_find_from_is(s@, b, 0, n as int);
    }
    n
}

proof fn lemma_dec_val_nonneg(s: Seq<u8>)
    requires
        forall|i: int| 0 <= i < s.len() ==> is_digit(#[trigger] s[i]),
    ensures
        dec_val(s) >= 0,
    decreases s.len(),
{
    if s.len() > 0 {
        assert(forall|i: int|
            0 <= i < s.drop_last().len() ==> is_digit(#[trigger] s.drop_last()[i]));
        lemma_dec_val_nonneg(s.drop_last());
    }
}

proof fn lemma_dec_val_take_succ(s: Seq<u8>, i: int)
    requires
        0 <= i < s.len(),
    ensures
        dec_val(s.take(i + 1)) == 10 * dec_val(s.take(i)) + (s[i] - 48),
{
    assert(s.take(i + 1).drop_last() =~= s.take(i));
    assert(s.take(i + 1).last() == s[i]);
}

proof fn lemma_dec_val_take_le(s: Seq<u8>, j: int)
    requires
        0 <= j <= s.len(),
        forall|i: int| 0 <= i < s.len() ==> is_digit(#[trigger] s[i]),
    ensures
        dec_val(s.take(j)) <= dec_val(s),
    decreases s.len() - j,
{
    if j == s.len() {
        assert(s.take(j) =~= s);
    } else {
        lemma_dec_val_take_succ(s, j);
        assert(forall|i: int|
            0 <= i < s.take(j).len() ==> is_digit(#[trigger] s.take(j)[i]));
        lemma_dec_val_nonneg(s.take(j));
        lemma_dec_val_take_le(s, j + 1);
    }
}

/// Parse a whole field as an unsigned decimal number.
fn parse_u64(s: &[u8]) -> (r: Option<u64>)
    ensures
        match r {
            Some(v) => is_dec(s@) && v as int == dec_val(s@),
            None => !(is_dec(s@) && dec_val(s@) <= u64::MAX),
        },
{
    let n = s.len();
    if n == 0 {
        return None;
    }
    let mut acc: u64 = 0;
    let mut i: usize = 0;
    while i < n
        invariant
            n == s@.len(),
            0 <= i <= n,
            forall|k: int| 0 <= k < i ==> is_digit(#[trigger] s@[k]),
            acc as int == dec_val(s@.take(i as int)),
        decreases n - i,
    {
        let c = s[i];
        if !(48 <= c && c <= 57) {
            return None;
        }
        let d: u64 = (c - 48) as u64;
        proof {
            lemma_dec_val_take_succ(s@, i as int);
        }
        let next = match acc.checked_mul(10) {
            Some(m) => m.checked_add(d),
            None => None,
        };
        match next {
            Some(v) => {
                acc = v;
            },
            None => {
                proof {
                    if is_dec(s@) {
                        lemma_dec_val_take_le(s@, i + 1);
                    }
                }
                return None;
            },
        }
        i = i + 1;
    }
    proof {
        assert(s@.take(n as int) =~= s@);
    }
    Some(acc)
}

proof fn lemma_split_sp_len(l: Seq<u8>)
    ensures
        split_sp(l).len() >= 1,
    decreases l.len(),
{
    let k = find_from(l, 32, 0);
    if 0 <= k && k < l.len() {
        lemma_split_sp_len(l.subrange(k + 1, l.len() as int));
    }
}

/// Parse one nonempty dump line into a record, exactly as
/// [`spec_parse_line`] reads it.
fn parse_line(line: &[u8]) -> (r: Option<ExtentChecksumRecord>)
    ensures
        match r {
            Some(rec) => spec_parse_line(line@) == Some(rec@),
            None => spec_parse_line(line@) is None,
        },
{
    let n = line.len();
    let k1 = find_byte(line, 32);
    if k1 == n {
        proof {
            assert(split_sp(line@) =~= seq![line@]);
        }
        return None;
    }
    let rest1 = vstd::slice::slice_subrange(line, k1 + 1, n);
    let k2 = find_byte(rest1, 32);
    proof {
        assert(split_sp(line@) == seq![line@.subrange(0, k1 as int)] + split_sp(rest1@));
    }
    if k2 == rest1.len() {
        proof {
            assert(split_sp(rest1@) =~= seq![rest1@]);
            assert(split_sp(line@).len() == 2);
        }
        return None;
    }
    let f2 = vstd::slice::slice_subrange(rest1, k2 + 1, rest1.len());
    proof {
        assert(split_sp(rest1@) == seq![rest1@.subrange(0, k2 as int)] + split_sp(f2@));
    }
    let k3 = find_byte(f2, 32);
    if k3 != f2.len() {
        proof {
            lemma_split_sp_len(f2@.subrange(k3 as int + 1, f2@.len() as int));
            assert(split_sp(f2@).len() >= 2);
            assert(split_sp(line@).len() >= 4);
        }
        return None;
    }
    proof {
        assert(split_sp(f2@) =~= seq![f2@]);
        assert(split_sp(line@) =~= seq![
            line@.subrange(0, k1 as int),
            rest1@.subrange(0, k2 as int),
            f2@,
        ]);
    }
    let f0 = vstd::slice::slice_subrange(line, 0, k1);
    let f1 = vstd::slice::slice_subrange(rest1, 0, k2);
    if f2.len() == 0 {
        return None;
    }
    let offset = match parse_u64(f0) {
        Some(v) => v,
        None => {
            return None;
        },
    };
    let length = match parse_u64(f1) {
        Some(v) => v,
        None => {
            return None;
        },
    };
    Some(ExtentChecksumRecord { offset, length, checksum: vstd::slice::slice_to_vec(f2) })
}

/// Parse the whole dump output into records, exactly as
/// [`spec_parse_records`] reads it.
fn parse_records(s: &[u8]) -> (r: Option<Vec<ExtentChecksumRecord>>)
    ensures
        match r {
            Some(v) => spec_parse_records(s@) == Some(recs_view(v@)),
            None => spec_parse_records(s@) is None,
        },
    decreases s@.len(),
{
    let n = s.len();
    if n == 0 {
        let v: Vec<ExtentChecksumRecord> = Vec::new();
        proof {
            assert(recs_view(v@) =~= Seq::<GRecord>::empty());
        }
        return Some(v);
    }
    let k = find_byte(s, 10);
    if k < n {
        let line = vstd::slice::slice_subrange(s, 0, k);
        let rest = vstd::slice::slice_subrange(s, k + 1, n);
        let tail = parse_records(rest);
        match tail {
            None => None,
            Some(tv) => {
                if line.len() == 0 {
                    Some(tv)
                } else {
                    match parse_line(line) {
                        None => None,
                        Some(rec) => {
                            let mut tv = tv;
                            let ghost tv0 = tv@;
                            let mut v: Vec<ExtentChecksumRecord> = Vec::new();
                            v.push(rec);
                            v.append(&mut tv);
                            proof {
                                assert(v@ =~= seq![rec] + tv0);
                                assert(recs_view(v@) =~= seq![rec@] + recs_view(tv0));
                            }
                            Some(v)
                        },
                    }
                }
            },
        }
    } else {
        match parse_line(s) {
            None => None,
            Some(rec) => {
                let mut v: Vec<ExtentChecksumRecord> = Vec::new();
                v.push(rec);
                proof {
                    assert(recs_view(v@) =~= seq![rec@]);
                }
                Some(v)
            },
        }
    }
}

/// Check the extent-sequence invariant on parsed records.
fn records_well_formed(v: &Vec<ExtentChecksumRecord>) -> (r: bool)
    ensures
        r == records_wf(recs_view(v@)),
{
    let ghost g = recs_view(v@);
    let n = v.len();
    let mut i: usize = 0;
    while i < n
        invariant
            n == v@.len(),
            g == recs_view(v@),
            0 <= i <= n,
            forall|k: int| 0 <= k < i ==> record_ok(#[trigger] g[k]),
            forall|k: int| 0 <= k && k + 1 <= i && k + 1 < n ==> (#[trigger] g[k]).offset
                + g[k].length <= g[k + 1].offset,
        decreases n - i,
    {
        let rec = &v[i];
        if rec.length == 0 || rec.checksum.len() == 0 {
            assert(!record_ok(g[i as int]));
            return false;
        }
        let end = match rec.offset.checked_add(rec.length) {
            Some(e) => e,
            None => {
                assert(!record_ok(g[i as int]));
                return false;
            },
        };
        if i + 1 < n {
            if end > v[i + 1].offset {
                assert(!(g[i as int].offset + g[i as int].length <= g[i as int + 1].offset));
                return false;
            }
        }
        i = i + 1;
    }
    true
}

/// A file together with its complete, well-formed extent checksum
/// profile. Values exist only as results of a successful extraction.
#[derive(Clone, Debug)]
pub struct FileChecksumProfile {
    file: ValidatedFile,
    extents: Vec<ExtentChecksumRecord>,
}

impl FileChecksumProfile {
    /// The path of the profiled file.
    pub closed spec fn path_spec(&self) -> Seq<char> {
        self.file.path_spec()
    }

    /// The profile's extent records, as their mathematical image.
    pub closed spec fn extents_view(&self) -> Seq<GRecord> {
        recs_view(self.extents@)
    }

    /// Every profile that can be obtained satisfies the
    /// extent-sequence invariant.
    pub open spec fn wf(&self) -> bool {
        records_wf(self.extents_view())
    }

    /// The profiled file.
    pub fn file(&self) -> (r: &ValidatedFile)
        ensures
            r.path_spec() == self.path_spec(),
    {
        &self.file
    }

    /// The extent records, in ascending offset order.
    pub fn extents(&self) -> (r: &Vec<ExtentChecksumRecord>)
        ensures
            recs_view(r@) == self.extents_view(),
    {
        &self.extents
    }
}

/// Parse the raw output of the checksum dump tool for `file` into its
/// checksum profile. Returns the profile exactly when the output is
/// well formed as [`spec_extract`] states it; a malformed line or a
/// broken extent sequence yields `ParseError` and no partial profile.
pub fn extract_checksums(file: ValidatedFile, raw: &Vec<u8>) -> (r: Result<
    FileChecksumProfile,
    ExtractionError,
>)
    ensures
        match r {
            Ok(p) => {
                &&& spec_extract(raw@) == Some(p.extents_view())
                &&& p.path_spec() == file.path_spec()
                &&& p.wf()
            },
            Err(e) => {
                &&& e == ExtractionError::ParseError
                &&& spec_extract(raw@) is None
            },
        },
{
    match parse_records(raw.as_slice()) {
        None => Err(ExtractionError::ParseError),
        Some(extents) => {
            if records_well_formed(&extents) {
                Ok(FileChecksumProfile { file, extents })
            } else {
                Err(ExtractionError::ParseError)
            }
        },
    }
}

} // verus!
