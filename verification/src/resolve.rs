//! The duplicate resolver: compare two files' checksum profiles and
//! decide what may be shared.
//!
//! The comparison walks both ordered extent sequences with a
//! two-pointer merge and compares checksums only for equal-offset,
//! equal-length extents; unequal-length extents at the same offset are
//! no match for that offset. This deliberately forgoes sub-extent
//! splitting: it is a documented simplifying policy, not an oversight.
//! Contiguous matches coalesce into one region; regions whose length
//! is not a positive multiple of the filesystem's minimum shareable
//! unit are discarded, never rounded.

use vstd::prelude::*;

use crate::checksum::{extents_total, extents_total_from, records_wf, FileChecksumProfile, GRecord};

verus! {

/// A contiguous run of identical content between two files.
#[derive(Clone, Copy, PartialEq, Eq, Structural, Debug)]
pub struct MatchRegion {
    pub src_offset: u64,
    pub dst_offset: u64,
    pub length: u64,
}

/// Mathematical image of a match region.
pub ghost struct GRegion {
    pub src: int,
    pub dst: int,
    pub len: int,
}

impl View for MatchRegion {
    type V = GRegion;

    open spec fn view(&self) -> GRegion {
        GRegion { src: self.src_offset as int, dst: self.dst_offset as int, len: self.length as int }
    }
}

/// The mathematical image of a region sequence.
pub open spec fn regions_view(s: Seq<MatchRegion>) -> Seq<GRegion> {
    s.map_values(|r: MatchRegion| r@)
}

/// Outcome of comparing one candidate pair.
#[derive(Clone, Debug, PartialEq, Eq)]
pub enum DedupDecision {
    /// No shareable region exists.
    NoMatch,
    /// Some, but not all, of the allocated content can be shared.
    PartialMatch(Vec<MatchRegion>),
    /// The shareable regions cover both files' whole allocated length.
    FullMatch,
}

/// One extent-sharing request for the filesystem driver.
#[derive(Clone, Debug, PartialEq, Eq)]
pub struct ShareRequest {
    pub src_path: String,
    pub dst_path: String,
    pub src_offset: u64,
    pub dst_offset: u64,
    pub length: u64,
}

/// Mathematical image of a share request.
pub ghost struct GRequest {
    pub src: Seq<char>,
    pub dst: Seq<char>,
    pub region: GRegion,
}

impl View for ShareRequest {
    type V = GRequest;

    open spec fn view(&self) -> GRequest {
        GRequest {
            src: self.src_path@,
            dst: self.dst_path@,
            region: GRegion {
                src: self.src_offset as int,
                dst: self.dst_offset as int,
                len: self.length as int,
            },
        }
    }
}

/// The mathematical image of a request sequence.
pub open spec fn reqs_view(s: Seq<ShareRequest>) -> Seq<GRequest> {
    s.map_values(|r: ShareRequest| r@)
}

/// One request per region, all for the same pair of paths.
pub open spec fn requests_of(sp: Seq<char>, dp: Seq<char>, regs: Seq<GRegion>) -> Seq<GRequest> {
    regs.map_values(|g: GRegion| GRequest { src: sp, dst: dp, region: g })
}

/// The result of a dedup decision: the classification, and the share
/// requests owed for it (none in dry-run mode).
pub struct DedupeOutcome {
    pub decision: DedupDecision,
    pub requests: Vec<ShareRequest>,
}

/// The two-pointer merge over both extent sequences, from positions
/// `i` and `j`: extents at the same offset with equal lengths and
/// equal checksums match; everything else is skipped.
pub open spec fn raw_matches(a: Seq<GRecord>, b: Seq<GRecord>, i: int, j: int) -> Seq<GRegion>
    decreases a.len() - i + b.len() - j,
{
    if i < 0 || j < 0 || i >= a.len() || j >= b.len() {
        Seq::empty()
    } else if a[i].offset < b[j].offset {
        raw_matches(a, b, i + 1, j)
    } else if b[j].offset < a[i].offset {
        raw_matches(a, b, i, j + 1)
    } else if a[i].length == b[j].length && a[i].checksum == b[j].checksum {
        seq![GRegion { src: a[i].offset, dst: b[j].offset, len: a[i].length }] + raw_matches(
            a,
            b,
            i + 1,
            j + 1,
        )
    } else {
        raw_matches(a, b, i + 1, j + 1)
    }
}

/// Two adjacent matches merge when they are contiguous in both files.
/// The length bound keeps the merged length inside the on-disk offset
/// type; for matches of a well-formed profile it always holds.
pub open spec fn merge_ok(cur: GRegion, nxt: GRegion) -> bool {
    &&& cur.src + cur.len == nxt.src
    &&& cur.dst + cur.len == nxt.dst
    &&& cur.len + nxt.len <= u64::MAX
}

/// Coalesce raw matches from position `i`, with `cur` the region
/// accumulated so far.
pub open spec fn coalesce_from(s: Seq<GRegion>, cur: GRegion, i: int) -> Seq<GRegion>
    decreases s.len() - i,
{
    if i < 0 || i >= s.len() {
        seq![cur]
    } else if merge_ok(cur, s[i]) {
        coalesce_from(s, GRegion { src: cur.src, dst: cur.dst, len: cur.len + s[i].len }, i + 1)
    } else {
        seq![cur] + coalesce_from(s, s[i], i + 1)
    }
}

/// Coalesce a whole raw match sequence.
pub open spec fn coalesce(s: Seq<GRegion>) -> Seq<GRegion> {
    if s.len() == 0 {
        Seq::empty()
    } else {
        coalesce_from(s, s[0], 1)
    }
}

/// A region is dedup-eligible when its length is a positive multiple
/// of the minimum shareable unit.
pub open spec fn keep_region(r: GRegion, bs: int) -> bool {
    r.len > 0 && r.len % bs == 0
}

/// The eligible regions among `s`, from position `i`, in order.
pub open spec fn eligible_from(s: Seq<GRegion>, bs: int, i: int) -> Seq<GRegion>
    decreases s.len() - i,
{
    if i < 0 || i >= s.len() {
        Seq::empty()
    } else if keep_region(s[i], bs) {
        seq![s[i]] + eligible_from(s, bs, i + 1)
    } else {
        eligible_from(s, bs, i + 1)
    }
}

/// The shareable regions of a pair of profiles: raw matches,
/// coalesced, with ineligible regions discarded.
pub open spec fn spec_regions(a: Seq<GRecord>, b: Seq<GRecord>, bs: int) -> Seq<GRegion> {
    eligible_from(coalesce(raw_matches(a, b, 0, 0)), bs, 0)
}

/// Total length of the regions in `s`, from position `i`.
pub open spec fn regions_total_from(s: Seq<GRegion>, i: int) -> int
    decreases s.len() - i,
{
    if i < 0 || i >= s.len() {
        0
    } else {
        s[i].len + regions_total_from(s, i + 1)
    }
}

/// Total length of the regions in `s`.
pub open spec fn regions_total(s: Seq<GRegion>) -> int {
    regions_total_from(s, 0)
}

/// A pair is a full match when it has a shareable region and the
/// shareable regions cover both files' whole allocated length.
pub open spec fn spec_full_match(a: Seq<GRecord>, b: Seq<GRecord>, bs: int) -> bool {
    &&& spec_regions(a, b, bs).len() > 0
    &&& regions_total(spec_regions(a, b, bs)) == extents_total(a)
    &&& regions_total(spec_regions(a, b, bs)) == extents_total(b)
}

proof fn lemma_total_cons_from(g: GRegion, s: Seq<GRegion>, i: int)
    requires
        0 <= i <= s.len(),
    ensures
        regions_total_from(seq![g] + s, i + 1) == regions_total_from(s, i),
    decreases s.len() - i,
{
    if i < s.len() {
        lemma_total_cons_from(g, s, i + 1);
        assert((seq![g] + s)[i + 1] == s[i]);
    }
}

proof fn lemma_total_cons(g: GRegion, s: Seq<GRegion>)
    ensures
        regions_total(seq![g] + s) == g.len + regions_total(s),
{
    lemma_total_cons_from(g, s, 0);
    assert((seq![g] + s)[0] == g);
}

proof fn lemma_coalesce_total(s: Seq<GRegion>, cur: GRegion, i: int)
    requires
        0 <= i <= s.len(),
    ensures
        regions_total(coalesce_from(s, cur, i)) == cur.len + regions_total_from(s, i),
    decreases s.len() - i,
{
    if i >= s.len() {
        assert(regions_total_from(seq![cur], 1) == 0);
    } else if merge_ok(cur, s[i]) {
        lemma_coalesce_total(s, GRegion { src: cur.src, dst: cur.dst, len: cur.len + s[i].len }, i + 1);
    } else {
        lemma_coalesce_total(s, s[i], i + 1);
        lemma_total_cons(cur, coalesce_from(s, s[i], i + 1));
    }
}

proof fn lemma_coalesce_keeps(s: Seq<GRegion>, cur: GRegion, i: int, bs: int)
    requires
        bs > 0,
        0 <= i <= s.len(),
        cur.len > 0,
        cur.len % bs == 0,
        forall|k: int| i <= k < s.len() ==> (#[trigger] s[k]).len > 0 && s[k].len % bs == 0,
    ensures
        coalesce_from(s, cur, i).len() >= 1,
        forall|k: int|
            0 <= k < coalesce_from(s, cur, i).len() ==> keep_region(
                #[trigger] coalesce_from(s, cur, i)[k],
                bs,
            ),
    decreases s.len() - i,
{
    if i < s.len() {
        if merge_ok(cur, s[i]) {
            let merged = GRegion { src: cur.src, dst: cur.dst, len: cur.len + s[i].len };
            vstd::arithmetic::div_mod::lemma_add_mod_noop(cur.len, s[i].len, bs);
            vstd::arithmetic::div_mod::lemma_small_mod(0, bs as nat);
            assert(merged.len % bs == 0);
            lemma_coalesce_keeps(s, merged, i + 1, bs);
        } else {
            lemma_coalesce_keeps(s, s[i], i + 1, bs);
            let rest = coalesce_from(s, s[i], i + 1);
            assert forall|k: int| 0 <= k < coalesce_from(s, cur, i).len() implies keep_region(
                #[trigger] coalesce_from(s, cur, i)[k],
                bs,
            ) by {
                if k == 0 {
                    assert(coalesce_from(s, cur, i)[0] == cur);
                } else {
                    assert(coalesce_from(s, cur, i)[k] == rest[k - 1]);
                }
            }
        }
    }
}

proof fn lemma_eligible_all(s: Seq<GRegion>, bs: int, i: int)
    requires
        0 <= i <= s.len(),
        forall|k: int| 0 <= k < s.len() ==> keep_region(#[trigger] s[k], bs),
    ensures
        eligible_from(s, bs, i) == s.subrange(i, s.len() as int),
    decreases s.len() - i,
{
    if i >= s.len() {
        assert(s.subrange(i, s.len() as int) =~= Seq::<GRegion>::empty());
    } else {
        lemma_eligible_all(s, bs, i + 1);
        assert(seq![s[i]] + s.subrange(i + 1, s.len() as int) =~= s.subrange(i, s.len() as int));
    }
}

proof fn lemma_raw_self(a: Seq<GRecord>, i: int)
    requires
        0 <= i <= a.len(),
    ensures
        raw_matches(a, a, i, i).len() == a.len() - i,
        regions_total(raw_matches(a, a, i, i)) == extents_total_from(a, i),
        forall|k: int|
            0 <= k < a.len() - i ==> (#[trigger] raw_matches(a, a, i, i)[k]).len == a[i + k].length,
    decreases a.len() - i,
{
    if i < a.len() {
        lemma_raw_self(a, i + 1);
        let g = GRegion { src: a[i].offset, dst: a[i].offset, len: a[i].length };
        let rest = raw_matches(a, a, i + 1, i + 1);
        assert(raw_matches(a, a, i, i) == seq![g] + rest);
        lemma_total_cons(g, rest);
        assert forall|k: int| 0 <= k < a.len() - i implies (#[trigger] raw_matches(a, a, i, i)[k]).len
            == a[i + k].length by {
            if k > 0 {
                assert(raw_matches(a, a, i, i)[k] == rest[k - 1]);
            }
        }
    }
}

/// Hole safety: a file with no allocated extents shares nothing. Two
/// hole-only files have no shareable region at all, so they resolve to
/// no match, never a full one.
pub proof fn lemma_holes_no_match(a: Seq<GRecord>, b: Seq<GRecord>, bs: int)
    requires
        a.len() == 0 || b.len() == 0,
    ensures
        spec_regions(a, b, bs).len() == 0,
        !spec_full_match(a, b, bs),
{
    assert(raw_matches(a, b, 0, 0) =~= Seq::<GRegion>::empty());
}

/// Matching correctness: two files with identical content and
/// identical extent layout — the same well-formed extent sequence,
/// every extent a multiple of the shareable unit — resolve to a full
/// match whose regions cover the files' entire allocated length.
pub proof fn lemma_identical_profiles_full_match(a: Seq<GRecord>, bs: int)
    requires
        records_wf(a),
        a.len() > 0,
        bs > 0,
        forall|i: int| 0 <= i < a.len() ==> (#[trigger] a[i]).length % bs == 0,
    ensures
        spec_full_match(a, a, bs),
        regions_total(spec_regions(a, a, bs)) == extents_total(a),
{
    let raw = raw_matches(a, a, 0, 0);
    lemma_raw_self(a, 0);
    let coalesced = coalesce(raw);
    lemma_coalesce_total(raw, raw[0], 1);
    assert(regions_total_from(raw, 0) == raw[0].len + regions_total_from(raw, 1));
    assert(regions_total(coalesced) == regions_total(raw));
    assert(raw[0].len == a[0].length);
    assert(forall|k: int|
        1 <= k < raw.len() ==> (#[trigger] raw[k]).len > 0 && raw[k].len % bs == 0) by {
        assert(forall|k: int|
            0 <= k < a.len() ==> (#[trigger] raw_matches(a, a, 0, 0)[k]).len == a[k].length);
    }
    lemma_coalesce_keeps(raw, raw[0], 1, bs);
    lemma_eligible_all(coalesced, bs, 0);
    assert(coalesced.subrange(0, coalesced.len() as int) =~= coalesced);
    assert(spec_regions(a, a, bs) == coalesced);
}

/// Bytewise equality of two checksum tokens.
fn bytes_eq(x: &Vec<u8>, y: &Vec<u8>) -> (r: bool)
    ensures
        r == (x@ == y@),
{
    if x.len() != y.len() {
        return false;
    }
    let n = x.len();
    let mut i: usize = 0;
    while i < n
        invariant
            n == x@.len() == y@.len(),
            0 <= i <= n,
            forall|k: int| 0 <= k < i ==> x@[k] == y@[k],
        decreases n - i,
    {
        if x[i] != y[i] {
            return false;
        }
        i = i + 1;
    }
    proof {
        assert(x@ =~= y@);
    }
    true
}

/// Sum of the region lengths in `v`.
fn sum_region_lengths(v: &Vec<MatchRegion>) -> (t: u128)
    ensures
        t as int == regions_total(regions_view(v@)),
{
    let ghost s = regions_view(v@);
    let n = v.len();
    let mut acc: u128 = 0;
    let mut i: usize = 0;
    while i < n
        invariant
            n == v@.len(),
            s == regions_view(v@),
            0 <= i <= n,
            acc as int + regions_total_from(s, i as int) == regions_total(s),
            acc as int <= i * (u64::MAX as int),
        decreases n - i,
    {
        proof {
            assert(acc as int + (u64::MAX as int) <= u128::MAX) by (nonlinear_arith)
                requires
                    acc as int <= i * (u64::MAX as int),
                    0 <= i <= usize::MAX,
            ;
            assert(s[i as int].len == v@[i as int].length as int);
        }
        acc = acc + (v[i].length as u128);
        i = i + 1;
    }
    acc
}

/// Sum of the extent lengths in `v`.
fn sum_extent_lengths(v: &Vec<crate::checksum::ExtentChecksumRecord>) -> (t: u128)
    ensures
        t as int == extents_total(crate::checksum::recs_view(v@)),
{
    let ghost s = crate::checksum::recs_view(v@);
    let n = v.len();
    let mut acc: u128 = 0;
    let mut i: usize = 0;
    while i < n
        invariant
            n == v@.len(),
            s == crate::checksum::recs_view(v@),
            0 <= i <= n,
            acc as int + extents_total_from(s, i as int) == extents_total(s),
            acc as int <= i * (u64::MAX as int),
        decreases n - i,
    {
        proof {
            assert(acc as int + (u64::MAX as int) <= u128::MAX) by (nonlinear_arith)
                requires
                    acc as int <= i * (u64::MAX as int),
                    0 <= i <= usize::MAX,
            ;
            assert(s[i as int].length == v@[i as int].length as int);
        }
        acc = acc + (v[i].length as u128);
        i = i + 1;
    }
    acc
}

/// Resolve one candidate pair from its two checksum profiles: classify
/// the pair as [`spec_regions`] and [`spec_full_match`] state it, and
/// produce one share request per shareable region — none at all when
/// `dry_run` is set. The decision itself never depends on `dry_run`,
/// so repeated dry runs on the same profiles are deterministic. The
/// function has no side effect; issuing the returned requests is the
/// caller's business.
pub fn do_dedupe(
    src: &FileChecksumProfile,
    dst: &FileChecksumProfile,
    dry_run: bool,
    block_size: u64,
) -> (r: DedupeOutcome)
    requires
        src.wf(),
        dst.wf(),
        block_size > 0,
    ensures
        ({
            let regs = spec_regions(src.extents_view(), dst.extents_view(), block_size as int);
            &&& (regs.len() == 0 ==> r.decision == DedupDecision::NoMatch)
            &&& (spec_full_match(src.extents_view(), dst.extents_view(), block_size as int)
                ==> r.decision == DedupDecision::FullMatch)
            &&& (regs.len() > 0 && !spec_full_match(
                src.extents_view(),
                dst.extents_view(),
                block_size as int,
            ) ==> (r.decision matches DedupDecision::PartialMatch(v) && regions_view(v@) == regs))
            &&& (dry_run ==> r.requests@.len() == 0)
            &&& (!dry_run ==> reqs_view(r.requests@) == requests_of(
                src.path_spec(),
                dst.path_spec(),
                regs,
            ))
        }),
{
    let a = src.extents();
    let b = dst.extents();
    let ghost ga = src.extents_view();
    let ghost gb = dst.extents_view();
    let na = a.len();
    let nb = b.len();

    // Two-pointer merge over both ordered extent sequences.
    let mut raw: Vec<MatchRegion> = Vec::new();
    let mut i: usize = 0;
    let mut j: usize = 0;
    while i < na && j < nb
        invariant
            na == a@.len(),
            nb == b@.len(),
            ga == crate::checksum::recs_view(a@),
            gb == crate::checksum::recs_view(b@),
            0 <= i <= na,
            0 <= j <= nb,
            raw_matches(ga, gb, 0, 0) == regions_view(raw@) + raw_matches(
                ga,
                gb,
                i as int,
                j as int,
            ),
        decreases na - i + nb - j,
    {
        proof {
            assert(ga[i as int] == a@[i as int]@);
            assert(gb[j as int] == b@[j as int]@);
        }
        let ra = &a[i];
        let rb = &b[j];
        if ra.offset < rb.offset {
            i = i + 1;
        } else if rb.offset < ra.offset {
            j = j + 1;
        } else if ra.length == rb.length && bytes_eq(&ra.checksum, &rb.checksum) {
            let g = MatchRegion { src_offset: ra.offset, dst_offset: rb.offset, length: ra.length };
            let ghost prev = regions_view(raw@);
            raw.push(g);
            proof {
                assert(regions_view(raw@) =~= prev + seq![g@]);
                assert(raw_matches(ga, gb, i as int, j as int) == seq![g@] + raw_matches(
                    ga,
                    gb,
                    i as int + 1,
                    j as int + 1,
                ));
                assert((prev + seq![g@]) + raw_matches(ga, gb, i as int + 1, j as int + 1) =~= prev
                    + (seq![g@] + raw_matches(ga, gb, i as int + 1, j as int + 1)));
            }
            i = i + 1;
            j = j + 1;
        } else {
            i = i + 1;
            j = j + 1;
        }
    }
    let ghost graw = regions_view(raw@);
    proof {
        assert(raw_matches(ga, gb, i as int, j as int) =~= Seq::<GRegion>::empty());
        assert(graw + Seq::<GRegion>::empty() =~= graw);
        assert(raw_matches(ga, gb, 0, 0) == graw);
    }

    // Coalesce contiguous matches.
    let mut regions: Vec<MatchRegion> = Vec::new();
    if raw.len() > 0 {
        let mut cur: MatchRegion = raw[0];
        let mut k: usize = 1;
        proof {
            assert(cur@ == graw[0]);
        }
        while k < raw.len()
            invariant
                graw == regions_view(raw@),
                1 <= k <= raw@.len(),
                coalesce(graw) == regions_view(regions@) + coalesce_from(graw, cur@, k as int),
            decreases raw@.len() - k,
        {
            let rk = raw[k];
            proof {
                assert(rk@ == graw[k as int]);
            }
            let se = cur.src_offset.checked_add(cur.length);
            let de = cur.dst_offset.checked_add(cur.length);
            let nl = cur.length.checked_add(rk.length);
            let mut merged = false;
            if let (Some(se2), Some(de2), Some(nl2)) = (se, de, nl) {
                if se2 == rk.src_offset && de2 == rk.dst_offset {
                    proof {
                        assert(merge_ok(cur@, graw[k as int]));
                    }
                    cur =
                    MatchRegion {
                        src_offset: cur.src_offset,
                        dst_offset: cur.dst_offset,
                        length: nl2,
                    };
                    merged = true;
                }
            }
            if !merged {
                proof {
                    assert(!merge_ok(cur@, graw[k as int]));
                    assert(coalesce_from(graw, cur@, k as int) == seq![cur@] + coalesce_from(
                        graw,
                        graw[k as int],
                        k as int + 1,
                    ));
                }
                let ghost prev = regions_view(regions@);
                regions.push(cur);
                proof {
                    assert(regions_view(regions@) =~= prev + seq![cur@]);
                    assert((prev + seq![cur@]) + coalesce_from(graw, graw[k as int], k as int + 1)
                        =~= prev + (seq![cur@] + coalesce_from(graw, graw[k as int], k as int + 1)));
                }
                cur = rk;
            }
            k = k + 1;
        }
        let ghost prev = regions_view(regions@);
        regions.push(cur);
        proof {
            assert(coalesce_from(graw, cur@, k as int) == seq![cur@]);
            assert(regions_view(regions@) =~= prev + seq![cur@]);
        }
    }
    let ghost gcoal = regions_view(regions@);
    proof {
        assert(coalesce(graw) == gcoal);
    }

    // Discard regions that are not a positive multiple of the
    // shareable unit.
    let mut kept: Vec<MatchRegion> = Vec::new();
    let nr = regions.len();
    let mut t: usize = 0;
    while t < nr
        invariant
            nr == regions@.len(),
            gcoal == regions_view(regions@),
            0 <= t <= nr,
            block_size > 0,
            eligible_from(gcoal, block_size as int, 0) == regions_view(kept@) + eligible_from(
                gcoal,
                block_size as int,
                t as int,
            ),
        decreases nr - t,
    {
        let rt = regions[t];
        proof {
            assert(rt@ == gcoal[t as int]);
        }
        if rt.length > 0 && rt.length % block_size == 0 {
            proof {
                assert(keep_region(gcoal[t as int], block_size as int));
                assert(eligible_from(gcoal, block_size as int, t as int) == seq![gcoal[t as int]]
                    + eligible_from(gcoal, block_size as int, t as int + 1));
            }
            let ghost prev = regions_view(kept@);
            kept.push(rt);
            proof {
                assert(regions_view(kept@) =~= prev + seq![rt@]);
                assert((prev + seq![rt@]) + eligible_from(gcoal, block_size as int, t as int + 1)
                    =~= prev + (seq![rt@] + eligible_from(gcoal, block_size as int, t as int + 1)));
            }
        } else {
            proof {
                assert(!keep_region(gcoal[t as int], block_size as int));
            }
        }
        t = t + 1;
    }
    let ghost gregs = regions_view(kept@);
    proof {
        assert(eligible_from(gcoal, block_size as int, t as int) =~= Seq::<GRegion>::empty());
        assert(gregs + Seq::<GRegion>::empty() =~= gregs);
        assert(spec_regions(ga, gb, block_size as int) == gregs);
    }

    // Classify, and build the share requests owed.
    let matched = sum_region_lengths(&kept);
    let ta = sum_extent_lengths(a);
    let tb = sum_extent_lengths(b);

    let mut requests: Vec<ShareRequest> = Vec::new();
    if !dry_run {
        let sp = src.file().path().clone();
        let dp = dst.file().path().clone();
        let nk = kept.len();
        let mut q: usize = 0;
        while q < nk
            invariant
                nk == kept@.len(),
                gregs == regions_view(kept@),
                0 <= q <= nk,
                sp@ == src.path_spec(),
                dp@ == dst.path_spec(),
                reqs_view(requests@) == requests_of(sp@, dp@, gregs.take(q as int)),
            decreases nk - q,
        {
            let kq = kept[q];
            proof {
                assert(kq@ == gregs[q as int]);
                assert(gregs.take(q as int + 1) =~= gregs.take(q as int).push(gregs[q as int]));
            }
            let ghost prev = reqs_view(requests@);
            proof {
                assert(gregs.take(q as int).len() == q);
                assert(prev.len() == requests@.len());
                assert(requests@.len() == q);
            }
            requests.push(
                ShareRequest {
                    src_path: sp.clone(),
                    dst_path: dp.clone(),
                    src_offset: kq.src_offset,
                    dst_offset: kq.dst_offset,
                    length: kq.length,
                },
            );
            proof {
                assert(gregs.len() == nk as int);
                assert(q as int + 1 <= gregs.len());
                let lhs = reqs_view(requests@);
                let rhs = requests_of(sp@, dp@, gregs.take(q as int + 1));
                assert(rhs.len() == q + 1);
                assert(lhs.len() == q + 1);
                assert forall|w: int| 0 <= w < lhs.len() implies lhs[w] == rhs[w] by {
                    assert(lhs[w] == requests@[w]@);
                    assert(rhs[w] == GRequest {
                        src: sp@,
                        dst: dp@,
                        region: gregs.take(q as int + 1)[w],
                    });
                    if w < q {
                        assert(lhs[w] == prev[w]);
                        assert(gregs.take(q as int + 1)[w] == gregs.take(q as int)[w]);
                        assert(prev[w] == GRequest {
                            src: sp@,
                            dst: dp@,
                            region: gregs.take(q as int)[w],
                        });
                    } else {
                        assert(gregs.take(q as int + 1)[w] == gregs[q as int]);
                    }
                }
                assert(lhs =~= rhs);
                assert(reqs_view(requests@) == requests_of(sp@, dp@, gregs.take(q as int + 1)));
            }
            q = q + 1;
        }
        proof {
            assert(gregs.take(nk as int) =~= gregs);
        }
    }

    let decision = if kept.len() == 0 {
        DedupDecision::NoMatch
    } else if matched == ta && matched == tb {
        DedupDecision::FullMatch
    } else {
        DedupDecision::PartialMatch(kept)
    };
    DedupeOutcome { decision, requests }
}

/// Idempotence of resolution: once a pair has been fully shared, the
/// two files' extent checksums coincide, so resolving the same pair
/// again classifies it as a full match again — re-running the resolver
/// on an already-shared pair never degrades the decision.
pub proof fn lemma_reshare_idempotent(a: Seq<GRecord>, b: Seq<GRecord>, bs: int)
    requires
        b == a,
        records_wf(a),
        a.len() > 0,
        bs > 0,
        forall|i: int| 0 <= i < a.len() ==> (#[trigger] a[i]).length % bs == 0,
    ensures
        spec_full_match(a, b, bs),
{
    lemma_identical_profiles_full_match(a, bs);
}

} // verus!
