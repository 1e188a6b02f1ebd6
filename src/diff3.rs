//! An in-memory three-way merge of line sequences: what changed between a
//! base and each of two later versions is combined, and changes of both
//! versions to the same base lines that differ are set off by markers.
use vstd::prelude::*;
use crate::merge::MergeOutcome;

verus! {

/// The texts of a sequence of lines.
pub open spec fn lines_view(v: Seq<String>) -> Seq<Seq<char>> {
    v.map_values(|s: String| s@)
}

/// A change: base lines `start..end` became lines `from..to` of the other version.
#[derive(Clone, Copy, Debug, PartialEq, Eq, Structural)]
pub struct Hunk {
    pub start: usize,
    pub end: usize,
    pub from: usize,
    pub to: usize,
}

/// Where the base lines before hunk `k` end to be covered by earlier hunks.
pub open spec fn end_before(hs: Seq<Hunk>, k: int) -> int {
    if k <= 0 { 0 } else { hs[k - 1].end as int }
}

/// Where the other version's lines before hunk `k` end to be covered by earlier hunks.
pub open spec fn to_before(hs: Seq<Hunk>, k: int) -> int {
    if k <= 0 { 0 } else { hs[k - 1].to as int }
}

/// The hunks turn `base` into `side`: they come in order, and the lines
/// between them, and after the last, are the same in both.
#[verifier::opaque]
pub open spec fn valid_diff(base: Seq<Seq<char>>, side: Seq<Seq<char>>, hs: Seq<Hunk>) -> bool {
    &&& forall|k: int| 0 <= k < hs.len() ==> (#[trigger] hs[k]).start <= hs[k].end <= base.len()
        && hs[k].from <= hs[k].to <= side.len()
    &&& forall|i: int, j: int| 0 <= i < j < hs.len() ==> (#[trigger] hs[i]).end <= (#[trigger] hs[j]).start
        && hs[i].to <= hs[j].from
    &&& forall|k: int| 0 <= k < hs.len() ==> end_before(hs, k) <= (#[trigger] hs[k]).start
        && to_before(hs, k) <= hs[k].from
        && base.subrange(end_before(hs, k), hs[k].start as int) == side.subrange(to_before(hs, k), hs[k].from as int)
    &&& end_before(hs, hs.len() as int) <= base.len()
    &&& to_before(hs, hs.len() as int) <= side.len()
    &&& base.subrange(end_before(hs, hs.len() as int), base.len() as int)
        == side.subrange(to_before(hs, hs.len() as int), side.len() as int)
}

/// The first line of `side` at or after `c` that equals line `a` of `base`;
/// the end of `side` when there is none.
pub open spec fn first_equal(base: Seq<Seq<char>>, side: Seq<Seq<char>>, a: int, c: int) -> int
    decreases side.len() - c,
{
    if c < 0 || c >= side.len() {
        side.len() as int
    } else if side[c] == base[a] {
        c
    } else {
        first_equal(base, side, a, c + 1)
    }
}

/// The first pair of equal lines at or after `a` in `base` and `c` in
/// `side`, searching `base` first; both ends when there is none.
pub open spec fn next_equal(base: Seq<Seq<char>>, side: Seq<Seq<char>>, a: int, c: int) -> (int, int)
    decreases base.len() - a,
{
    if a < 0 || a >= base.len() {
        (base.len() as int, side.len() as int)
    } else if first_equal(base, side, a, c) < side.len() {
        (a, first_equal(base, side, a, c))
    } else {
        next_equal(base, side, a + 1, c)
    }
}

/// The hunks that turn `base` from line `i` on into `side` from line `j`
/// on: equal lines are kept; at a difference, a hunk runs to the next pair
/// of equal lines.
pub open spec fn diff_from(base: Seq<Seq<char>>, side: Seq<Seq<char>>, i: int, j: int) -> Seq<Hunk>
    decreases (base.len() - i) + (side.len() - j),
{
    if !(0 <= i <= base.len() && 0 <= j <= side.len()) || (i == base.len() && j == side.len()) {
        Seq::empty()
    } else if i < base.len() && j < side.len() && base[i] == side[j] {
        diff_from(base, side, i + 1, j + 1)
    } else {
        let (si, sj) = next_equal(base, side, i, j);
        if si + sj <= i + j || si > base.len() || sj > side.len() {
            Seq::empty()
        } else {
            seq![Hunk { start: i as usize, end: si as usize, from: j as usize, to: sj as usize }]
                + diff_from(base, side, si, sj)
        }
    }
}

/// The hunks that turn `base` into `side`.
pub open spec fn diff(base: Seq<Seq<char>>, side: Seq<Seq<char>>) -> Seq<Hunk> {
    diff_from(base, side, 0, 0)
}

/// The first pair of equal lines at or after `i` in `base` and `j` in
/// `side`, searching `base` first; both ends when there is none.
fn next_match(base: &Vec<String>, side: &Vec<String>, i: usize, j: usize) -> (r: (usize, usize))
    requires
        i <= base@.len(),
        j <= side@.len(),
    ensures
        i <= r.0 <= base@.len(),
        j <= r.1 <= side@.len(),
        r.0 < base@.len() ==> r.1 < side@.len() && base@[r.0 as int]@ == side@[r.1 as int]@,
        r.0 == base@.len() ==> r.1 == side@.len(),
        (r.0 as int, r.1 as int) == next_equal(lines_view(base@), lines_view(side@), i as int, j as int),
{
    let ghost bv = lines_view(base@);
    let ghost sv = lines_view(side@);
    let mut a: usize = i;
    while a < base.len()
        invariant
            bv == lines_view(base@),
            sv == lines_view(side@),
            i <= a <= base@.len(),
            j <= side@.len(),
            next_equal(bv, sv, i as int, j as int) == next_equal(bv, sv, a as int, j as int),
        decreases base@.len() - a,
    {
        let mut b: usize = j;
        while b < side.len()
            invariant
                bv == lines_view(base@),
                sv == lines_view(side@),
                i <= a < base@.len(),
                j <= b <= side@.len(),
                next_equal(bv, sv, i as int, j as int) == next_equal(bv, sv, a as int, j as int),
                first_equal(bv, sv, a as int, j as int) == first_equal(bv, sv, a as int, b as int),
            decreases side@.len() - b,
        {
            assert(bv[a as int] == base@[a as int]@ && sv[b as int] == side@[b as int]@);
            if base[a] == side[b] {
                assert(first_equal(bv, sv, a as int, b as int) == b);
                return (a, b);
            }
            b = b + 1;
        }
        assert(first_equal(bv, sv, a as int, b as int) == sv.len());
        a = a + 1;
    }
    (base.len(), side.len())
}

proof fn lemma_diff_keep(base: Seq<Seq<char>>, side: Seq<Seq<char>>, i: int, j: int)
    requires
        0 <= i < base.len(),
        0 <= j < side.len(),
        base[i] == side[j],
    ensures
        diff_from(base, side, i, j) == diff_from(base, side, i + 1, j + 1),
{
}

proof fn lemma_diff_hunk(base: Seq<Seq<char>>, side: Seq<Seq<char>>, i: int, j: int, si: int, sj: int)
    requires
        0 <= i <= si <= base.len(),
        0 <= j <= sj <= side.len(),
        i < base.len() || j < side.len(),
        !(i < base.len() && j < side.len() && base[i] == side[j]),
        (si, sj) == next_equal(base, side, i, j),
        si + sj > i + j,
    ensures
        diff_from(base, side, i, j) == seq![Hunk { start: i as usize, end: si as usize, from: j as usize, to: sj as usize }]
            + diff_from(base, side, si, sj),
{
}

/// The hunks that turn `base` into `side`.
pub fn diff_lines(base: &Vec<String>, side: &Vec<String>) -> (r: Vec<Hunk>)
    ensures
        r@ == diff(lines_view(base@), lines_view(side@)),
        valid_diff(lines_view(base@), lines_view(side@), r@),
        lines_view(base@) == lines_view(side@) ==> r@.len() == 0,
{
    let ghost bv = lines_view(base@);
    let ghost sv = lines_view(side@);
    let nb = base.len();
    let ns = side.len();
    let mut hs: Vec<Hunk> = Vec::new();
    let mut i: usize = 0;
    let mut j: usize = 0;
    while i < nb || j < ns
        invariant
            nb == base@.len() == bv.len(),
            ns == side@.len() == sv.len(),
            bv == lines_view(base@),
            sv == lines_view(side@),
            i <= nb,
            j <= ns,
            forall|k: int| 0 <= k < hs@.len() ==> (#[trigger] hs@[k]).start <= hs@[k].end <= bv.len()
                && hs@[k].from <= hs@[k].to <= sv.len(),
            forall|a: int, b: int| 0 <= a < b < hs@.len() ==> (#[trigger] hs@[a]).end <= (#[trigger] hs@[b]).start
                && hs@[a].to <= hs@[b].from,
            forall|k: int| 0 <= k < hs@.len() ==> end_before(hs@, k) <= (#[trigger] hs@[k]).start
                && to_before(hs@, k) <= hs@[k].from
                && bv.subrange(end_before(hs@, k), hs@[k].start as int) == sv.subrange(to_before(hs@, k), hs@[k].from as int),
            end_before(hs@, hs@.len() as int) <= i,
            to_before(hs@, hs@.len() as int) <= j,
            bv.subrange(end_before(hs@, hs@.len() as int), i as int) == sv.subrange(to_before(hs@, hs@.len() as int), j as int),
            bv == sv ==> hs@.len() == 0 && i == j,
            diff(bv, sv) == hs@ + diff_from(bv, sv, i as int, j as int),
        decreases (nb - i) + (ns - j),
    {
        let ghost eb = end_before(hs@, hs@.len() as int);
        let ghost tb = to_before(hs@, hs@.len() as int);
        proof {
            if i < nb && j < ns {
                assert(bv[i as int] == base@[i as int]@ && sv[j as int] == side@[j as int]@);
            }
        }
        if i < nb && j < ns && base[i] == side[j] {
            proof {
                lemma_diff_keep(bv, sv, i as int, j as int);
            }
            assert(bv.subrange(eb, i + 1) =~= bv.subrange(eb, i as int).push(bv[i as int]));
            assert(sv.subrange(tb, j + 1) =~= sv.subrange(tb, j as int).push(sv[j as int]));
            i = i + 1;
            j = j + 1;
        } else {
            proof {
                if bv == sv && i < nb {
                    assert(bv[i as int] == base@[i as int]@);
                    assert(sv[j as int] == side@[j as int]@);
                }
            }
            let (si, sj) = next_match(base, side, i, j);
            let h = Hunk { start: i, end: si, from: j, to: sj };
            let ghost before = hs@;
            hs.push(h);
            proof {
                assert(hs@ =~= before.push(h));
                assert forall|k: int| 0 <= k < hs@.len() implies end_before(hs@, k) <= (#[trigger] hs@[k]).start
                    && to_before(hs@, k) <= hs@[k].from
                    && bv.subrange(end_before(hs@, k), hs@[k].start as int) == sv.subrange(to_before(hs@, k), hs@[k].from as int) by {
                    if k < before.len() {
                        assert(end_before(hs@, k) == end_before(before, k));
                        assert(to_before(hs@, k) == to_before(before, k));
                    }
                }
                assert(bv.subrange(si as int, si as int) =~= sv.subrange(sj as int, sj as int));
                assert(si + sj > i + j);
                lemma_diff_hunk(bv, sv, i as int, j as int, si as int, sj as int);
                assert(diff(bv, sv) =~= hs@ + diff_from(bv, sv, si as int, sj as int));
            }
            i = si;
            j = sj;
        }
    }
    proof {
        if bv == sv {
            assert(bv =~= sv);
        }
        reveal(valid_diff);
        assert(hs@ + diff_from(bv, sv, i as int, j as int) =~= hs@);
    }
    hs
}

/// Opens a conflict region; the current version's lines follow.
pub const MARK_CURRENT: &'static str = "<<<<<<< current";
/// The base version's lines follow.
pub const MARK_BASE: &'static str = "||||||| base";
/// The latest version's lines follow.
pub const MARK_LATEST: &'static str = "=======";
/// Closes a conflict region.
pub const MARK_END: &'static str = ">>>>>>> latest";

/// The outcome of a three-way merge.
pub struct Merged {
    pub lines: Vec<String>,
    pub outcome: MergeOutcome,
}

/// `x` ends where `y` starts, or before, and starts before it.
pub open spec fn precedes(x: Hunk, y: Hunk) -> bool {
    x.end <= y.start && x.start < y.start
}

/// Both sides made the same change: the same base lines became the same lines.
pub open spec fn alike(x: Hunk, y: Hunk, cur: Seq<Seq<char>>, lat: Seq<Seq<char>>) -> bool {
    &&& x.start == y.start
    &&& x.end == y.end
    &&& cur.subrange(x.from as int, x.to as int) == lat.subrange(y.from as int, y.to as int)
}

/// Where a clash that reaches base line `e` ends, and the first hunks of
/// `a` and of `b` after it: a hunk that starts inside it widens it.
pub open spec fn clash_from(a: Seq<Hunk>, b: Seq<Hunk>, ja: int, jb: int, e: int) -> (int, int, int)
    decreases (a.len() - ja) + (b.len() - jb),
{
    if !(0 <= ja <= a.len() && 0 <= jb <= b.len()) {
        (e, ja, jb)
    } else if ja < a.len() && (a[ja].start as int) < e {
        clash_from(a, b, ja + 1, jb, if (a[ja].end as int) > e { a[ja].end as int } else { e })
    } else if jb < b.len() && (b[jb].start as int) < e {
        clash_from(a, b, ja, jb + 1, if (b[jb].end as int) > e { b[jb].end as int } else { e })
    } else {
        (e, ja, jb)
    }
}

/// The conflict region for base lines `s..e`, touched by hunks `ia..ja` of
/// `a` (base to current) and `ib..jb` of `b` (base to latest): each
/// version's lines for that region after its marker, then the closing marker.
pub open spec fn conflict_region(
    cur: Seq<Seq<char>>,
    base: Seq<Seq<char>>,
    lat: Seq<Seq<char>>,
    a: Seq<Hunk>,
    b: Seq<Hunk>,
    ia: int,
    ib: int,
    s: int,
    e: int,
    ja: int,
    jb: int,
) -> Seq<Seq<char>> {
    seq![MARK_CURRENT@]
        + cur.subrange(a[ia].from - (a[ia].start - s), a[ja - 1].to + (e - a[ja - 1].end))
        + seq![MARK_BASE@] + base.subrange(s, e)
        + seq![MARK_LATEST@]
        + lat.subrange(b[ib].from - (b[ib].start - s), b[jb - 1].to + (e - b[jb - 1].end))
        + seq![MARK_END@]
}

/// The merged lines from base line `pos` on, with hunks `ia..` of `a` and
/// `ib..` of `b` still to place, and whether a conflict region was written.
/// A hunk that ends before the other side's next one starts is taken; the
/// same change on both sides is taken once; otherwise the two clash.
#[verifier::opaque]
pub open spec fn sweep(
    cur: Seq<Seq<char>>,
    base: Seq<Seq<char>>,
    lat: Seq<Seq<char>>,
    a: Seq<Hunk>,
    b: Seq<Hunk>,
    pos: int,
    ia: int,
    ib: int,
) -> (Seq<Seq<char>>, bool)
    decreases (a.len() - ia) + (b.len() - ib),
{
    if !(0 <= ia <= a.len() && 0 <= ib <= b.len()) {
        (Seq::empty(), false)
    } else if ia == a.len() && ib == b.len() {
        (base.subrange(pos, base.len() as int), false)
    } else if ib == b.len() || (ia < a.len() && precedes(a[ia], b[ib])) {
        let x = a[ia];
        let rest = sweep(cur, base, lat, a, b, x.end as int, ia + 1, ib);
        (base.subrange(pos, x.start as int) + cur.subrange(x.from as int, x.to as int) + rest.0, rest.1)
    } else if ia == a.len() || precedes(b[ib], a[ia]) {
        let y = b[ib];
        let rest = sweep(cur, base, lat, a, b, y.end as int, ia, ib + 1);
        (base.subrange(pos, y.start as int) + lat.subrange(y.from as int, y.to as int) + rest.0, rest.1)
    } else if alike(a[ia], b[ib], cur, lat) {
        let x = a[ia];
        let rest = sweep(cur, base, lat, a, b, x.end as int, ia + 1, ib + 1);
        (base.subrange(pos, x.start as int) + cur.subrange(x.from as int, x.to as int) + rest.0, rest.1)
    } else {
        let x = a[ia];
        let y = b[ib];
        let s = if x.start < y.start { x.start as int } else { y.start as int };
        let (e, ja, jb) = clash_from(a, b, ia + 1, ib + 1, if x.end > y.end { x.end as int } else { y.end as int });
        if !(ia < ja <= a.len() && ib < jb <= b.len()) {
            (Seq::empty(), true)
        } else {
            let rest = sweep(cur, base, lat, a, b, e, ja, jb);
            (base.subrange(pos, s) + conflict_region(cur, base, lat, a, b, ia, ib, s, e, ja, jb) + rest.0, true)
        }
    }
}

/// The three-way merge of `cur` and `lat` against their common `base`:
/// the lines, and whether the merge is clean or conflicted. When one side
/// kept the base, or both sides agree, that is the result; otherwise the
/// hunks of the two diffs from the base are placed in order.
pub open spec fn merge3(cur: Seq<Seq<char>>, base: Seq<Seq<char>>, lat: Seq<Seq<char>>) -> (Seq<Seq<char>>, MergeOutcome) {
    if cur == base {
        (lat, MergeOutcome::Clean)
    } else if lat == base || cur == lat {
        (cur, MergeOutcome::Clean)
    } else {
        let r = sweep(cur, base, lat, diff(base, cur), diff(base, lat), 0, 0, 0);
        (r.0, if r.1 { MergeOutcome::Conflicted } else { MergeOutcome::Clean })
    }
}

proof fn lemma_sweep_end(cur: Seq<Seq<char>>, base: Seq<Seq<char>>, lat: Seq<Seq<char>>, a: Seq<Hunk>, b: Seq<Hunk>, pos: int)
    ensures
        sweep(cur, base, lat, a, b, pos, a.len() as int, b.len() as int) == (base.subrange(pos, base.len() as int), false),
{
    reveal(sweep);
}

proof fn lemma_sweep_take_a(cur: Seq<Seq<char>>, base: Seq<Seq<char>>, lat: Seq<Seq<char>>, a: Seq<Hunk>, b: Seq<Hunk>, pos: int, ia: int, ib: int)
    requires
        0 <= ia < a.len(),
        0 <= ib <= b.len(),
        ib == b.len() || precedes(a[ia], b[ib]),
    ensures
        ({
            let x = a[ia];
            let rest = sweep(cur, base, lat, a, b, x.end as int, ia + 1, ib);
            sweep(cur, base, lat, a, b, pos, ia, ib) == (
                base.subrange(pos, x.start as int) + cur.subrange(x.from as int, x.to as int) + rest.0, rest.1)
        }),
{
    reveal(sweep);
}

proof fn lemma_sweep_take_b(cur: Seq<Seq<char>>, base: Seq<Seq<char>>, lat: Seq<Seq<char>>, a: Seq<Hunk>, b: Seq<Hunk>, pos: int, ia: int, ib: int)
    requires
        0 <= ia <= a.len(),
        0 <= ib < b.len(),
        !(ia < a.len() && precedes(a[ia], b[ib])),
        ia == a.len() || precedes(b[ib], a[ia]),
    ensures
        ({
            let y = b[ib];
            let rest = sweep(cur, base, lat, a, b, y.end as int, ia, ib + 1);
            sweep(cur, base, lat, a, b, pos, ia, ib) == (
                base.subrange(pos, y.start as int) + lat.subrange(y.from as int, y.to as int) + rest.0, rest.1)
        }),
{
    reveal(sweep);
}

proof fn lemma_sweep_alike(cur: Seq<Seq<char>>, base: Seq<Seq<char>>, lat: Seq<Seq<char>>, a: Seq<Hunk>, b: Seq<Hunk>, pos: int, ia: int, ib: int)
    requires
        0 <= ia < a.len(),
        0 <= ib < b.len(),
        !precedes(a[ia], b[ib]),
        !precedes(b[ib], a[ia]),
        alike(a[ia], b[ib], cur, lat),
    ensures
        ({
            let x = a[ia];
            let rest = sweep(cur, base, lat, a, b, x.end as int, ia + 1, ib + 1);
            sweep(cur, base, lat, a, b, pos, ia, ib) == (
                base.subrange(pos, x.start as int) + cur.subrange(x.from as int, x.to as int) + rest.0, rest.1)
        }),
{
    reveal(sweep);
}

proof fn lemma_sweep_clash(
    cur: Seq<Seq<char>>,
    base: Seq<Seq<char>>,
    lat: Seq<Seq<char>>,
    a: Seq<Hunk>,
    b: Seq<Hunk>,
    pos: int,
    ia: int,
    ib: int,
    s: int,
    e: int,
    ja: int,
    jb: int,
)
    requires
        0 <= ia < ja <= a.len(),
        0 <= ib < jb <= b.len(),
        !precedes(a[ia], b[ib]),
        !precedes(b[ib], a[ia]),
        !alike(a[ia], b[ib], cur, lat),
        s == (if a[ia].start < b[ib].start { a[ia].start as int } else { b[ib].start as int }),
        (e, ja, jb) == clash_from(a, b, ia + 1, ib + 1,
            if a[ia].end > b[ib].end { a[ia].end as int } else { b[ib].end as int }),
    ensures
        ({
            let rest = sweep(cur, base, lat, a, b, e, ja, jb);
            sweep(cur, base, lat, a, b, pos, ia, ib) == (
                base.subrange(pos, s) + conflict_region(cur, base, lat, a, b, ia, ib, s, e, ja, jb) + rest.0, true)
        }),
{
    reveal(sweep);
}

/// Whether two hunks make the same change.
fn same_change(current: &Vec<String>, latest: &Vec<String>, x: Hunk, y: Hunk) -> (r: bool)
    requires
        x.from <= x.to <= current@.len(),
        y.from <= y.to <= latest@.len(),
    ensures
        r == alike(x, y, lines_view(current@), lines_view(latest@)),
{
    let ghost cv = lines_view(current@);
    let ghost lv = lines_view(latest@);
    let ghost cs = cv.subrange(x.from as int, x.to as int);
    let ghost ls = lv.subrange(y.from as int, y.to as int);
    if x.start != y.start || x.end != y.end {
        return false;
    }
    if x.to - x.from != y.to - y.from {
        assert(cs.len() != ls.len());
        return false;
    }
    let mut k: usize = 0;
    while k < x.to - x.from
        invariant
            cv == lines_view(current@),
            lv == lines_view(latest@),
            cs == cv.subrange(x.from as int, x.to as int),
            ls == lv.subrange(y.from as int, y.to as int),
            x.from <= x.to <= current@.len(),
            y.from <= y.to <= latest@.len(),
            x.to - x.from == y.to - y.from,
            0 <= k <= x.to - x.from,
            forall|t: int| 0 <= t < k ==> cs[t] == ls[t],
        decreases x.to - x.from - k,
    {
        assert(cs[k as int] == current@[x.from + k]@ && ls[k as int] == latest@[y.from + k]@);
        if current[x.from + k] != latest[y.from + k] {
            return false;
        }
        k = k + 1;
    }
    assert(cs =~= ls);
    true
}

/// Whether two sequences of lines are the same.
pub fn same_lines(a: &Vec<String>, b: &Vec<String>) -> (r: bool)
    ensures
        r == (lines_view(a@) == lines_view(b@)),
{
    if a.len() != b.len() {
        assert(lines_view(a@).len() != lines_view(b@).len());
        return false;
    }
    let mut k: usize = 0;
    while k < a.len()
        invariant
            a@.len() == b@.len(),
            0 <= k <= a@.len(),
            forall|t: int| 0 <= t < k ==> a@[t]@ == b@[t]@,
        decreases a@.len() - k,
    {
        if a[k] != b[k] {
            assert(lines_view(a@)[k as int] != lines_view(b@)[k as int]);
            return false;
        }
        k = k + 1;
    }
    assert(lines_view(a@) =~= lines_view(b@));
    true
}

/// Appends lines `from..to` of `src`.
fn push_range(out: &mut Vec<String>, src: &Vec<String>, from: usize, to: usize)
    requires
        from <= to <= src@.len(),
    ensures
        lines_view(final(out)@) == lines_view(old(out)@) + lines_view(src@).subrange(from as int, to as int),
        extends(final(out)@, old(out)@),
{
    let mut k: usize = from;
    while k < to
        invariant
            from <= k <= to <= src@.len(),
            lines_view(out@) == lines_view(old(out)@) + lines_view(src@).subrange(from as int, k as int),
        decreases to - k,
    {
        let ghost before = out@;
        out.push(src[k].clone());
        assert(lines_view(out@) =~= lines_view(before).push(src@[k as int]@));
        k = k + 1;
        assert(lines_view(out@) =~= lines_view(old(out)@) + lines_view(src@).subrange(from as int, k as int));
    }
    assert(lines_view(out@).subrange(0, old(out)@.len() as int) =~= lines_view(old(out)@));
}

fn push_text(out: &mut Vec<String>, text: &str)
    ensures
        lines_view(final(out)@) == lines_view(old(out)@).push(text@),
        extends(final(out)@, old(out)@),
        final(out)@.len() == old(out)@.len() + 1,
        final(out)@[old(out)@.len() as int]@ == text@,
{
    let ghost before = out@;
    out.push(String::from_str(text));
    assert(lines_view(out@) =~= lines_view(before).push(text@));
    assert(lines_view(out@).subrange(0, before.len() as int) =~= lines_view(before));
}

proof fn lemma_gap_lengths(base: Seq<Seq<char>>, side: Seq<Seq<char>>, hs: Seq<Hunk>, k: int)
    requires
        valid_diff(base, side, hs),
        0 <= k <= hs.len(),
    ensures
        k < hs.len() ==> hs[k].start - end_before(hs, k) == hs[k].from - to_before(hs, k),
        k == hs.len() ==> base.len() - end_before(hs, k) == side.len() - to_before(hs, k),
        0 <= end_before(hs, k),
        0 <= to_before(hs, k),
{
    reveal(valid_diff);
    if k < hs.len() {
        let h = hs[k];
        assert(base.subrange(end_before(hs, k), h.start as int).len() == side.subrange(to_before(hs, k), h.from as int).len());
    } else {
        assert(base.subrange(end_before(hs, k), base.len() as int).len() == side.subrange(to_before(hs, k), side.len() as int).len());
    }
}

/// Lines `cs..ce` of the side that correspond to base lines `s..e`, where
/// hunks `i..j` are those of the diff that touch `s..e`.
proof fn lemma_region_bounds(base: Seq<Seq<char>>, side: Seq<Seq<char>>, hs: Seq<Hunk>, i: int, j: int, s: int, e: int)
    requires
        valid_diff(base, side, hs),
        0 <= i < j <= hs.len(),
        end_before(hs, i) <= s <= hs[i].start,
        hs[j - 1].end <= e <= base.len(),
        j < hs.len() ==> e <= hs[j].start,
    ensures
        0 <= hs[i].from - (hs[i].start - s),
        hs[i].from - (hs[i].start - s) <= hs[j - 1].to + (e - hs[j - 1].end) <= side.len(),
{
    lemma_gap_lengths(base, side, hs, i);
    lemma_gap_lengths(base, side, hs, j);
    lemma_hunk_bounds(base, side, hs, i);
    lemma_hunk_bounds(base, side, hs, j - 1);
    if i < j - 1 {
        lemma_hunks_ordered(base, side, hs, i, j - 1);
    }
    if j < hs.len() {
        lemma_hunk_bounds(base, side, hs, j);
    }
}

proof fn lemma_hunk_bounds(base: Seq<Seq<char>>, side: Seq<Seq<char>>, hs: Seq<Hunk>, k: int)
    requires
        valid_diff(base, side, hs),
        0 <= k < hs.len(),
    ensures
        hs[k].start <= hs[k].end <= base.len(),
        hs[k].from <= hs[k].to <= side.len(),
{
    reveal(valid_diff);
}

proof fn lemma_hunks_ordered(base: Seq<Seq<char>>, side: Seq<Seq<char>>, hs: Seq<Hunk>, i: int, j: int)
    requires
        valid_diff(base, side, hs),
        0 <= i < j < hs.len(),
    ensures
        hs[i].end <= hs[j].start,
        hs[i].to <= hs[j].from,
{
    reveal(valid_diff);
    assert(hs[i].end <= hs[j].start);
}

proof fn lemma_all_hunk_bounds(base: Seq<Seq<char>>, side: Seq<Seq<char>>, hs: Seq<Hunk>)
    requires
        valid_diff(base, side, hs),
    ensures
        forall|k: int| 0 <= k < hs.len() ==> (#[trigger] hs[k]).start <= hs[k].end <= base.len(),
{
    reveal(valid_diff);
}

/// `new` holds the lines of `old` first.
pub open spec fn extends(new: Seq<String>, old: Seq<String>) -> bool {
    old.len() <= new.len() && lines_view(new).subrange(0, old.len() as int) == lines_view(old)
}

proof fn lemma_extends_trans(c: Seq<String>, b: Seq<String>, a: Seq<String>)
    requires
        extends(c, b),
        extends(b, a),
    ensures
        extends(c, a),
{
    assert(lines_view(c).subrange(0, a.len() as int) =~= lines_view(b).subrange(0, a.len() as int));
}

/// Appends base lines `pos..h.start`, then the side's lines of hunk `h`.
fn take_change(out: &mut Vec<String>, base: &Vec<String>, side: &Vec<String>, pos: usize, h: Hunk)
    requires
        pos <= h.start <= base@.len(),
        h.from <= h.to <= side@.len(),
    ensures
        extends(final(out)@, old(out)@),
        lines_view(final(out)@) == lines_view(old(out)@) + lines_view(base@).subrange(pos as int, h.start as int)
            + lines_view(side@).subrange(h.from as int, h.to as int),
{
    push_range(out, base, pos, h.start);
    let ghost mid = out@;
    push_range(out, side, h.from, h.to);
    proof {
        lemma_extends_trans(out@, mid, old(out)@);
    }
}

/// Appends base lines `pos..s`, then a conflict region: the current lines
/// `cs..ce`, the base lines `s..e` and the latest lines `ls..le`, each
/// after its marker, and the closing marker.
fn push_conflict(
    out: &mut Vec<String>,
    current: &Vec<String>,
    base: &Vec<String>,
    latest: &Vec<String>,
    pos: usize,
    region: (usize, usize),
    cur: (usize, usize),
    lat: (usize, usize),
)
    requires
        pos <= region.0 <= region.1 <= base@.len(),
        cur.0 <= cur.1 <= current@.len(),
        lat.0 <= lat.1 <= latest@.len(),
    ensures
        lines_view(final(out)@) == lines_view(old(out)@) + lines_view(base@).subrange(pos as int, region.0 as int)
            + seq![MARK_CURRENT@] + lines_view(current@).subrange(cur.0 as int, cur.1 as int)
            + seq![MARK_BASE@] + lines_view(base@).subrange(region.0 as int, region.1 as int)
            + seq![MARK_LATEST@] + lines_view(latest@).subrange(lat.0 as int, lat.1 as int)
            + seq![MARK_END@],
{
    push_range(out, base, pos, region.0);
    push_text(out, MARK_CURRENT);
    push_range(out, current, cur.0, cur.1);
    push_text(out, MARK_BASE);
    push_range(out, base, region.0, region.1);
    push_text(out, MARK_LATEST);
    push_range(out, latest, lat.0, lat.1);
    push_text(out, MARK_END);
}

/// The base region of a clash between hunk `ia` of `a` and hunk `ib` of
/// `b`: it grows until no further hunk of either starts inside it.
fn clash_region(a: &Vec<Hunk>, b: &Vec<Hunk>, ia: usize, ib: usize, nb: usize) -> (r: (usize, usize, usize))
    requires
        ia < a@.len(),
        ib < b@.len(),
        forall|k: int| 0 <= k < a@.len() ==> (#[trigger] a@[k]).start <= a@[k].end <= nb,
        forall|k: int| 0 <= k < b@.len() ==> (#[trigger] b@[k]).start <= b@[k].end <= nb,
    ensures
        ia < r.1 <= a@.len(),
        ib < r.2 <= b@.len(),
        a@[r.1 - 1].end <= r.0 <= nb,
        b@[r.2 - 1].end <= r.0,
        a@[ia as int].end <= r.0,
        b@[ib as int].end <= r.0,
        r.1 < a@.len() ==> r.0 <= a@[r.1 as int].start,
        r.2 < b@.len() ==> r.0 <= b@[r.2 as int].start,
        (r.0 as int, r.1 as int, r.2 as int) == clash_from(a@, b@, ia + 1, ib + 1,
            if a@[ia as int].end > b@[ib as int].end { a@[ia as int].end as int } else { b@[ib as int].end as int }),
{
    let n_a = a.len();
    let n_b = b.len();
    let mut e = if a[ia].end > b[ib].end { a[ia].end } else { b[ib].end };
    let ghost first = clash_from(a@, b@, ia + 1, ib + 1, e as int);
    let mut ja = ia + 1;
    let mut jb = ib + 1;
    while (ja < a.len() && a[ja].start < e) || (jb < b.len() && b[jb].start < e)
        invariant
            forall|k: int| 0 <= k < a@.len() ==> (#[trigger] a@[k]).start <= a@[k].end <= nb,
            forall|k: int| 0 <= k < b@.len() ==> (#[trigger] b@[k]).start <= b@[k].end <= nb,
            ia < ja <= a@.len(),
            ib < jb <= b@.len(),
            a@[ja - 1].end <= e <= nb,
            b@[jb - 1].end <= e,
            a@[ia as int].end <= e,
            b@[ib as int].end <= e,
            first == clash_from(a@, b@, ja as int, jb as int, e as int),
        decreases (a@.len() - ja) + (b@.len() - jb),
    {
        if ja < a.len() && a[ja].start < e {
            if a[ja].end > e {
                e = a[ja].end;
            }
            ja = ja + 1;
        } else {
            if b[jb].end > e {
                e = b[jb].end;
            }
            jb = jb + 1;
        }
    }
    (e, ja, jb)
}

proof fn lemma_later_start(hs: Seq<Hunk>, base: Seq<Seq<char>>, side: Seq<Seq<char>>, i: int, bound: int)
    requires
        valid_diff(base, side, hs),
        0 <= i < hs.len(),
        bound <= hs[i].start,
    ensures
        forall|k: int| i <= k < hs.len() ==> bound <= (#[trigger] hs[k]).start,
{
    assert forall|k: int| i <= k < hs.len() implies bound <= (#[trigger] hs[k]).start by {
        if k > i {
            lemma_hunks_ordered(base, side, hs, i, k);
            lemma_hunk_bounds(base, side, hs, i);
        }
    }
}

proof fn lemma_after(hs: Seq<Hunk>, base: Seq<Seq<char>>, side: Seq<Seq<char>>, i: int)
    requires
        valid_diff(base, side, hs),
        0 <= i < hs.len(),
    ensures
        forall|k: int| i < k < hs.len() ==> hs[i].end <= (#[trigger] hs[k]).start,
{
    assert forall|k: int| i < k < hs.len() implies hs[i].end <= (#[trigger] hs[k]).start by {
        lemma_hunks_ordered(base, side, hs, i, k);
    }
}

/// Merges the change from `base` to `latest` into `current`, as
/// [`merge3`] states. Changes that only one side made, or both made alike,
/// are taken; where the two sides changed the same base lines differently,
/// the region holds the current, base and latest lines between markers,
/// and the merge is conflicted.
#[verifier::rlimit(100)]
pub fn merge_lines(current: &Vec<String>, base: &Vec<String>, latest: &Vec<String>) -> (r: Merged)
    ensures
        lines_view(r.lines@) == merge3(lines_view(current@), lines_view(base@), lines_view(latest@)).0,
        r.outcome == merge3(lines_view(current@), lines_view(base@), lines_view(latest@)).1,
        lines_view(current@) == lines_view(base@) ==> lines_view(r.lines@) == lines_view(latest@)
            && r.outcome == MergeOutcome::Clean,
        lines_view(latest@) == lines_view(base@) ==> lines_view(r.lines@) == lines_view(current@)
            && r.outcome == MergeOutcome::Clean,
        lines_view(current@) == lines_view(latest@) ==> lines_view(r.lines@) == lines_view(current@)
            && r.outcome == MergeOutcome::Clean,
{
    if same_lines(current, base) {
        let mut lines = Vec::new();
        push_range(&mut lines, latest, 0, latest.len());
        assert(lines_view(latest@).subrange(0, latest@.len() as int) =~= lines_view(latest@));
        assert(lines_view(lines@) =~= lines_view(latest@));
        return Merged { lines, outcome: MergeOutcome::Clean };
    }
    if same_lines(latest, base) || same_lines(current, latest) {
        let mut lines = Vec::new();
        push_range(&mut lines, current, 0, current.len());
        assert(lines_view(current@).subrange(0, current@.len() as int) =~= lines_view(current@));
        assert(lines_view(lines@) =~= lines_view(current@));
        return Merged { lines, outcome: MergeOutcome::Clean };
    }
    let ghost bv = lines_view(base@);
    let ghost cv = lines_view(current@);
    let ghost lv = lines_view(latest@);
    let n_cur = current.len();
    let n_lat = latest.len();
    let a = diff_lines(base, current);
    let b = diff_lines(base, latest);
    let ghost total = sweep(cv, bv, lv, a@, b@, 0, 0, 0);
    let mut out: Vec<String> = Vec::new();
    let mut conflicted = false;
    let mut pos: usize = 0;
    let mut ia: usize = 0;
    let mut ib: usize = 0;
    assert(lines_view(out@) + total.0 =~= total.0);
    while ia < a.len() || ib < b.len()
        invariant
            bv == lines_view(base@),
            cv == lines_view(current@),
            lv == lines_view(latest@),
            n_cur == current@.len(),
            n_lat == latest@.len(),
            valid_diff(bv, cv, a@),
            valid_diff(bv, lv, b@),
            ia <= a@.len(),
            ib <= b@.len(),
            pos <= base@.len(),
            end_before(a@, ia as int) <= pos,
            end_before(b@, ib as int) <= pos,
            forall|k: int| ia <= k < a@.len() ==> pos <= (#[trigger] a@[k]).start,
            forall|k: int| ib <= k < b@.len() ==> pos <= (#[trigger] b@[k]).start,
            total.0 == lines_view(out@) + sweep(cv, bv, lv, a@, b@, pos as int, ia as int, ib as int).0,
            total.1 == (conflicted || sweep(cv, bv, lv, a@, b@, pos as int, ia as int, ib as int).1),
        decreases (a@.len() - ia) + (b@.len() - ib),
    {
        let ghost o0 = lines_view(out@);
        let ghost rest0 = sweep(cv, bv, lv, a@, b@, pos as int, ia as int, ib as int);
        proof {
            if ia < a@.len() {
                lemma_hunk_bounds(bv, cv, a@, ia as int);
            }
            if ib < b@.len() {
                lemma_hunk_bounds(bv, lv, b@, ib as int);
            }
        }
        let take_a = if ib == b.len() {
            true
        } else if ia == a.len() {
            false
        } else {
            a[ia].end <= b[ib].start && a[ia].start < b[ib].start
        };
        let take_b = !take_a && (ia == a.len() || (b[ib].end <= a[ia].start && b[ib].start < a[ia].start));
        if take_a {
            let x = a[ia];
            take_change(&mut out, base, current, pos, x);
            proof {
                lemma_sweep_take_a(cv, bv, lv, a@, b@, pos as int, ia as int, ib as int);
                let rest1 = sweep(cv, bv, lv, a@, b@, x.end as int, ia + 1, ib as int);
                assert(rest0.0 == bv.subrange(pos as int, x.start as int) + cv.subrange(x.from as int, x.to as int) + rest1.0);
                assert(lines_view(out@) + rest1.0 =~= o0 + rest0.0);
                if ib < b@.len() {
                    lemma_later_start(b@, bv, lv, ib as int, x.end as int);
                }
                lemma_after(a@, bv, cv, ia as int);
            }
            pos = x.end;
            ia = ia + 1;
        } else if take_b {
            let y = b[ib];
            take_change(&mut out, base, latest, pos, y);
            proof {
                lemma_sweep_take_b(cv, bv, lv, a@, b@, pos as int, ia as int, ib as int);
                let rest1 = sweep(cv, bv, lv, a@, b@, y.end as int, ia as int, ib + 1);
                assert(rest0.0 == bv.subrange(pos as int, y.start as int) + lv.subrange(y.from as int, y.to as int) + rest1.0);
                assert(lines_view(out@) + rest1.0 =~= o0 + rest0.0);
                if ia < a@.len() {
                    lemma_later_start(a@, bv, cv, ia as int, y.end as int);
                }
                lemma_after(b@, bv, lv, ib as int);
            }
            pos = y.end;
            ib = ib + 1;
        } else {
            let x = a[ia];
            let y = b[ib];
            if same_change(current, latest, x, y) {
                take_change(&mut out, base, current, pos, x);
                proof {
                    lemma_sweep_alike(cv, bv, lv, a@, b@, pos as int, ia as int, ib as int);
                    let rest1 = sweep(cv, bv, lv, a@, b@, x.end as int, ia + 1, ib + 1);
                    assert(rest0.0 == bv.subrange(pos as int, x.start as int) + cv.subrange(x.from as int, x.to as int) + rest1.0);
                    assert(lines_view(out@) + rest1.0 =~= o0 + rest0.0);
                    lemma_after(a@, bv, cv, ia as int);
                    lemma_after(b@, bv, lv, ib as int);
                }
                pos = x.end;
                ia = ia + 1;
                ib = ib + 1;
            } else {
                let s = if x.start < y.start { x.start } else { y.start };
                proof {
                    lemma_all_hunk_bounds(bv, cv, a@);
                    lemma_all_hunk_bounds(bv, lv, b@);
                }
                let (e, ja, jb) = clash_region(&a, &b, ia, ib, base.len());
                proof {
                    assert(cv.len() == current@.len());
                    assert(lv.len() == latest@.len());
                    lemma_region_bounds(bv, cv, a@, ia as int, ja as int, s as int, e as int);
                    lemma_region_bounds(bv, lv, b@, ib as int, jb as int, s as int, e as int);
                    if ja < a@.len() {
                        lemma_later_start(a@, bv, cv, ja as int, e as int);
                    }
                    if jb < b@.len() {
                        lemma_later_start(b@, bv, lv, jb as int, e as int);
                    }
                }
                let cur = (x.from - (x.start - s), a[ja - 1].to + (e - a[ja - 1].end));
                let lat = (y.from - (y.start - s), b[jb - 1].to + (e - b[jb - 1].end));
                push_conflict(&mut out, current, base, latest, pos, (s, e), cur, lat);
                proof {
                    lemma_sweep_clash(cv, bv, lv, a@, b@, pos as int, ia as int, ib as int, s as int, e as int, ja as int, jb as int);
                    let rest1 = sweep(cv, bv, lv, a@, b@, e as int, ja as int, jb as int);
                    let region = conflict_region(cv, bv, lv, a@, b@, ia as int, ib as int, s as int, e as int, ja as int, jb as int);
                    assert(rest0.0 == bv.subrange(pos as int, s as int) + region + rest1.0);
                    assert(rest0.1);
                    assert(lines_view(out@) + rest1.0 =~= o0 + rest0.0);
                }
                conflicted = true;
                pos = e;
                ia = ja;
                ib = jb;
            }
        }
    }
    proof {
        lemma_sweep_end(cv, bv, lv, a@, b@, pos as int);
    }
    push_range(&mut out, base, pos, base.len());
    assert(lines_view(out@) =~= total.0);
    let outcome = if conflicted { MergeOutcome::Conflicted } else { MergeOutcome::Clean };
    Merged { lines: out, outcome }
}

} // verus!
