//! The integer rules of the corrosion map: which symbol each grade gets, how
//! a defect's grade fades towards its rim, how overlapping defects combine in
//! one map cell, and the count of defects per grade.

use vstd::prelude::*;

use crate::depth_inversion::{severity_rank, severity_tag, DepthSeverity};

verus! {

/// Two-character block of each grade on the map.
pub open spec fn spec_severity_block(s: DepthSeverity) -> &'static str {
    match s {
        DepthSeverity::Negligible => "  ",
        DepthSeverity::Minor => "· ",
        DepthSeverity::Moderate => "+ ",
        DepthSeverity::Severe => "##",
        DepthSeverity::Critical => "@@",
    }
}

/// The one-character symbol of a grade in the defect table.
pub fn severity_block_char(s: DepthSeverity) -> (c: char)
    ensures
        c == severity_tag(s),
{
    s.tag()
}

/// The two-character block that fills a map cell of the grade.
pub fn severity_block(s: DepthSeverity) -> (b: &'static str)
    ensures
        b@ == spec_severity_block(s)@,
{
    match s {
        DepthSeverity::Negligible => "  ",
        DepthSeverity::Minor => "· ",
        DepthSeverity::Moderate => "+ ",
        DepthSeverity::Severe => "##",
        DepthSeverity::Critical => "@@",
    }
}

/// Each map block is two characters and names its grade: distinct grades
/// have distinct blocks; from `Moderate` up the block starts with the
/// grade's table symbol, and from `Severe` up it is that symbol twice; the
/// lower grades are padded with a blank, `Minor` is a dot and `Negligible`
/// is blank.
pub proof fn law_blocks_name_their_grade(a: DepthSeverity, b: DepthSeverity)
    ensures
        spec_severity_block(a)@.len() == 2,
        spec_severity_block(a)@ == spec_severity_block(b)@ <==> a == b,
        spec_severity_block(a)@[0] == if severity_rank(a) >= 2 {
            severity_tag(a)
        } else if severity_rank(a) == 1 {
            '·'
        } else {
            ' '
        },
        spec_severity_block(a)@[1] == if severity_rank(a) >= 3 {
            severity_tag(a)
        } else {
            ' '
        },
{
    reveal_strlit("  ");
    reveal_strlit("· ");
    reveal_strlit("+ ");
    reveal_strlit("##");
    reveal_strlit("@@");
    if spec_severity_block(a)@ == spec_severity_block(b)@ {
        assert(spec_severity_block(a)@[0] == spec_severity_block(b)@[0]);
    }
}

/// The ring of a defect's footprint that a map cell lies in.
#[derive(Debug, Clone, Copy, PartialEq, Eq, Structural)]
pub enum FootprintRing {
    /// The inner quarter of the footprint.
    Core,
    /// The middle band.
    Middle,
    /// The outer band.
    Rim,
}

/// The grade drawn in `ring` of a defect of grade `s`: the core keeps the
/// grade, the middle band is one grade lower (down to `Minor`), and the rim is
/// two grades lower (down to `Negligible`).
pub open spec fn spec_ring_severity(s: DepthSeverity, ring: FootprintRing) -> DepthSeverity {
    match ring {
        FootprintRing::Core => s,
        FootprintRing::Middle => match s {
            DepthSeverity::Critical => DepthSeverity::Severe,
            DepthSeverity::Severe => DepthSeverity::Moderate,
            DepthSeverity::Moderate => DepthSeverity::Minor,
            other => other,
        },
        FootprintRing::Rim => match s {
            DepthSeverity::Critical => DepthSeverity::Moderate,
            DepthSeverity::Severe => DepthSeverity::Minor,
            _ => DepthSeverity::Negligible,
        },
    }
}

/// The grade drawn in `ring` of the footprint of a defect of grade `s`.
pub fn ring_severity(s: DepthSeverity, ring: FootprintRing) -> (r: DepthSeverity)
    ensures
        r == spec_ring_severity(s, ring),
        severity_rank(r) <= severity_rank(s),
        severity_rank(r) == match ring {
            FootprintRing::Core => severity_rank(s),
            FootprintRing::Middle => if severity_rank(s) >= 2 {
                severity_rank(s) - 1
            } else {
                severity_rank(s)
            },
            FootprintRing::Rim => if severity_rank(s) >= 2 {
                severity_rank(s) - 2
            } else {
                0
            },
        },
{
    match ring {
        FootprintRing::Core => s,
        FootprintRing::Middle => match s {
            DepthSeverity::Critical => DepthSeverity::Severe,
            DepthSeverity::Severe => DepthSeverity::Moderate,
            DepthSeverity::Moderate => DepthSeverity::Minor,
            other => other,
        },
        FootprintRing::Rim => match s {
            DepthSeverity::Critical => DepthSeverity::Moderate,
            DepthSeverity::Severe => DepthSeverity::Minor,
            _ => DepthSeverity::Negligible,
        },
    }
}

/// A defect's grade fades by rank across its footprint: the core keeps the
/// grade, the middle band is one rank lower but never below `Minor` (a
/// `Negligible` defect stays `Negligible`), and the rim is two ranks lower,
/// never below `Negligible`.
pub proof fn law_ring_fades_by_rank(s: DepthSeverity)
    ensures
        spec_ring_severity(s, FootprintRing::Core) == s,
        severity_rank(spec_ring_severity(s, FootprintRing::Middle)) == if severity_rank(s) >= 2 {
            severity_rank(s) - 1
        } else {
            severity_rank(s)
        },
        severity_rank(spec_ring_severity(s, FootprintRing::Rim)) == if severity_rank(s) >= 2 {
            severity_rank(s) - 2
        } else {
            0
        },
{
}

/// The grade a map cell shows after `cand` is painted over `cur`: `cand`
/// replaces `cur` when it ranks higher or when `cur` is `Negligible`.
pub open spec fn spec_merge_cell(cur: DepthSeverity, cand: DepthSeverity) -> DepthSeverity {
    if severity_rank(cand) > severity_rank(cur) || cur == DepthSeverity::Negligible {
        cand
    } else {
        cur
    }
}

/// Paints grade `cand` over a map cell that shows `cur`.
pub fn merge_cell(cur: DepthSeverity, cand: DepthSeverity) -> (r: DepthSeverity)
    ensures
        r == spec_merge_cell(cur, cand),
        severity_rank(r) == if severity_rank(cur) >= severity_rank(cand) {
            severity_rank(cur)
        } else {
            severity_rank(cand)
        },
{
    if cand.rank() > cur.rank() || cur == DepthSeverity::Negligible {
        cand
    } else {
        cur
    }
}

/// A map cell shows the highest grade painted over it, whatever the order
/// in which overlapping defects are painted: painting is commutative,
/// associative and idempotent.
pub proof fn law_merge_order_free(a: DepthSeverity, b: DepthSeverity, c: DepthSeverity)
    ensures
        spec_merge_cell(a, b) == spec_merge_cell(b, a),
        spec_merge_cell(spec_merge_cell(a, b), c) == spec_merge_cell(a, spec_merge_cell(b, c)),
        spec_merge_cell(a, a) == a,
        spec_merge_cell(DepthSeverity::Negligible, a) == a,
{
}

/// `a + b`, saturated at `usize::MAX`.
pub open spec fn sat_add(a: int, b: int) -> int {
    if a + b <= usize::MAX {
        a + b
    } else {
        usize::MAX as int
    }
}

/// `a - b`, saturated at 0.
pub open spec fn sat_sub(a: int, b: int) -> int {
    if a >= b {
        a - b
    } else {
        0
    }
}

/// Cell (`i`, `j`) is one of the mirror images of offset (`dr`, `dc`) around a
/// defect's centre cell (`row`, `col`): the offset down and to either side,
/// and, for a nonzero row offset, up and to the right, and for two nonzero
/// offsets also up and to the left. Offsets saturate at the map's edges.
pub open spec fn is_footprint_cell(row: int, col: int, dr: int, dc: int, i: int, j: int) -> bool {
    ||| i == sat_add(row, dr) && j == sat_add(col, dc)
    ||| i == sat_add(row, dr) && j == sat_sub(col, dc)
    ||| dr > 0 && i == sat_sub(row, dr) && j == sat_add(col, dc)
    ||| dr > 0 && dc > 0 && i == sat_sub(row, dr) && j == sat_sub(col, dc)
}

/// The map has the same shape before and after.
pub open spec fn same_shape(before: Seq<Vec<DepthSeverity>>, after: Seq<Vec<DepthSeverity>>) -> bool {
    &&& after.len() == before.len()
    &&& forall|i: int| 0 <= i < before.len() ==> (#[trigger] after[i])@.len() == before[i]@.len()
}

/// Painting `sev` once more over a cell that already has it painted changes
/// nothing.
proof fn lemma_merge_idempotent(cur: DepthSeverity, sev: DepthSeverity)
    ensures
        spec_merge_cell(spec_merge_cell(cur, sev), sev) == spec_merge_cell(cur, sev),
{
}

/// Paints `sev` over map cell (`r`, `c`) if it lies on the map.
fn paint_cell(grid: &mut Vec<Vec<DepthSeverity>>, r: usize, c: usize, sev: DepthSeverity)
    ensures
        same_shape(old(grid)@, final(grid)@),
        forall|i: int, j: int|
            0 <= i < old(grid)@.len() && 0 <= j < old(grid)@[i]@.len() ==> (#[trigger] final(grid)@[i]@[j]) == if i == r && j == c {
                spec_merge_cell(old(grid)@[i]@[j], sev)
            } else {
                old(grid)@[i]@[j]
            },
{
    if r < grid.len() && c < grid[r].len() {
        let cur = grid[r][c];
        let merged = merge_cell(cur, sev);
        grid[r][c] = merged;
    }
}

/// Paints grade `sev` at offset (`dr`, `dc`) from a defect's centre cell
/// (`row`, `col`) and at the offset's mirror images, on a map of rows of
/// cells: each such cell that lies on the map shows the higher of its grade
/// and `sev` (see `merge_cell`), and no other cell changes.
pub fn paint_footprint_offset(
    grid: &mut Vec<Vec<DepthSeverity>>,
    row: usize,
    col: usize,
    dr: usize,
    dc: usize,
    sev: DepthSeverity,
)
    ensures
        same_shape(old(grid)@, final(grid)@),
        forall|i: int, j: int|
            0 <= i < old(grid)@.len() && 0 <= j < old(grid)@[i]@.len() ==> (#[trigger] final(grid)@[i]@[j]) == if is_footprint_cell(row as int, col as int, dr as int, dc as int, i, j) {
                spec_merge_cell(old(grid)@[i]@[j], sev)
            } else {
                old(grid)@[i]@[j]
            },
        forall|i: int, j: int|
            0 <= i < old(grid)@.len() && 0 <= j < old(grid)@[i]@.len() && (i == row + dr || i == row
                - dr) && (j == col + dc || j == col - dc) ==> (#[trigger] final(grid)@[i]@[j])
                == spec_merge_cell(old(grid)@[i]@[j], sev),
{
    let ghost g0 = grid@;
    proof {
        assert(g0.len() == grid.len());
    }
    paint_cell(grid, row.saturating_add(dr), col.saturating_add(dc), sev);
    let ghost g1 = grid@;
    paint_cell(grid, row.saturating_add(dr), col.saturating_sub(dc), sev);
    let ghost g2 = grid@;
    if dr > 0 {
        paint_cell(grid, row.saturating_sub(dr), col.saturating_add(dc), sev);
    }
    let ghost g3 = grid@;
    if dc > 0 {
        paint_cell(grid, row.saturating_add(dr), col.saturating_sub(dc), sev);
    }
    let ghost g4 = grid@;
    if dr > 0 && dc > 0 {
        paint_cell(grid, row.saturating_sub(dr), col.saturating_sub(dc), sev);
    }
    proof {
        assert forall|i: int, j: int|
            0 <= i < g0.len() && 0 <= j < g0[i]@.len() implies (#[trigger] grid@[i]@[j]) == if is_footprint_cell(
            row as int,
            col as int,
            dr as int,
            dc as int,
            i,
            j,
        ) {
            spec_merge_cell(g0[i]@[j], sev)
        } else {
            g0[i]@[j]
        } by {
            lemma_merge_idempotent(g0[i]@[j], sev);
            lemma_merge_idempotent(g1[i]@[j], sev);
            lemma_merge_idempotent(g2[i]@[j], sev);
            lemma_merge_idempotent(g3[i]@[j], sev);
        }
        assert forall|i: int, j: int|
            0 <= i < g0.len() && 0 <= j < g0[i]@.len() && (i == row + dr || i == row - dr) && (j
                == col + dc || j == col - dc) implies (#[trigger] grid@[i]@[j]) == spec_merge_cell(
            g0[i]@[j],
            sev,
        ) by {
            assert(g0[i]@.len() == g0[i].len());
            assert(is_footprint_cell(row as int, col as int, dr as int, dc as int, i, j));
        }
    }
}

/// Away from the map's edges, the cells painted for offset (`dr`, `dc`) are
/// exactly the four corners (`row` ± `dr`, `col` ± `dc`): the footprint is
/// symmetric about the centre row and about the centre column.
pub proof fn law_footprint_is_symmetric(row: int, col: int, dr: int, dc: int, i: int, j: int)
    requires
        0 <= dr <= row,
        0 <= dc <= col,
        row + dr <= usize::MAX,
        col + dc <= usize::MAX,
    ensures
        is_footprint_cell(row, col, dr, dc, i, j) <==> (i == row + dr || i == row - dr) && (j == col
            + dc || j == col - dc),
{
}

/// Number of grades in `sevs` whose rank is `r`.
pub open spec fn count_rank(sevs: Seq<DepthSeverity>, r: int) -> nat
    decreases sevs.len(),
{
    if sevs.len() == 0 {
        0
    } else {
        count_rank(sevs.drop_last(), r) + if severity_rank(sevs.last()) == r {
            1nat
        } else {
            0nat
        }
    }
}

/// Number of defects of each grade, from `Negligible` to `Critical`.
pub fn tally_severities(sevs: &[DepthSeverity]) -> (counts: [usize; 5])
    ensures
        forall|r: int| 0 <= r < 5 ==> #[trigger] counts@[r] == count_rank(sevs@, r),
{
    let mut counts: [usize; 5] = [0, 0, 0, 0, 0];
    let mut i: usize = 0;
    while i < sevs.len()
        invariant
            i <= sevs@.len(),
            forall|r: int| 0 <= r < 5 ==> #[trigger] counts@[r] == count_rank(sevs@.take(i as int), r),
            forall|r: int| 0 <= r < 5 ==> counts@[r] <= i,
        decreases sevs@.len() - i,
    {
        let k = sevs[i].rank() as usize;
        proof {
            assert(sevs@.take(i + 1).drop_last() =~= sevs@.take(i as int));
        }
        counts[k] = counts[k] + 1;
        i = i + 1;
    }
    proof {
        assert(sevs@.take(i as int) =~= sevs@);
    }
    counts
}

/// Every defect is counted under exactly one grade.
pub proof fn law_tally_total(sevs: Seq<DepthSeverity>)
    ensures
        count_rank(sevs, 0) + count_rank(sevs, 1) + count_rank(sevs, 2) + count_rank(sevs, 3)
            + count_rank(sevs, 4) == sevs.len(),
    decreases sevs.len(),
{
    if sevs.len() > 0 {
        law_tally_total(sevs.drop_last());
    }
}

} // verus!
