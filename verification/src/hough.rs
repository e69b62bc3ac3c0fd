//! Defect regions found by the Hough detector, and the integer core of the
//! detector: picking the local maxima of the vote accumulator.

use vstd::prelude::*;

verus! {

/// Shape class of a detected defect region.
#[derive(Debug, Clone, Copy, PartialEq, Eq, Structural)]
pub enum DefectClass {
    Hyperbolic,
    Elliptical,
    Linear,
    Unknown,
}

/// A defect region on the (frame, channel) grid.
#[derive(Debug, Clone, Copy)]
pub struct DefectRegion {
    pub center_row: usize,
    pub center_col: usize,
    pub radius_rows: usize,
    pub radius_cols: usize,
    pub peak_votes: u32,
    pub classification: DefectClass,
}

/// A local maximum of the accumulator: a line `rho` at angle index
/// `theta_idx` with its number of votes.
#[derive(Debug, Clone, Copy)]
pub struct HoughPeak {
    pub rho: i32,
    pub theta_idx: usize,
    pub votes: u32,
}

/// Votes of accumulator cell (`r`, `t`) in a row-major accumulator with
/// `n_theta` columns.
pub open spec fn acc_at(acc: Seq<u32>, n_theta: int, r: int, t: int) -> u32 {
    acc[r * n_theta + t]
}

/// No cell within `hw` rows and columns of (`r`, `t`), inside the
/// accumulator, has strictly more votes.
pub open spec fn is_local_max(
    acc: Seq<u32>,
    rho_len: int,
    n_theta: int,
    hw: int,
    r: int,
    t: int,
) -> bool {
    forall|nr: int, nt: int|
        #![trigger acc_at(acc, n_theta, nr, nt)]
        r - hw <= nr <= r + hw && t - hw <= nt <= t + hw && 0 <= nr < rho_len && 0 <= nt < n_theta
            ==> acc_at(acc, n_theta, nr, nt) <= acc_at(acc, n_theta, r, t)
}

/// Cell (`r`, `t`) is reported as a line: it lies at least `hw` cells away
/// from the accumulator's border, has at least `thr` votes, and is a local
/// maximum of its window.
pub open spec fn is_peak(
    acc: Seq<u32>,
    rho_len: int,
    n_theta: int,
    hw: int,
    thr: int,
    r: int,
    t: int,
) -> bool {
    &&& hw <= r < rho_len - hw
    &&& hw <= t < n_theta - hw
    &&& acc_at(acc, n_theta, r, t) >= thr
    &&& is_local_max(acc, rho_len, n_theta, hw, r, t)
}

/// `a` is listed before `b`: more votes first, ties in accumulator order.
pub open spec fn peak_before(a: HoughPeak, b: HoughPeak) -> bool {
    ||| a.votes > b.votes
    ||| a.votes == b.votes && a.rho < b.rho
    ||| a.votes == b.votes && a.rho == b.rho && a.theta_idx < b.theta_idx
}

/// `p` is the report of accumulator cell (`r`, `t`).
pub open spec fn peak_of(acc: Seq<u32>, n_theta: int, max_rho: int, r: int, t: int) -> HoughPeak {
    HoughPeak { rho: (r - max_rho) as i32, theta_idx: t as usize, votes: acc_at(acc, n_theta, r, t) }
}

/// Whether accumulator cell (`r`, `t`) is a local maximum of its window of
/// half-width `hw`; the window lies inside the accumulator.
fn local_max(acc: &[u32], rho_len: usize, n_theta: usize, hw: usize, r: usize, t: usize) -> (b: bool)
    requires
        hw <= r,
        r + hw < rho_len,
        hw <= t,
        t + hw < n_theta,
        rho_len * n_theta <= acc@.len(),
    ensures
        b == is_local_max(acc@, rho_len as int, n_theta as int, hw as int, r as int, t as int),
{
    let alen = acc.len();
    proof {
        lemma_cell_index(rho_len as int, n_theta as int, r as int, t as int);
    }
    let val = acc[r * n_theta + t];
    let mut nr = r - hw;
    while nr <= r + hw
        invariant
            hw <= r,
            r + hw < rho_len,
            hw <= t,
            t + hw < n_theta,
            rho_len * n_theta <= acc@.len(),
            acc@.len() == alen,
            r - hw <= nr <= r + hw + 1,
            val == acc_at(acc@, n_theta as int, r as int, t as int),
            forall|pr: int, pt: int|
                #![trigger acc_at(acc@, n_theta as int, pr, pt)]
                r - hw <= pr < nr && t - hw <= pt <= t + hw ==> acc_at(acc@, n_theta as int, pr, pt)
                    <= val,
        decreases r + hw + 1 - nr,
    {
        let mut nt = t - hw;
        while nt <= t + hw
            invariant
                hw <= r,
                r + hw < rho_len,
                hw <= t,
                t + hw < n_theta,
                rho_len * n_theta <= acc@.len(),
                acc@.len() == alen,
                r - hw <= nr <= r + hw,
                t - hw <= nt <= t + hw + 1,
                val == acc_at(acc@, n_theta as int, r as int, t as int),
                forall|pr: int, pt: int|
                    #![trigger acc_at(acc@, n_theta as int, pr, pt)]
                    r - hw <= pr < nr && t - hw <= pt <= t + hw ==> acc_at(acc@, n_theta as int, pr, pt)
                        <= val,
                forall|pt: int|
                    #![trigger acc_at(acc@, n_theta as int, nr as int, pt)]
                    t - hw <= pt < nt ==> acc_at(acc@, n_theta as int, nr as int, pt) <= val,
            decreases t + hw + 1 - nt,
        {
            proof {
                lemma_cell_index(rho_len as int, n_theta as int, nr as int, nt as int);
            }
            if acc[nr * n_theta + nt] > val {
                proof {
                    assert(acc_at(acc@, n_theta as int, nr as int, nt as int) > val);
                }
                return false;
            }
            nt = nt + 1;
        }
        nr = nr + 1;
    }
    true
}

/// The list is in report order: more votes first, ties in accumulator order.
pub open spec fn in_report_order(ps: Seq<HoughPeak>) -> bool {
    forall|i: int, j: int| 0 <= i < j < ps.len() ==> peak_before(#[trigger] ps[i], #[trigger] ps[j])
}

/// Inserts `p`, which comes after every listed peak in accumulator order,
/// behind every listed peak with at least as many votes.
fn insert_by_votes(peaks: &mut Vec<HoughPeak>, p: HoughPeak)
    requires
        in_report_order(old(peaks)@),
        forall|i: int|
            0 <= i < old(peaks)@.len() ==> (#[trigger] old(peaks)@[i]).rho < p.rho || (
            old(peaks)@[i].rho == p.rho && old(peaks)@[i].theta_idx < p.theta_idx),
    ensures
        in_report_order(final(peaks)@),
        forall|q: HoughPeak| #[trigger] final(peaks)@.contains(q) <==> old(peaks)@.contains(q) || q == p,
{
    let mut pos: usize = 0;
    while pos < peaks.len() && peaks[pos].votes >= p.votes
        invariant
            pos <= peaks@.len(),
            forall|i: int| 0 <= i < pos ==> (#[trigger] peaks@[i]).votes >= p.votes,
        decreases peaks@.len() - pos,
    {
        pos = pos + 1;
    }
    let ghost old_peaks = peaks@;
    proof {
        assert forall|i: int| pos <= i < old_peaks.len() implies (#[trigger] old_peaks[i]).votes
            < p.votes by {
            if pos < old_peaks.len() {
                assert(old_peaks[pos as int].votes < p.votes);
                if i > pos {
                    assert(peak_before(old_peaks[pos as int], old_peaks[i]));
                }
            }
        }
    }
    peaks.insert(pos, p);
    proof {
        let n = peaks@;
        old_peaks.insert_ensures(pos as int, p);
        assert(n =~= old_peaks.insert(pos as int, p));
        assert forall|i: int, j: int| 0 <= i < j < n.len() implies peak_before(
            #[trigger] n[i],
            #[trigger] n[j],
        ) by {
            if j < pos {
                assert(peak_before(old_peaks[i], old_peaks[j]));
            } else if j == pos {
                assert(n[i] == old_peaks[i]);
            } else if i < pos {
                assert(peak_before(old_peaks[i], old_peaks[j - 1]));
            } else if i == pos {
                assert(n[j] == old_peaks[j - 1]);
            } else {
                assert(peak_before(old_peaks[i - 1], old_peaks[j - 1]));
            }
        }
        assert forall|q: HoughPeak| #[trigger] n.contains(q) <==> old_peaks.contains(q) || q == p by {
            if n.contains(q) {
                let k = choose|k: int| 0 <= k < n.len() && n[k] == q;
                if k < pos {
                    assert(old_peaks[k] == q);
                } else if k > pos {
                    assert(old_peaks[k - 1] == q);
                }
            }
            if old_peaks.contains(q) {
                let k = choose|k: int| 0 <= k < old_peaks.len() && old_peaks[k] == q;
                if k < pos {
                    assert(n[k] == q);
                } else {
                    assert(n[k + 1] == q);
                }
            }
            if q == p {
                assert(n[pos as int] == q);
            }
        }
    }
}

/// Cell (`r`, `t`) of a `rho_len` x `n_theta` accumulator has a row-major
/// index inside it.
proof fn lemma_cell_index(rho_len: int, n_theta: int, r: int, t: int)
    requires
        0 <= r < rho_len,
        0 <= t < n_theta,
    ensures
        0 <= r * n_theta + t < rho_len * n_theta,
        r * n_theta + t + 1 <= rho_len * n_theta,
{
    assert(0 <= r * n_theta) by (nonlinear_arith)
        requires
            r >= 0,
            n_theta >= 0,
    ;
    assert((r + 1) * n_theta <= rho_len * n_theta) by (nonlinear_arith)
        requires
            r + 1 <= rho_len,
            n_theta >= 0,
    ;
    assert((r + 1) * n_theta == r * n_theta + n_theta) by (nonlinear_arith);
}


/// `p` reports a peak of the accumulator, at row `p.rho + max_rho`.
pub open spec fn reports_peak(
    acc: Seq<u32>,
    max_rho: int,
    n_theta: int,
    hw: int,
    thr: int,
    p: HoughPeak,
) -> bool {
    &&& is_peak(acc, 2 * max_rho + 1, n_theta, hw, thr, p.rho + max_rho, p.theta_idx as int)
    &&& p.votes == acc_at(acc, n_theta, p.rho + max_rho, p.theta_idx as int)
}

/// The accumulator holds every cell that the peak search reads.
pub open spec fn peak_search_fits(acc: Seq<u32>, max_rho: int, n_theta: int, hw: int) -> bool {
    let rho_len = 2 * max_rho + 1;
    hw < rho_len - hw && hw < n_theta - hw ==> rho_len * n_theta <= acc.len()
}

/// Finds the lines of a `(2 * max_rho + 1)` x `n_theta` row-major vote
/// accumulator: every cell at least `nms_window / 2` cells from the border
/// with at least `vote_threshold` votes and no neighbour within that
/// distance with more votes. The lines are listed by votes, most first, and
/// in accumulator order among equal votes.
pub fn extract_peaks(
    acc: &[u32],
    max_rho: usize,
    n_theta: usize,
    nms_window: usize,
    vote_threshold: u32,
) -> (peaks: Vec<HoughPeak>)
    requires
        2 * max_rho + 1 <= i32::MAX,
        peak_search_fits(acc@, max_rho as int, n_theta as int, (nms_window / 2) as int),
    ensures
        in_report_order(peaks@),
        forall|i: int|
            0 <= i < peaks@.len() ==> reports_peak(
                acc@,
                max_rho as int,
                n_theta as int,
                (nms_window / 2) as int,
                vote_threshold as int,
                #[trigger] peaks@[i],
            ),
        forall|r: int, t: int|
            #![trigger is_peak(acc@, 2 * max_rho + 1, n_theta as int, (nms_window / 2) as int, vote_threshold as int, r, t)]
            is_peak(acc@, 2 * max_rho + 1, n_theta as int, (nms_window / 2) as int, vote_threshold as int, r, t)
                ==> peaks@.contains(peak_of(acc@, n_theta as int, max_rho as int, r, t)),
{
    let rho_len = 2 * max_rho + 1;
    let hw = nms_window / 2;
    let r_end = rho_len.saturating_sub(hw);
    let t_end = n_theta.saturating_sub(hw);
    let ghost thr = vote_threshold as int;
    let mut peaks: Vec<HoughPeak> = Vec::new();
    let mut r = hw;
    while r < r_end
        invariant
            rho_len == 2 * max_rho + 1,
            rho_len <= i32::MAX,
            thr == vote_threshold as int,
            hw == (nms_window / 2) as int,
            r_end == if rho_len >= hw { rho_len - hw } else { 0 },
            t_end == if n_theta >= hw { n_theta - hw } else { 0 },
            peak_search_fits(acc@, max_rho as int, n_theta as int, hw as int),
            hw <= r,
            in_report_order(peaks@),
            forall|i: int|
                0 <= i < peaks@.len() ==> reports_peak(acc@, max_rho as int, n_theta as int, hw as int, thr, #[trigger] peaks@[i])
                    && peaks@[i].rho + max_rho < r,
            forall|rr: int, tt: int|
                #![trigger is_peak(acc@, rho_len as int, n_theta as int, hw as int, thr, rr, tt)]
                rr < r && is_peak(acc@, rho_len as int, n_theta as int, hw as int, thr, rr, tt)
                    ==> peaks@.contains(peak_of(acc@, n_theta as int, max_rho as int, rr, tt)),
        decreases r_end - r,
    {
        let mut t = hw;
        while t < t_end
            invariant
                rho_len == 2 * max_rho + 1,
                rho_len <= i32::MAX,
                thr == vote_threshold as int,
                hw == (nms_window / 2) as int,
                r_end == if rho_len >= hw { rho_len - hw } else { 0 },
                t_end == if n_theta >= hw { n_theta - hw } else { 0 },
                peak_search_fits(acc@, max_rho as int, n_theta as int, hw as int),
                hw <= r < r_end,
                hw <= t,
                in_report_order(peaks@),
                forall|i: int|
                    0 <= i < peaks@.len() ==> reports_peak(acc@, max_rho as int, n_theta as int, hw as int, thr, #[trigger] peaks@[i])
                        && (peaks@[i].rho + max_rho < r || (peaks@[i].rho + max_rho == r
                        && peaks@[i].theta_idx < t)),
                forall|rr: int, tt: int|
                    #![trigger is_peak(acc@, rho_len as int, n_theta as int, hw as int, thr, rr, tt)]
                    (rr < r || (rr == r && tt < t)) && is_peak(acc@, rho_len as int, n_theta as int, hw as int, thr, rr, tt)
                        ==> peaks@.contains(peak_of(acc@, n_theta as int, max_rho as int, rr, tt)),
            decreases t_end - t,
        {
            let alen = acc.len();
            proof {
                lemma_cell_index(rho_len as int, n_theta as int, r as int, t as int);
            }
            let val = acc[r * n_theta + t];
            proof {
                assert(val == acc_at(acc@, n_theta as int, r as int, t as int));
                assert(hw <= r < rho_len - hw);
                assert(hw <= t < n_theta - hw);
            }
            if val >= vote_threshold && local_max(acc, rho_len, n_theta, hw, r, t) {
                let p = HoughPeak { rho: r as i32 - max_rho as i32, theta_idx: t, votes: val };
                let ghost old_peaks = peaks@;
                proof {
                    assert(p == peak_of(acc@, n_theta as int, max_rho as int, r as int, t as int));
                    assert(is_peak(acc@, rho_len as int, n_theta as int, hw as int, thr, r as int, t as int));
                    assert forall|i: int| 0 <= i < old_peaks.len() implies (#[trigger] old_peaks[i]).rho
                        < p.rho || (old_peaks[i].rho == p.rho && old_peaks[i].theta_idx < p.theta_idx) by {
                        assert(reports_peak(acc@, max_rho as int, n_theta as int, hw as int, thr, old_peaks[i]));
                    }
                }
                insert_by_votes(&mut peaks, p);
                proof {
                    assert forall|i: int| 0 <= i < peaks@.len() implies reports_peak(acc@, max_rho as int, n_theta as int, hw as int, thr, #[trigger] peaks@[i])
                        && (peaks@[i].rho + max_rho < r || (peaks@[i].rho + max_rho == r
                        && peaks@[i].theta_idx < t + 1)) by {
                        assert(peaks@.contains(peaks@[i]));
                        if peaks@[i] != p {
                            let k = choose|k: int| 0 <= k < old_peaks.len() && old_peaks[k] == peaks@[i];
                            assert(reports_peak(acc@, max_rho as int, n_theta as int, hw as int, thr, old_peaks[k]));
                        }
                    }
                    assert forall|rr: int, tt: int|
                        #![trigger is_peak(acc@, rho_len as int, n_theta as int, hw as int, thr, rr, tt)]
                        (rr < r || (rr == r && tt < t + 1)) && is_peak(acc@, rho_len as int, n_theta as int, hw as int, thr, rr, tt)
                        implies peaks@.contains(peak_of(acc@, n_theta as int, max_rho as int, rr, tt)) by {
                        if rr == r && tt == t {
                        } else {
                            assert(old_peaks.contains(peak_of(acc@, n_theta as int, max_rho as int, rr, tt)));
                        }
                    }
                }
            } else {
                proof {
                    assert(!is_peak(acc@, rho_len as int, n_theta as int, hw as int, thr, r as int, t as int));
                }
            }
            t = t + 1;
        }
        proof {
            assert forall|rr: int, tt: int|
                #![trigger is_peak(acc@, rho_len as int, n_theta as int, hw as int, thr, rr, tt)]
                rr < r + 1 && is_peak(acc@, rho_len as int, n_theta as int, hw as int, thr, rr, tt)
                implies peaks@.contains(peak_of(acc@, n_theta as int, max_rho as int, rr, tt)) by {
                if rr == r {
                    assert(tt < t);
                }
            }
        }
        r = r + 1;
    }
    proof {
        assert forall|rr: int, tt: int|
            #![trigger is_peak(acc@, rho_len as int, n_theta as int, hw as int, thr, rr, tt)]
            is_peak(acc@, rho_len as int, n_theta as int, hw as int, thr, rr, tt)
            implies peaks@.contains(peak_of(acc@, n_theta as int, max_rho as int, rr, tt)) by {
            assert(rr < r);
        }
    }
    peaks
}

/// Line (`rho_idx`, `theta_idx`) has a cell in a `(2 * max_rho + 1)` x
/// `n_theta` accumulator.
pub open spec fn in_accumulator(max_rho: int, n_theta: int, rho_idx: int, theta_idx: int) -> bool {
    0 <= rho_idx <= 2 * max_rho && 0 <= theta_idx < n_theta
}

/// Adds one vote to the accumulator cell of line (`rho_idx`, `theta_idx`),
/// where `rho_idx` is the line's distance shifted by `max_rho`; a line
/// outside the accumulator gets no vote.
pub fn cast_vote(acc: &mut Vec<u32>, max_rho: usize, n_theta: usize, rho_idx: i32, theta_idx: usize)
    requires
        2 * max_rho + 1 <= usize::MAX,
        (2 * max_rho + 1) * n_theta <= old(acc)@.len(),
        in_accumulator(max_rho as int, n_theta as int, rho_idx as int, theta_idx as int) ==> acc_at(
            old(acc)@,
            n_theta as int,
            rho_idx as int,
            theta_idx as int,
        ) < u32::MAX,
    ensures
        final(acc)@ == if in_accumulator(max_rho as int, n_theta as int, rho_idx as int, theta_idx as int) {
            old(acc)@.update(
                rho_idx * n_theta + theta_idx,
                (acc_at(old(acc)@, n_theta as int, rho_idx as int, theta_idx as int) + 1) as u32,
            )
        } else {
            old(acc)@
        },
{
    if rho_idx >= 0 && (rho_idx as usize) <= 2 * max_rho && theta_idx < n_theta {
        let r = rho_idx as usize;
        proof {
            assert(acc@.len() == acc.len());
            lemma_cell_index(2 * max_rho + 1, n_theta as int, r as int, theta_idx as int);
        }
        let idx = r * n_theta + theta_idx;
        acc[idx] = acc[idx] + 1;
    }
}

} // verus!
