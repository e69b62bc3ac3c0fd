use mfl_audit::ascii_plot::{
    merge_cell, paint_footprint_offset, ring_severity, severity_block, severity_block_char,
    tally_severities, FootprintRing,
};
use mfl_audit::defect_extract::{defect_window, CubeWindow};
use mfl_audit::depth_inversion::DepthSeverity;
use mfl_audit::depth_inversion::DepthSeverity::{Critical, Minor, Moderate, Negligible, Severe};
use mfl_audit::hough::{cast_vote, extract_peaks, DefectClass, DefectRegion};

const ALL: [DepthSeverity; 5] = [
    DepthSeverity::Negligible,
    DepthSeverity::Minor,
    DepthSeverity::Moderate,
    DepthSeverity::Severe,
    DepthSeverity::Critical,
];

#[test]
fn severity_labels_and_tags() {
    assert_eq!(DepthSeverity::Negligible.label(), "Negligible  (<5%WT)");
    assert_eq!(DepthSeverity::Critical.label(), "Critical    (>50%WT)");
    assert_eq!(DepthSeverity::Moderate.label(), "Moderate   (15-30%WT)");
    let tags: Vec<char> = ALL.iter().map(|s| s.tag()).collect();
    assert_eq!(tags, vec!['.', ':', '+', '#', '@']);
    let ranks: Vec<u8> = ALL.iter().map(|s| s.rank()).collect();
    assert_eq!(ranks, vec![0, 1, 2, 3, 4]);
    assert_eq!(severity_block_char(DepthSeverity::Severe), '#');
    assert_eq!(severity_block(DepthSeverity::Minor), "· ");
    assert_eq!(severity_block(DepthSeverity::Critical), "@@");
    assert_eq!(severity_block(DepthSeverity::Negligible), "  ");
}

#[test]
fn footprint_fades_towards_the_rim() {
    assert_eq!(ring_severity(Critical, FootprintRing::Core), Critical);
    assert_eq!(ring_severity(Critical, FootprintRing::Middle), Severe);
    assert_eq!(ring_severity(Critical, FootprintRing::Rim), Moderate);
    assert_eq!(ring_severity(Severe, FootprintRing::Rim), Minor);
    assert_eq!(ring_severity(Moderate, FootprintRing::Middle), Minor);
    assert_eq!(ring_severity(Moderate, FootprintRing::Rim), Negligible);
    assert_eq!(ring_severity(Minor, FootprintRing::Middle), Minor);
    assert_eq!(ring_severity(Minor, FootprintRing::Rim), Negligible);
}

#[test]
fn painting_keeps_the_highest_grade_in_any_order() {
    for &a in &ALL {
        for &b in &ALL {
            let m = merge_cell(a, b);
            assert_eq!(m, merge_cell(b, a));
            assert_eq!(m.rank(), a.rank().max(b.rank()));
        }
    }
}

#[test]
fn tally_counts_each_grade() {
    let sevs = [Minor, Critical, Minor, Negligible, Severe, Minor];
    assert_eq!(tally_severities(&sevs), [1, 3, 0, 1, 1]);
    assert_eq!(tally_severities(&[]), [0, 0, 0, 0, 0]);
}

fn region(center_row: usize, center_col: usize, radius_rows: usize, radius_cols: usize) -> DefectRegion {
    DefectRegion {
        center_row,
        center_col,
        radius_rows,
        radius_cols,
        peak_votes: 10,
        classification: DefectClass::Elliptical,
    }
}

#[test]
fn window_is_clipped_to_the_grid() {
    let w = defect_window(&region(50, 8, 10, 2), 100, 16).unwrap();
    assert_eq!(w, CubeWindow { row_start: 40, row_end: 60, col_start: 5, col_end: 11 });
    let w = defect_window(&region(2, 1, 1, 1), 100, 16).unwrap();
    assert_eq!(w, CubeWindow { row_start: 0, row_end: 7, col_start: 0, col_end: 4 });
    let w = defect_window(&region(98, 15, 30, 30), 100, 16).unwrap();
    assert_eq!(w, CubeWindow { row_start: 68, row_end: 100, col_start: 0, col_end: 16 });
}

#[test]
fn window_outside_the_grid_is_empty() {
    // A center past the last frame keeps only the last frame.
    let w = defect_window(&region(500, 8, 10, 2), 100, 16).unwrap();
    assert_eq!(w, CubeWindow { row_start: 99, row_end: 100, col_start: 5, col_end: 11 });
    assert!(defect_window(&region(5, 8, 10, 2), 0, 16).is_none());
    assert!(defect_window(&region(5, 8, 10, 2), 100, 0).is_none());
}

#[test]
fn peaks_are_local_maxima_sorted_by_votes() {
    // max_rho = 2 -> 5 rows, 6 columns.
    let n_theta = 6;
    let mut acc = vec![0u32; 5 * n_theta];
    acc[1 * n_theta + 1] = 4;
    acc[1 * n_theta + 4] = 9;
    acc[3 * n_theta + 2] = 9;
    acc[2 * n_theta + 2] = 3;
    acc[3 * n_theta + 4] = 1;
    let peaks = extract_peaks(&acc, 2, n_theta, 3, 2);
    let got: Vec<(i32, usize, u32)> = peaks.iter().map(|p| (p.rho, p.theta_idx, p.votes)).collect();
    assert_eq!(got, vec![(-1, 4, 9), (1, 2, 9), (-1, 1, 4)]);
}

#[test]
fn peak_search_skips_the_border_band() {
    let n_theta = 4;
    let mut acc = vec![0u32; 3 * n_theta];
    acc[0] = 50;
    acc[1 * n_theta + 1] = 7;
    let peaks = extract_peaks(&acc, 1, n_theta, 3, 1);
    let got: Vec<(i32, usize, u32)> = peaks.iter().map(|p| (p.rho, p.theta_idx, p.votes)).collect();
    // (0, 0) is on the border; (1, 1) is beaten by its neighbour (0, 0).
    assert!(got.is_empty());
    let peaks = extract_peaks(&acc, 1, n_theta, 1, 1);
    let got: Vec<(i32, usize, u32)> = peaks.iter().map(|p| (p.rho, p.theta_idx, p.votes)).collect();
    assert_eq!(got, vec![(-1, 0, 50), (0, 1, 7)]);
}

fn painted_cells(grid: &[Vec<DepthSeverity>]) -> Vec<(usize, usize, DepthSeverity)> {
    let mut out = Vec::new();
    for (r, row) in grid.iter().enumerate() {
        for (c, &cell) in row.iter().enumerate() {
            if cell != Negligible {
                out.push((r, c, cell));
            }
        }
    }
    out
}

#[test]
fn footprint_offset_paints_its_mirror_images() {
    let mut grid = vec![vec![Negligible; 6]; 5];
    paint_footprint_offset(&mut grid, 2, 3, 1, 2, Severe);
    assert_eq!(
        painted_cells(&grid),
        vec![(1, 1, Severe), (1, 5, Severe), (3, 1, Severe), (3, 5, Severe)]
    );
}

#[test]
fn footprint_offset_zero_row_offset_paints_one_row() {
    let mut grid = vec![vec![Negligible; 6]; 5];
    paint_footprint_offset(&mut grid, 2, 3, 0, 1, Minor);
    assert_eq!(painted_cells(&grid), vec![(2, 2, Minor), (2, 4, Minor)]);
    let mut grid = vec![vec![Negligible; 6]; 5];
    paint_footprint_offset(&mut grid, 2, 3, 0, 0, Critical);
    assert_eq!(painted_cells(&grid), vec![(2, 3, Critical)]);
}

#[test]
fn footprint_offset_clips_and_keeps_higher_grades() {
    let mut grid = vec![vec![Negligible; 4]; 3];
    grid[0][0] = Critical;
    // Saturating at the top-left corner folds the upper images onto row 0 and
    // column 0; cells past the right or bottom edge are skipped.
    paint_footprint_offset(&mut grid, 1, 1, 2, 5, Moderate);
    assert_eq!(painted_cells(&grid), vec![(0, 0, Critical)]);
    assert_eq!(grid.len(), 3);
    assert!(grid.iter().all(|row| row.len() == 4));
    paint_footprint_offset(&mut grid, 1, 1, 1, 1, Moderate);
    assert_eq!(
        painted_cells(&grid),
        vec![(0, 0, Critical), (0, 2, Moderate), (2, 0, Moderate), (2, 2, Moderate)]
    );
}

#[test]
fn votes_land_in_their_cell_or_nowhere() {
    // max_rho = 1, n_theta = 3: rows 0..=2, columns 0..3.
    let mut acc = vec![0u32; 9];
    cast_vote(&mut acc, 1, 3, 1, 2);
    cast_vote(&mut acc, 1, 3, 1, 2);
    cast_vote(&mut acc, 1, 3, 2, 0);
    assert_eq!(acc, vec![0, 0, 0, 0, 0, 2, 1, 0, 0]);
    cast_vote(&mut acc, 1, 3, -1, 0);
    cast_vote(&mut acc, 1, 3, 3, 0);
    cast_vote(&mut acc, 1, 3, 0, 3);
    assert_eq!(acc, vec![0, 0, 0, 0, 0, 2, 1, 0, 0]);
}
