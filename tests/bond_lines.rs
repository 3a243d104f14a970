use wasm_md::bonds::BondLines;
use wasm_md::layout::particle_count;

fn two_particles() -> Vec<f32> {
    vec![1.0, 2.0, 3.0, 1.5, 2.0, 3.0]
}

#[test]
fn particle_count_of_lattice() {
    assert_eq!(particle_count(2, 3, 4), Some(24));
    assert_eq!(particle_count(1, 1, 1), Some(1));
}

#[test]
fn particle_count_with_empty_axis() {
    assert_eq!(particle_count(0, 5, 7), Some(0));
    assert_eq!(particle_count(usize::MAX, usize::MAX, 0), Some(0));
}

#[test]
fn particle_count_too_large_for_buffers() {
    assert_eq!(particle_count(usize::MAX, 2, 1), None);
    assert_eq!(particle_count(1 << 20, 1 << 20, 1 << 20), None);
    // 3 * n * n must stay addressable as well.
    assert_eq!(particle_count(1 << 32, 1, 1), None);
    assert_eq!(particle_count(1 << 31, 1, 1), Some(1 << 31));
}

#[test]
fn construction_is_blank_and_repeatable() {
    let a: BondLines<f32> = BondLines::new(3, 0.0);
    let b: BondLines<f32> = BondLines::new(3, 0.0);
    assert_eq!(a.natom(), 3);
    assert_eq!(a.num_connected(), 0);
    assert_eq!(a.line_positions().len(), 27);
    assert_eq!(a.line_colors().len(), 27);
    assert!(a.line_positions().iter().all(|v| *v == 0.0));
    assert!(a.line_colors().iter().all(|v| *v == 0.0));
    assert_eq!(a.line_positions(), b.line_positions());
    assert_eq!(a.line_colors(), b.line_colors());
    assert_eq!(a.num_connected(), b.num_connected());
}

#[test]
fn single_particle_has_no_segments() {
    let mut lines: BondLines<f32> = BondLines::new(1, 0.0);
    let rows: Vec<Vec<Option<f32>>> = vec![vec![]];
    lines.extract(&vec![0.5, 0.5, 0.5], &rows, true);
    assert_eq!(lines.num_connected(), 0);
    assert_eq!(lines.line_positions().len(), 3);
    assert!(lines.line_positions().iter().all(|v| *v == 0.0));
}

#[test]
fn unconnected_list_is_never_written() {
    let mut lines: BondLines<f32> = BondLines::new(2, 0.0);
    let rows: Vec<Vec<Option<f32>>> = vec![vec![Some(0.9)], vec![]];
    lines.extract(&two_particles(), &rows, false);
    lines.extract(&two_particles(), &rows, false);
    assert_eq!(lines.num_connected(), 0);
    assert!(lines.line_positions().iter().all(|v| *v == 0.0));
    assert!(lines.line_colors().iter().all(|v| *v == 0.0));
}

#[test]
fn close_pair_gives_one_segment() {
    let mut lines: BondLines<f32> = BondLines::new(2, 0.0);
    let rows: Vec<Vec<Option<f32>>> = vec![vec![Some(0.25)], vec![]];
    lines.extract(&two_particles(), &rows, true);
    assert_eq!(lines.num_connected(), 1);
    assert_eq!(&lines.line_positions()[0..6], &[1.0, 2.0, 3.0, 1.5, 2.0, 3.0]);
    assert_eq!(&lines.line_colors()[0..6], &[0.25; 6]);
    assert!(lines.line_positions()[6..].iter().all(|v| *v == 0.0));
    assert!(lines.line_colors()[6..].iter().all(|v| *v == 0.0));
}

#[test]
fn segments_follow_pair_order() {
    // Three particles on a line; pairs (0, 2) and (1, 2) are drawn, (0, 1) is not.
    let pos: Vec<f32> = vec![0.0, 0.0, 0.0, 1.0, 0.0, 0.0, 2.0, 0.0, 0.0];
    let rows: Vec<Vec<Option<f32>>> = vec![vec![None, Some(0.5)], vec![Some(0.75)], vec![]];
    let mut lines: BondLines<f32> = BondLines::new(3, -1.0);
    lines.extract(&pos, &rows, true);
    assert_eq!(lines.num_connected(), 2);
    assert_eq!(&lines.line_positions()[0..6], &[0.0, 0.0, 0.0, 2.0, 0.0, 0.0]);
    assert_eq!(&lines.line_positions()[6..12], &[1.0, 0.0, 0.0, 2.0, 0.0, 0.0]);
    assert_eq!(&lines.line_colors()[0..6], &[0.5; 6]);
    assert_eq!(&lines.line_colors()[6..12], &[0.75; 6]);
    assert!(lines.line_positions()[12..].iter().all(|v| *v == -1.0));
}

#[test]
fn every_pair_drawn_fills_half_the_buffer() {
    let n: usize = 4;
    let pos: Vec<f32> = (0..3 * n).map(|k| k as f32).collect();
    let rows: Vec<Vec<Option<f32>>> = (0..n).map(|i| vec![Some(1.0); n - i - 1]).collect();
    let mut lines: BondLines<f32> = BondLines::new(n, 0.0);
    lines.extract(&pos, &rows, true);
    assert_eq!(lines.num_connected(), 6);
    // Last pair is (2, 3).
    assert_eq!(&lines.line_positions()[30..36], &[6.0, 7.0, 8.0, 9.0, 10.0, 11.0]);
    assert!(lines.line_colors()[..36].iter().all(|v| *v == 1.0));
    assert!(lines.line_colors()[36..].iter().all(|v| *v == 0.0));
}

#[test]
fn count_starts_again_each_extraction() {
    let mut lines: BondLines<f32> = BondLines::new(2, 0.0);
    let near: Vec<Vec<Option<f32>>> = vec![vec![Some(0.5)], vec![]];
    let far: Vec<Vec<Option<f32>>> = vec![vec![None], vec![]];
    lines.extract(&two_particles(), &near, true);
    lines.extract(&two_particles(), &near, true);
    assert_eq!(lines.num_connected(), 1);
    lines.extract(&two_particles(), &far, true);
    assert_eq!(lines.num_connected(), 0);
    // The stale segment stays behind the count.
    assert_eq!(&lines.line_colors()[0..6], &[0.5; 6]);
}
