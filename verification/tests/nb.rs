use ca::gen::points2d;
use ca::nb::{wrap_idx, MooreNeighborhoodIterator, VonNeumannNeighborhoodIterator};
use ca::types::Cell;

fn collect_moore(mut it: MooreNeighborhoodIterator) -> Vec<Cell> {
    let mut out = Vec::new();
    while let Some(v) = it.next() {
        out.push(v);
    }
    out
}

fn collect_von_neumann(mut it: VonNeumannNeighborhoodIterator) -> Vec<Cell> {
    let mut out = Vec::new();
    while let Some(v) = it.next() {
        out.push(v);
    }
    out
}

#[test]
fn test_wrap_idx() {
    assert_eq!(wrap_idx(-3, 10), 7);
    assert_eq!(wrap_idx(3, 10), 3);
    assert_eq!(wrap_idx(13, 10), 3);
}

#[test]
fn test_moore_neighborhood_iterator() {
    let cells = points2d(3, 3, vec![(0, 0), (1, 1), (2, 2)]);
    let it = MooreNeighborhoodIterator::new(&cells, 3, 3, 1, 1, 1);
    let neighbors: Vec<Cell> = collect_moore(it);
    assert_eq!(neighbors, vec![1, 0, 0, 0, 0, 0, 0, 1]);
}

#[test]
fn test_von_neumann_neighborhood_iterator() {
    let cells = points2d(3, 3, vec![(0, 0), (0, 1), (1, 0), (1, 1), (2, 2)]);
    let it = VonNeumannNeighborhoodIterator::new(&cells, 3, 3, 1, 1, 1);
    let neighbors: Vec<Cell> = collect_von_neumann(it);
    assert_eq!(neighbors, vec![1, 1, 0, 0]);
}

#[test]
fn test_wrap_idx_large_negative() {
    assert_eq!(wrap_idx(-23, 10), 7);
    assert_eq!(wrap_idx(-10, 10), 0);
    assert_eq!(wrap_idx(0, 1), 0);
}

#[test]
fn test_moore_neighborhood_range_zero_is_empty() {
    let cells = points2d(3, 3, vec![(1, 1)]);
    let it = MooreNeighborhoodIterator::new(&cells, 3, 3, 1, 1, 0);
    assert_eq!(collect_moore(it), Vec::<Cell>::new());
}

#[test]
fn test_moore_neighborhood_range_two_count() {
    let cells = points2d(7, 7, vec![]);
    let it = MooreNeighborhoodIterator::new(&cells, 7, 7, 3, 3, 2);
    assert_eq!(collect_moore(it).len(), 24);
}

#[test]
fn test_von_neumann_range_two_count() {
    let cells = points2d(7, 7, vec![]);
    let it = VonNeumannNeighborhoodIterator::new(&cells, 7, 7, 3, 3, 2);
    assert_eq!(collect_von_neumann(it).len(), 12);
}

#[test]
fn test_moore_wraps_toroidally() {
    // A single live cell at the far corner is seen from the origin's
    // neighborhood through the wrap.
    let cells = points2d(3, 3, vec![(2, 2)]);
    let it = MooreNeighborhoodIterator::new(&cells, 3, 3, 0, 0, 1);
    let neighbors = collect_moore(it);
    assert_eq!(neighbors, vec![1, 0, 0, 0, 0, 0, 0, 0]);
}
