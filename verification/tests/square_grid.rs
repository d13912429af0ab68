use rbattle::graph::Graph;
use rbattle::square::{Direction, SquareGrid};
use rbattle::visible_graph::IndexedSegment;

/// A point of the plane.
type Point = (f32, f32);

/// A boundary segment with the coordinates of its two ends, put in a
/// consistent order, and the node across it.
#[derive(Clone, Debug, PartialEq)]
struct SegmentWithPoints {
    line: (Point, Point),
    neighbor: Option<usize>,
}

/// Construct a point. For brevity in tests.
fn gp(x: f32, y: f32) -> Point {
    (x, y)
}

fn swp(start: Point, end: Point, neighbor: Option<usize>) -> SegmentWithPoints {
    let swap = start.0.to_bits() > end.0.to_bits()
        || (start.0.to_bits() == end.0.to_bits() && start.1.to_bits() > end.1.to_bits());
    SegmentWithPoints { line: if swap { (end, start) } else { (start, end) }, neighbor }
}

/// The corners of the squares of a grid, row by row from the bottom, in the
/// order in which boundary segments number them.
fn corner_points(rows: usize, cols: usize) -> Vec<Point> {
    let mut points = Vec::new();
    for r in 0..rows + 1 {
        for c in 0..cols + 1 {
            points.push(gp(c as f32, r as f32));
        }
    }
    points
}

fn into_points(segments: &[IndexedSegment], endpoints: &[Point]) -> Vec<SegmentWithPoints> {
    segments
        .iter()
        .map(|seg| swp(endpoints[seg.line.start], endpoints[seg.line.end], seg.neighbor))
        .collect()
}

/// Panic unless `left` and `right` hold the same segments, ignoring order
/// and repetition.
fn assert_same_segments(left: Vec<SegmentWithPoints>, right: Vec<SegmentWithPoints>) {
    for segment in &left {
        assert!(right.contains(segment), "left has only {:?}", segment);
    }
    for segment in &right {
        assert!(left.contains(segment), "right has only {:?}", segment);
    }
}

/// Panic unless `left` and `right` hold the same elements, ignoring order
/// and repetition.
fn assert_same_elements(left: Vec<usize>, right: Vec<usize>) {
    let mut left_only: Vec<usize> = left.iter().cloned().filter(|x| !right.contains(x)).collect();
    let mut right_only: Vec<usize> = right.iter().cloned().filter(|x| !left.contains(x)).collect();
    left_only.sort();
    right_only.sort();
    if !left_only.is_empty() || !right_only.is_empty() {
        panic!(
            "left and right have different elements: left has only {:?}, right has only {:?}",
            left_only, right_only
        );
    }
}

#[test]
fn nodes() {
    assert_eq!(SquareGrid::new(4, 7).nodes(), 28);
}

#[test]
fn edges() {
    assert_eq!(SquareGrid::new(4, 7).edges(), 90);
    assert_eq!(SquareGrid::new(1, 100).edges(), 198);
}

#[test]
fn neighbors() {
    let grid = SquareGrid::new(4, 7);

    // Corners.
    assert_same_elements(grid.neighbors(0), vec![1, 7]);
    assert_same_elements(grid.neighbors(6), vec![5, 13]);
    assert_same_elements(grid.neighbors(21), vec![14, 22]);
    assert_same_elements(grid.neighbors(27), vec![26, 20]);

    // Edges.
    assert_same_elements(grid.neighbors(4), vec![3, 5, 11]);
    assert_same_elements(grid.neighbors(7), vec![0, 8, 14]);
    assert_same_elements(grid.neighbors(20), vec![13, 19, 27]);
    assert_same_elements(grid.neighbors(23), vec![22, 16, 24]);

    // Interior points.
    assert_same_elements(grid.neighbors(8), vec![7, 9, 1, 15]);
    assert_same_elements(grid.neighbors(17), vec![16, 18, 10, 24]);

    let grid = SquareGrid::new(1, 3);
    assert_same_elements(grid.neighbors(0), vec![1]);
    assert_same_elements(grid.neighbors(1), vec![0, 2]);
    assert_same_elements(grid.neighbors(2), vec![1]);

    let grid = SquareGrid::new(3, 1);
    assert_same_elements(grid.neighbors(0), vec![1]);
    assert_same_elements(grid.neighbors(1), vec![0, 2]);
    assert_same_elements(grid.neighbors(2), vec![1]);

    let grid = SquareGrid::new(1, 1);
    assert_same_elements(grid.neighbors(0), vec![]);
}

#[test]
fn neighbors_come_once_each() {
    let grid = SquareGrid::new(3, 3);
    let mut around = grid.neighbors(4);
    around.sort();
    assert_eq!(around, vec![1, 3, 5, 7]);
}

#[test]
fn node_rc_and_rc_node_are_inverse() {
    let grid = SquareGrid::new(4, 7);
    assert_eq!(grid.node_rc(0), (0, 0));
    assert_eq!(grid.node_rc(9), (1, 2));
    assert_eq!(grid.node_rc(27), (3, 6));
    assert_eq!(grid.rc_node(1, 2), 9);
    assert_eq!(grid.rc_node(3, 6), 27);
    for node in 0..28 {
        let (row, col) = grid.node_rc(node);
        assert_eq!(grid.rc_node(row, col), node);
    }
}

#[test]
fn step_stops_at_the_rim() {
    let grid = SquareGrid::new(3, 4);
    assert_eq!(grid.step(0, Direction::North), Some(4));
    assert_eq!(grid.step(0, Direction::East), Some(1));
    assert_eq!(grid.step(0, Direction::South), None);
    assert_eq!(grid.step(0, Direction::West), None);
    assert_eq!(grid.step(11, Direction::North), None);
    assert_eq!(grid.step(11, Direction::East), None);
    assert_eq!(grid.step(11, Direction::South), Some(7));
    assert_eq!(grid.step(11, Direction::West), Some(10));
}

#[test]
fn is_edge_agrees_with_neighbors() {
    let grid = SquareGrid::new(3, 4);
    for from in 0..12 {
        let around = grid.neighbors(from);
        for to in 0..14 {
            assert_eq!(grid.is_edge(from, to), around.contains(&to));
        }
    }
    // The last node of a row and the first of the next are not joined.
    assert!(!grid.is_edge(3, 4));
    assert!(!grid.is_edge(5, 5));
    assert!(!grid.is_edge(12, 11));
}

#[test]
fn dimensions_fit_rejects_empty_and_huge_grids() {
    assert!(SquareGrid::dimensions_fit(1, 1));
    assert!(SquareGrid::dimensions_fit(15, 15));
    assert!(!SquareGrid::dimensions_fit(0, 5));
    assert!(!SquareGrid::dimensions_fit(5, 0));
    assert!(!SquareGrid::dimensions_fit(usize::MAX, 1));
    assert!(!SquareGrid::dimensions_fit(usize::MAX / 2, 2));
}

#[test]
fn boundary_of_a_single_square() {
    let grid = SquareGrid::new(1, 1);
    let segments = grid.boundary(0);
    assert_eq!(segments.len(), 4);
    // The four corners are numbered 0 1 / 2 3, bottom row first.
    assert_eq!((segments[0].line.start, segments[0].line.end), (2, 3));
    assert_eq!((segments[1].line.start, segments[1].line.end), (3, 1));
    assert_eq!((segments[2].line.start, segments[2].line.end), (1, 0));
    assert_eq!((segments[3].line.start, segments[3].line.end), (0, 2));
    for segment in &segments {
        assert_eq!(segment.neighbor, None);
    }
}

#[test]
fn boundary_names_the_nodes_across() {
    let grid = SquareGrid::new(3, 2);
    let segments = grid.boundary(3);
    // Node 3 is at row 1, column 1; its south-western corner is point 4.
    assert_eq!((segments[0].line.start, segments[0].line.end), (7, 8));
    assert_eq!(segments[0].neighbor, Some(5));
    assert_eq!((segments[1].line.start, segments[1].line.end), (8, 5));
    assert_eq!(segments[1].neighbor, None);
    assert_eq!((segments[2].line.start, segments[2].line.end), (5, 4));
    assert_eq!(segments[2].neighbor, Some(1));
    assert_eq!((segments[3].line.start, segments[3].line.end), (4, 7));
    assert_eq!(segments[3].neighbor, Some(2));
}

#[test]
fn every_edge_leaves_one_node() {
    for (rows, cols) in [(1, 1), (1, 5), (5, 1), (2, 2), (4, 7), (15, 15)] {
        let grid = SquareGrid::new(rows, cols);
        let mut degrees = 0;
        for node in 0..grid.nodes() {
            degrees += grid.neighbors(node).len();
        }
        assert_eq!(degrees, grid.edges());
    }
    assert_eq!(SquareGrid::new(1, 1).edges(), 0);
    assert_eq!(SquareGrid::new(2, 2).edges(), 8);
}

#[test]
fn edge_from_names_origin_and_destination() {
    let grid = SquareGrid::new(3, 4);
    assert_eq!(grid.edge_from(0, 0, Direction::North), Some((0, 4)));
    assert_eq!(grid.edge_from(1, 3, Direction::North), Some((7, 11)));
    assert_eq!(grid.edge_from(2, 3, Direction::South), Some((11, 7)));
    assert_eq!(grid.edge_from(2, 2, Direction::East), Some((10, 11)));
    assert_eq!(grid.edge_from(0, 1, Direction::West), Some((1, 0)));
    assert_eq!(grid.edge_from(2, 3, Direction::North), None);
    assert_eq!(grid.edge_from(2, 3, Direction::East), None);
    assert_eq!(grid.edge_from(3, 0, Direction::South), None);
    assert_eq!(grid.edge_from(0, 4, Direction::West), None);
    assert_eq!(grid.row_count(), 3);
    assert_eq!(grid.col_count(), 4);
}

#[test]
fn boundary() {
    let grid = SquareGrid::new(1, 1);
    let endpoints = corner_points(1, 1);
    assert_same_segments(
        into_points(&grid.boundary(0), &endpoints),
        vec![
            swp(gp(0.0, 0.0), gp(1.0, 0.0), None),
            swp(gp(1.0, 0.0), gp(1.0, 1.0), None),
            swp(gp(1.0, 1.0), gp(0.0, 1.0), None),
            swp(gp(0.0, 1.0), gp(0.0, 0.0), None),
        ],
    );

    let grid = SquareGrid::new(3, 2);
    let endpoints = corner_points(3, 2);
    assert_same_segments(
        into_points(&grid.boundary(0), &endpoints),
        vec![
            swp(gp(0.0, 0.0), gp(1.0, 0.0), None),
            swp(gp(1.0, 0.0), gp(1.0, 1.0), Some(1)),
            swp(gp(1.0, 1.0), gp(0.0, 1.0), Some(2)),
            swp(gp(0.0, 1.0), gp(0.0, 0.0), None),
        ],
    );
    assert_same_segments(
        into_points(&grid.boundary(3), &endpoints),
        vec![
            swp(gp(1.0, 1.0), gp(2.0, 1.0), Some(1)),
            swp(gp(2.0, 1.0), gp(2.0, 2.0), None),
            swp(gp(2.0, 2.0), gp(1.0, 2.0), Some(5)),
            swp(gp(1.0, 2.0), gp(1.0, 1.0), Some(2)),
        ],
    );
}

#[test]
fn endpoints() {
    let as_points = |corners: Vec<(usize, usize)>| -> Vec<SegmentWithPoints> {
        // A point stands as a segment from itself to itself, so that sets
        // of points compare as sets of segments do.
        corners
            .into_iter()
            .map(|(col, row)| swp(gp(col as f32, row as f32), gp(col as f32, row as f32), None))
            .collect()
    };
    let points = |coordinates: Vec<Point>| -> Vec<SegmentWithPoints> {
        coordinates.into_iter().map(|point| swp(point, point, None)).collect()
    };

    assert_same_segments(
        as_points(SquareGrid::new(1, 1).endpoints()),
        points(vec![gp(0.0, 0.0), gp(0.0, 1.0), gp(1.0, 0.0), gp(1.0, 1.0)]),
    );

    assert_same_segments(
        as_points(SquareGrid::new(3, 2).endpoints()),
        points(vec![
            gp(0.0, 0.0),
            gp(1.0, 0.0),
            gp(2.0, 0.0),
            gp(0.0, 1.0),
            gp(1.0, 1.0),
            gp(2.0, 1.0),
            gp(0.0, 2.0),
            gp(1.0, 2.0),
            gp(2.0, 2.0),
            gp(0.0, 3.0),
            gp(1.0, 3.0),
            gp(2.0, 3.0),
        ]),
    );
}

#[test]
fn endpoints_go_row_by_row() {
    let grid = SquareGrid::new(2, 3);
    let corners = grid.endpoints();
    assert_eq!(corners.len(), 12);
    assert_eq!(corners[0], (0, 0));
    assert_eq!(corners[3], (3, 0));
    assert_eq!(corners[4], (0, 1));
    assert_eq!(corners[11], (3, 2));
    assert_eq!(corner_points(2, 3), corners.iter().map(|&(c, r)| gp(c as f32, r as f32)).collect::<Vec<Point>>());
}
