//! Square grids.

use crate::graph::{Graph, Node};
use crate::visible_graph::IndexedSegment;
use vstd::arithmetic::div_mod::{lemma_fundamental_div_mod, lemma_fundamental_div_mod_converse};
use vstd::prelude::*;

verus! {

/// One of the four sides of a grid square.
#[derive(Clone, Copy, Debug, PartialEq, Eq, Structural)]
pub enum Direction {
    North,
    East,
    South,
    West,
}

/// A grid of 1-by-1 squares with a given number of rows and columns. A cell's
/// neighbors are those above, below, and to the left and right of it.
///
/// Nodes are numbered in row-major order, bottom to top, left to right.
#[derive(Clone, Copy, Debug, PartialEq, Eq, Structural)]
pub struct SquareGrid {
    rows: usize,
    cols: usize,
}

/// A cell at row `r` and column `c` of a grid `cols` wide has index
/// `r * cols + c`, and that index determines `r` and `c`.
pub proof fn lemma_cell_index(rows: nat, cols: nat, r: nat, c: nat)
    requires
        r < rows,
        c < cols,
    ensures
        r * cols + c < rows * cols,
        (r * cols + c) / cols == r,
        (r * cols + c) % cols == c,
{
    assert(r * cols + c < rows * cols) by (nonlinear_arith)
        requires
            r < rows,
            c < cols,
    ;
    lemma_fundamental_div_mod_converse((r * cols + c) as int, cols as int, r as int, c as int);
}

/// A node of a grid lies in one of its rows and one of its columns.
pub proof fn lemma_node_cell(rows: nat, cols: nat, node: nat)
    requires
        cols > 0,
        node < rows * cols,
    ensures
        node / cols < rows,
        node % cols < cols,
        node == (node / cols) * cols + node % cols,
{
    lemma_fundamental_div_mod(node as int, cols as int);
    assert(node / cols < rows) by (nonlinear_arith)
        requires
            cols > 0,
            node < rows * cols,
            node == cols * (node / cols) + node % cols,
            node % cols >= 0,
    ;
    assert((node / cols) * cols == cols * (node / cols)) by (nonlinear_arith);
}

impl SquareGrid {
    /// The number of rows.
    pub closed spec fn rows(&self) -> nat {
        self.rows as nat
    }

    /// The number of columns.
    pub closed spec fn cols(&self) -> nat {
        self.cols as nat
    }

    /// Whether a grid of these dimensions has at least one node and can
    /// number its nodes, edges and boundary points in a `usize`.
    pub open spec fn fits(rows: nat, cols: nat) -> bool {
        rows > 0 && cols > 0 && 4 * ((rows + 1) * (cols + 1)) <= usize::MAX
    }

    /// The row of `node`.
    pub open spec fn row_of(&self, node: Node) -> nat {
        node as nat / self.cols()
    }

    /// The column of `node`.
    pub open spec fn col_of(&self, node: Node) -> nat {
        node as nat % self.cols()
    }

    /// The node next to `node` on the side `dir`, if the grid extends there.
    pub open spec fn toward(&self, node: Node, dir: Direction) -> Option<Node> {
        match dir {
            Direction::North => if self.row_of(node) + 1 < self.rows() {
                Some((node + self.cols()) as usize)
            } else {
                None
            },
            Direction::East => if self.col_of(node) + 1 < self.cols() {
                Some((node + 1) as usize)
            } else {
                None
            },
            Direction::South => if 0 < self.row_of(node) {
                Some((node - self.cols()) as usize)
            } else {
                None
            },
            Direction::West => if 0 < self.col_of(node) {
                Some((node - 1) as usize)
            } else {
                None
            },
        }
    }

    /// The number of sides of `node` on which the grid extends: the number
    /// of its neighbors.
    pub open spec fn degree(&self, node: Node) -> nat {
        let north: nat = if self.toward(node, Direction::North) is Some {
            1
        } else {
            0
        };
        let east: nat = if self.toward(node, Direction::East) is Some {
            1
        } else {
            0
        };
        let south: nat = if self.toward(node, Direction::South) is Some {
            1
        } else {
            0
        };
        let west: nat = if self.toward(node, Direction::West) is Some {
            1
        } else {
            0
        };
        north + east + south + west
    }

    /// The degrees of the first `n` nodes, summed.
    pub open spec fn degree_sum(&self, n: nat) -> nat
        decreases n,
    {
        if n == 0 {
            0
        } else {
            self.degree_sum((n - 1) as nat) + self.degree((n - 1) as usize)
        }
    }

    /// The degrees of the first `n` nodes, summed, in closed form: side by
    /// side, how many of them have a neighbor to the north, to the south, to
    /// the east and to the west.
    pub open spec fn degree_prefix(&self, n: nat) -> int {
        let rows = self.rows() as int;
        let cols = self.cols() as int;
        let north = if n <= (rows - 1) * cols {
            n as int
        } else {
            (rows - 1) * cols
        };
        let south = if n >= cols {
            n - cols
        } else {
            0
        };
        let east = n - n as int / cols;
        let west = n - n as int / cols - if n as int % cols > 0 {
            1int
        } else {
            0int
        };
        north + south + east + west
    }

    /// The index, in the table of boundary points, of the south-western
    /// corner of `node`. That table has one more column than the grid.
    pub open spec fn corner(&self, node: Node) -> nat {
        self.row_of(node) * (self.cols() + 1) + self.col_of(node)
    }

    /// Whether `rows` and `cols` are dimensions that `new` accepts.
    pub fn dimensions_fit(rows: usize, cols: usize) -> (ok: bool)
        ensures
            ok == Self::fits(rows as nat, cols as nat),
    {
        if rows == 0 || cols == 0 || rows == usize::MAX || cols == usize::MAX {
            assert(!Self::fits(rows as nat, cols as nat)) by (nonlinear_arith)
                requires
                    rows == 0 || cols == 0 || rows == usize::MAX || cols == usize::MAX,
            ;
            return false;
        }
        match (rows + 1).checked_mul(cols + 1) {
            None => false,
            Some(points) => points.checked_mul(4).is_some(),
        }
    }

    /// Construct a `SquareGrid` with the given number of rows and columns.
    pub fn new(rows: usize, cols: usize) -> (grid: SquareGrid)
        requires
            Self::fits(rows as nat, cols as nat),
        ensures
            grid.wf(),
            grid.rows() == rows,
            grid.cols() == cols,
    {
        SquareGrid { rows, cols }
    }

    /// Return the number of rows.
    pub fn row_count(&self) -> (rows: usize)
        ensures
            rows == self.rows(),
    {
        self.rows
    }

    /// Return the number of columns.
    pub fn col_count(&self) -> (cols: usize)
        ensures
            cols == self.cols(),
    {
        self.cols
    }

    /// Return the row and column of `node`.
    pub fn node_rc(&self, node: Node) -> (rc: (usize, usize))
        requires
            self.wf(),
            node < self.node_count(),
        ensures
            rc.0 == self.row_of(node),
            rc.1 == self.col_of(node),
            rc.0 < self.rows(),
            rc.1 < self.cols(),
            node == rc.0 * self.cols() + rc.1,
    {
        proof {
            lemma_node_cell(self.rows(), self.cols(), node as nat);
        }
        (node / self.cols, node % self.cols)
    }

    /// Return the index of the node at the given row and column.
    pub fn rc_node(&self, row: usize, col: usize) -> (node: Node)
        requires
            self.wf(),
            row < self.rows(),
            col < self.cols(),
        ensures
            node == row * self.cols() + col,
            node < self.node_count(),
            self.row_of(node) == row,
            self.col_of(node) == col,
    {
        proof {
            lemma_cell_index(self.rows(), self.cols(), row as nat, col as nat);
            self.lemma_count_fits();
        }
        row * self.cols + col
    }

    /// The node and boundary-point counts of a well-formed grid fit a `usize`.
    pub proof fn lemma_count_fits(&self)
        requires
            self.wf(),
        ensures
            self.rows() * self.cols() <= (self.rows() + 1) * (self.cols() + 1),
            4 * (self.rows() * self.cols()) <= usize::MAX,
            (self.rows() + 1) * (self.cols() + 1) <= usize::MAX,
            self.rows() < usize::MAX,
            self.cols() < usize::MAX,
            self.rows() <= self.rows() * self.cols(),
            self.cols() <= self.rows() * self.cols(),
    {
        let r = self.rows();
        let c = self.cols();
        assert(r * c + r + c + 1 == (r + 1) * (c + 1)) by (nonlinear_arith);
        assert(r <= r * c && c <= r * c) by (nonlinear_arith)
            requires
                r > 0,
                c > 0,
        ;
    }

    /// The sum of the degrees of the first `n` nodes has the closed form.
    pub proof fn lemma_degree_prefix(&self, n: nat)
        requires
            self.wf(),
            n <= self.node_count(),
        ensures
            self.degree_sum(n) == self.degree_prefix(n),
        decreases n,
    {
        let rows = self.rows();
        let cols = self.cols();
        self.lemma_count_fits();
        if n == 0 {
            assert(0int / (cols as int) == 0 && 0int % (cols as int) == 0) by (nonlinear_arith)
                requires
                    cols > 0,
            ;
            assert((rows - 1) * cols >= 0) by (nonlinear_arith)
                requires
                    rows > 0,
                    cols > 0,
            ;
        } else {
            let v = (n - 1) as nat;
            self.lemma_degree_prefix(v);
            lemma_node_cell(rows, cols, v);
            let q = v / cols;
            let m = v % cols;
            // Where the next node lies.
            if m + 1 < cols {
                lemma_fundamental_div_mod_converse(n as int, cols as int, q as int, m as int + 1);
            } else {
                assert(n == (q + 1) * cols + 0) by (nonlinear_arith)
                    requires
                        n == v + 1,
                        v == q * cols + m,
                        m + 1 == cols,
                ;
                lemma_fundamental_div_mod_converse(n as int, cols as int, q as int + 1, 0);
            }
            // A node has a neighbor to the north unless it is in the
            // last row, and one to the south unless it is in the first.
            assert((q + 1 < rows) <==> (v < (rows - 1) * cols)) by (nonlinear_arith)
                requires
                    v == q * cols + m,
                    m < cols,
                    rows > 0,
            ;
            assert((q > 0) <==> (v >= cols)) by (nonlinear_arith)
                requires
                    v == q * cols + m,
                    m < cols,
            ;
        }
    }

    /// Each edge leaves one node: the degrees of all nodes add up to the
    /// number of edges.
    pub proof fn lemma_degrees_add_up_to_edges(&self)
        requires
            self.wf(),
        ensures
            self.degree_sum(self.node_count()) == self.edge_count(),
    {
        let rows = self.rows();
        let cols = self.cols();
        self.lemma_count_fits();
        self.lemma_degree_prefix(rows * cols);
        lemma_fundamental_div_mod_converse((rows * cols) as int, cols as int, rows as int, 0);
        assert(rows * cols > (rows - 1) * cols && rows * cols >= cols) by (nonlinear_arith)
            requires
                rows > 0,
                cols > 0,
        ;
        assert((rows - 1) * cols + (rows * cols - cols) + (rows * cols - rows) + (rows * cols
            - rows) == 2 * (rows * (cols - 1) + cols * (rows - 1))) by (nonlinear_arith);
    }

    /// What `toward` finds is a node of the grid, in the row and column next
    /// to those of `node` on that side.
    pub proof fn lemma_toward(&self, node: Node, dir: Direction)
        requires
            self.wf(),
            node < self.node_count(),
        ensures
            match self.toward(node, dir) {
                Some(to) => self.adjacent(node, to) && match dir {
                    Direction::North => to == node + self.cols(),
                    Direction::East => to == node + 1,
                    Direction::South => to == node - self.cols(),
                    Direction::West => to == node - 1,
                },
                None => true,
            },
    {
        let rows = self.rows();
        let cols = self.cols();
        let r = self.row_of(node);
        let c = self.col_of(node);
        lemma_node_cell(rows, cols, node as nat);
        self.lemma_count_fits();
        match dir {
            Direction::North => if r + 1 < rows {
                lemma_cell_index(rows, cols, r + 1, c);
                assert((r + 1) * cols + c == node + cols) by (nonlinear_arith)
                    requires
                        node == r * cols + c,
                ;
            },
            Direction::East => if c + 1 < cols {
                lemma_cell_index(rows, cols, r, c + 1);
            },
            Direction::South => if 0 < r {
                lemma_cell_index(rows, cols, (r - 1) as nat, c);
                assert((r - 1) * cols + c == node - cols) by (nonlinear_arith)
                    requires
                        node == r * cols + c,
                ;
            },
            Direction::West => if 0 < c {
                lemma_cell_index(rows, cols, r, (c - 1) as nat);
            },
        }
    }

    /// Every neighbor of a node lies on one of its four sides.
    pub proof fn lemma_adjacent_is_toward(&self, node: Node, to: Node)
        requires
            self.wf(),
            self.adjacent(node, to),
        ensures
            self.toward(node, Direction::North) == Some(to) || self.toward(node, Direction::East)
                == Some(to) || self.toward(node, Direction::South) == Some(to) || self.toward(
                node,
                Direction::West,
            ) == Some(to),
            node != to,
    {
        let rows = self.rows();
        let cols = self.cols();
        lemma_node_cell(rows, cols, node as nat);
        lemma_node_cell(rows, cols, to as nat);
        let r = self.row_of(node);
        let c = self.col_of(node);
        let tr = self.row_of(to);
        let tc = self.col_of(to);
        if r + 1 == tr {
            assert(tr * cols + tc == node + cols) by (nonlinear_arith)
                requires
                    node == r * cols + c,
                    tr == r + 1,
                    tc == c,
            ;
        } else if tr + 1 == r {
            assert(tr * cols + tc == node - cols) by (nonlinear_arith)
                requires
                    node == r * cols + c,
                    tr + 1 == r,
                    tc == c,
            ;
        }
    }

    /// Return the node next to `node` on the side `dir`, or `None` at the
    /// edge of the grid.
    pub fn step(&self, node: Node, dir: Direction) -> (to: Option<Node>)
        requires
            self.wf(),
            node < self.node_count(),
        ensures
            to == self.toward(node, dir),
    {
        let (row, col): (usize, usize) = self.node_rc(node);
        proof {
            self.lemma_toward(node, dir);
            self.lemma_count_fits();
        }
        match dir {
            Direction::North => if row + 1 < self.rows {
                Some(node + self.cols)
            } else {
                None
            },
            Direction::East => if col + 1 < self.cols {
                Some(node + 1)
            } else {
                None
            },
            Direction::South => if 0 < row {
                Some(node - self.cols)
            } else {
                None
            },
            Direction::West => if 0 < col {
                Some(node - 1)
            } else {
                None
            },
        }
    }

    /// Return the edge that leaves the square at `row` and `col` on the side
    /// `dir`, as a pair of origin and destination. There is none where the
    /// grid has no such square, or does not extend beyond it on that side.
    pub fn edge_from(&self, row: usize, col: usize, dir: Direction) -> (edge: Option<(Node, Node)>)
        requires
            self.wf(),
        ensures
            edge == if row < self.rows() && col < self.cols() {
                match self.toward((row * self.cols() + col) as usize, dir) {
                    Some(to) => Some(((row * self.cols() + col) as usize, to)),
                    None => None,
                }
            } else {
                None
            },
    {
        if row >= self.rows || col >= self.cols {
            return None;
        }
        let from: Node = self.rc_node(row, col);
        match self.step(from, dir) {
            Some(to) => Some((from, to)),
            None => None,
        }
    }

    /// Whether the grid has an edge from `from` to `to`.
    pub fn is_edge(&self, from: Node, to: Node) -> (yes: bool)
        requires
            self.wf(),
        ensures
            yes == self.adjacent(from, to),
    {
        let count: usize = self.nodes();
        if from >= count || to >= count {
            return false;
        }
        let (r, c): (usize, usize) = self.node_rc(from);
        let (tr, tc): (usize, usize) = self.node_rc(to);
        (r == tr && (c + 1 == tc || tc + 1 == c)) || (c == tc && (r + 1 == tr || tr + 1 == r))
    }

    /// Return the corners of all squares, as pairs of column and row: the
    /// table of points to which the boundary segments refer by index. It
    /// goes row by row from the bottom, and has one more row and one more
    /// column than the grid.
    pub fn endpoints(&self) -> (points: Vec<(usize, usize)>)
        requires
            self.wf(),
        ensures
            points@.len() == (self.rows() + 1) * (self.cols() + 1),
            forall|i: int|
                0 <= i < points@.len() ==> (#[trigger] points@[i]).0 == i % (self.cols() as int
                    + 1) && points@[i].1 == i / (self.cols() as int + 1),
    {
        proof {
            self.lemma_count_fits();
        }
        let width: usize = self.cols + 1;
        let mut points: Vec<(usize, usize)> = Vec::new();
        let mut r: usize = 0;
        while r <= self.rows
            invariant
                self.wf(),
                width == self.cols() + 1,
                (self.rows() + 1) * (self.cols() + 1) <= usize::MAX,
                self.rows() < usize::MAX,
                r <= self.rows() + 1,
                points@.len() == r * width,
                forall|i: int|
                    0 <= i < points@.len() ==> (#[trigger] points@[i]).0 == i % (width as int)
                        && points@[i].1 == i / (width as int),
            decreases self.rows() + 1 - r,
        {
            let mut c: usize = 0;
            while c < width
                invariant
                    width == self.cols() + 1,
                    (self.rows() + 1) * (self.cols() + 1) <= usize::MAX,
                    r <= self.rows(),
                    c <= width,
                    points@.len() == r * width + c,
                    forall|i: int|
                        0 <= i < points@.len() ==> (#[trigger] points@[i]).0 == i % (width as int)
                            && points@[i].1 == i / (width as int),
                decreases width - c,
            {
                proof {
                    lemma_cell_index(self.rows() + 1, width as nat, r as nat, c as nat);
                }
                points.push((c, r));
                c += 1;
            }
            proof {
                assert(r * width + width == (r + 1) * width) by (nonlinear_arith);
            }
            r += 1;
        }
        points
    }

    /// The south-western corner of a node's square is the point of its
    /// column and row in the table of `endpoints`.
    pub proof fn lemma_corner_point(&self, node: Node)
        requires
            self.wf(),
            node < self.node_count(),
        ensures
            self.corner(node) < (self.rows() + 1) * (self.cols() + 1),
            self.corner(node) % (self.cols() + 1) == self.col_of(node),
            self.corner(node) / (self.cols() + 1) == self.row_of(node),
    {
        lemma_node_cell(self.rows(), self.cols(), node as nat);
        lemma_cell_index(self.rows() + 1, self.cols() + 1, self.row_of(node), self.col_of(node));
    }

    /// Return the four line segments that bound `node`'s square, north, east,
    /// south and west in that order, each with the node on its far side.
    pub fn boundary(&self, node: Node) -> (segments: Vec<IndexedSegment>)
        requires
            self.wf(),
            node < self.node_count(),
        ensures
            segments@.len() == 4,
            segments@[0].line.start == self.corner(node) + self.cols() + 1,
            segments@[0].line.end == self.corner(node) + self.cols() + 2,
            segments@[0].neighbor == self.toward(node, Direction::North),
            segments@[1].line.start == self.corner(node) + self.cols() + 2,
            segments@[1].line.end == self.corner(node) + 1,
            segments@[1].neighbor == self.toward(node, Direction::East),
            segments@[2].line.start == self.corner(node) + 1,
            segments@[2].line.end == self.corner(node),
            segments@[2].neighbor == self.toward(node, Direction::South),
            segments@[3].line.start == self.corner(node),
            segments@[3].line.end == self.corner(node) + self.cols() + 1,
            segments@[3].neighbor == self.toward(node, Direction::West),
            self.corner(node) + self.cols() + 2 < (self.rows() + 1) * (self.cols() + 1),
    {
        proof {
            self.lemma_count_fits();
        }
        let pt_cols: usize = self.cols + 1;
        let (row, col): (usize, usize) = self.node_rc(node);
        proof {
            lemma_cell_index(self.rows() + 1, self.cols() + 1, row as nat + 1, col as nat + 1);
            assert((row + 1) * (self.cols() + 1) + (col + 1) == row * (self.cols() + 1) + col
                + self.cols() + 2) by (nonlinear_arith);
        }
        let sw: usize = row * pt_cols + col;
        let mut segments: Vec<IndexedSegment> = Vec::new();
        segments.push(
            IndexedSegment {
                line: sw + pt_cols..sw + pt_cols + 1,
                neighbor: self.step(node, Direction::North),
            },
        );
        segments.push(
            IndexedSegment {
                line: sw + pt_cols + 1..sw + 1,
                neighbor: self.step(node, Direction::East),
            },
        );
        segments.push(
            IndexedSegment { line: sw + 1..sw, neighbor: self.step(node, Direction::South) },
        );
        segments.push(
            IndexedSegment { line: sw..sw + pt_cols, neighbor: self.step(node, Direction::West) },
        );
        segments
    }
}

impl Graph for SquareGrid {
    open spec fn wf(&self) -> bool {
        Self::fits(self.rows(), self.cols())
    }

    open spec fn node_count(&self) -> nat {
        self.rows() * self.cols()
    }

    /// Each pair of squares that share a side is joined by two edges, one
    /// each way.
    open spec fn edge_count(&self) -> nat {
        (2 * (self.rows() * (self.cols() - 1) + self.cols() * (self.rows() - 1))) as nat
    }

    /// Two nodes are adjacent when they lie in the same row and in columns
    /// next to each other, or in the same column and in rows next to each
    /// other.
    open spec fn adjacent(&self, from: Node, to: Node) -> bool {
        &&& from < self.node_count()
        &&& to < self.node_count()
        &&& {
            ||| self.row_of(from) == self.row_of(to) && (self.col_of(from) + 1 == self.col_of(to)
                || self.col_of(to) + 1 == self.col_of(from))
            ||| self.col_of(from) == self.col_of(to) && (self.row_of(from) + 1 == self.row_of(to)
                || self.row_of(to) + 1 == self.row_of(from))
        }
    }

    fn nodes(&self) -> (n: Node) {
        proof {
            self.lemma_count_fits();
        }
        self.rows * self.cols
    }

    fn edges(&self) -> (n: usize) {
        proof {
            self.lemma_count_fits();
            let r = self.rows();
            let c = self.cols();
            assert(r * (c - 1) <= r * c && c * (r - 1) <= r * c && r * (c - 1) >= 0 && c * (r - 1)
                >= 0) by (nonlinear_arith)
                requires
                    r > 0,
                    c > 0,
            ;
        }
        let across: usize = self.rows * (self.cols - 1);
        let upward: usize = self.cols * (self.rows - 1);
        2 * (across + upward)
    }

    fn neighbors(&self, node: Node) -> (out: Vec<Node>)
        ensures
            out@.len() == self.degree(node),
    {
        let mut out: Vec<Node> = Vec::new();
        let west: Option<Node> = self.step(node, Direction::West);
        let east: Option<Node> = self.step(node, Direction::East);
        let south: Option<Node> = self.step(node, Direction::South);
        let north: Option<Node> = self.step(node, Direction::North);
        proof {
            self.lemma_toward(node, Direction::West);
            self.lemma_toward(node, Direction::East);
            self.lemma_toward(node, Direction::South);
            self.lemma_toward(node, Direction::North);
            self.lemma_count_fits();
        }
        if let Some(to) = west {
            out.push(to);
        }
        if let Some(to) = east {
            out.push(to);
        }
        if let Some(to) = south {
            out.push(to);
        }
        if let Some(to) = north {
            out.push(to);
        }
        proof {
            assert forall|to: Node| self.adjacent(node, to) implies out@.contains(to) by {
                self.lemma_adjacent_is_toward(node, to);
                if west == Some(to) {
                    assert(out@[0] == to);
                } else if east == Some(to) {
                    assert(exists|i: int| 0 <= i < out@.len() && out@[i] == to) by {
                        if west.is_some() {
                            assert(out@[1] == to);
                        } else {
                            assert(out@[0] == to);
                        }
                    }
                } else if south == Some(to) {
                    let i = (if west.is_some() { 1int } else { 0int }) + (if east.is_some() {
                        1int
                    } else {
                        0int
                    });
                    assert(out@[i] == to);
                } else {
                    let i = out@.len() - 1;
                    assert(out@[i] == to);
                }
            }
        }
        out
    }
}

} // verus!
