use vstd::prelude::*;

verus! {

/// The most subdivisions a face may have: the index count of a face,
/// six per grid cell, must fit an `i32`.
pub const MAX_SUBDIVISIONS: u32 = 16384;

/// Why a face cannot be generated.
#[derive(Clone, Copy, PartialEq, Eq, Structural, Debug)]
pub enum MeshError {
    /// A face needs at least one subdivision.
    InvalidSubdivisions,
    /// More subdivisions than `MAX_SUBDIVISIONS`.
    TooManySubdivisions,
}

/// The six faces of the cube a cubesphere is built from.
#[derive(Clone, Copy, PartialEq, Eq, Structural, Debug)]
pub enum FaceOrientation {
    Top,
    Bottom,
    Front,
    Back,
    Left,
    Right,
}

impl FaceOrientation {
    /// The axis the face lies on, one unit from the cube's centre; it is
    /// also the face's nominal outward direction.
    pub open spec fn spec_axis(self) -> (int, int, int) {
        match self {
            FaceOrientation::Top => (0, 1, 0),
            FaceOrientation::Bottom => (0, -1, 0),
            FaceOrientation::Front => (0, 0, 1),
            FaceOrientation::Back => (0, 0, -1),
            FaceOrientation::Left => (1, 0, 0),
            FaceOrientation::Right => (-1, 0, 0),
        }
    }

    pub fn outward_axis(&self) -> (r: (i32, i32, i32))
        ensures
            (r.0 as int, r.1 as int, r.2 as int) == self.spec_axis(),
    {
        match self {
            FaceOrientation::Top => (0, 1, 0),
            FaceOrientation::Bottom => (0, -1, 0),
            FaceOrientation::Front => (0, 0, 1),
            FaceOrientation::Back => (0, 0, -1),
            FaceOrientation::Left => (1, 0, 0),
            FaceOrientation::Right => (-1, 0, 0),
        }
    }
}

/// A point of a face's grid: column and row, each from 0 to the
/// subdivision count. Its texture coordinate is (col / n, row / n).
#[derive(Clone, Copy, PartialEq, Eq, Structural, Debug)]
pub struct GridPoint {
    pub col: u32,
    pub row: u32,
}

/// The subdivision counts for which a face is generated.
pub open spec fn subdivisions_ok(n: u32) -> bool {
    1 <= n <= MAX_SUBDIVISIONS
}

pub open spec fn subdivisions_outcome(n: u32) -> Result<(), MeshError> {
    if n == 0 {
        Err(MeshError::InvalidSubdivisions)
    } else if n > MAX_SUBDIVISIONS {
        Err(MeshError::TooManySubdivisions)
    } else {
        Ok(())
    }
}

/// A face of `n` subdivisions has an (n+1) by (n+1) grid of vertices.
pub open spec fn vertex_count(n: int) -> int {
    (n + 1) * (n + 1)
}

/// The vertex at column `col` and row `row` of the grid.
pub open spec fn grid_vertex(n: int, row: int, col: int) -> int {
    row * (n + 1) + col
}

/// Corner `k` (0 to 5) of grid cell `q`, counted row by row: the cell's
/// two counter-clockwise triangles (a, c, b) and (b, c, d), where a and b
/// are its corners on row `q / n` and c and d those on the row after.
pub open spec fn cell_corner(n: int, q: int, k: int) -> int {
    let a = grid_vertex(n, q / n, q % n);
    let b = a + 1;
    let c = a + n + 1;
    let d = c + 1;
    if k == 0 {
        a
    } else if k == 1 {
        c
    } else if k == 2 {
        b
    } else if k == 3 {
        b
    } else if k == 4 {
        c
    } else {
        d
    }
}

fn check_subdivisions(n: u32) -> (r: Result<(), MeshError>)
    ensures
        r == subdivisions_outcome(n),
{
    if n == 0 {
        Err(MeshError::InvalidSubdivisions)
    } else if n > MAX_SUBDIVISIONS {
        Err(MeshError::TooManySubdivisions)
    } else {
        Ok(())
    }
}

/// The grid of a face of `n` subdivisions, row by row.
pub fn face_grid(n: u32) -> (r: Result<Vec<GridPoint>, MeshError>)
    ensures
        r is Err <==> !subdivisions_ok(n),
        r matches Err(e) ==> Err::<(), MeshError>(e) == subdivisions_outcome(n),
        r matches Ok(v) ==> {
            &&& v@.len() == vertex_count(n as int)
            &&& forall|t: int|
                0 <= t < v@.len() ==> v@[t] == (GridPoint {
                    col: (t % (n + 1)) as u32,
                    row: (t / (n + 1)) as u32,
                })
        },
{
    match check_subdivisions(n) {
        Err(e) => {
            return Err(e);
        },
        Ok(()) => {},
    }
    let w: u32 = n + 1;
    assert((w as int) * (w as int) <= 16385 * 16385) by (nonlinear_arith)
        requires
            w <= 16385,
    ;
    let total: u32 = w * w;
    let mut v: Vec<GridPoint> = Vec::new();
    let mut t: u32 = 0;
    while t < total
        invariant
            w == n + 1,
            total == vertex_count(n as int),
            t <= total,
            v@.len() == t,
            forall|s: int|
                0 <= s < t ==> v@[s] == (GridPoint {
                    col: (s % (n + 1)) as u32,
                    row: (s / (n + 1)) as u32,
                }),
        decreases total - t,
    {
        v.push(GridPoint { col: t % w, row: t / w });
        t = t + 1;
    }
    Ok(v)
}

proof fn lemma_cell_in_grid(n: int, q: int)
    requires
        1 <= n,
        0 <= q < n * n,
    ensures
        0 <= q / n < n,
        0 <= q % n < n,
        0 <= grid_vertex(n, q / n, q % n),
        grid_vertex(n, q / n, q % n) + n + 2 < vertex_count(n),
{
    let row = q / n;
    let col = q % n;
    assert(q == n * row + col && 0 <= col < n) by (nonlinear_arith)
        requires
            1 <= n,
            row == q / n,
            col == q % n,
    ;
    assert(0 <= row < n) by (nonlinear_arith)
        requires
            1 <= n,
            0 <= q < n * n,
            q == n * row + col,
            0 <= col < n,
    ;
    assert(0 <= row * (n + 1) + col && row * (n + 1) + col + n + 2 < (n + 1) * (n + 1))
        by (nonlinear_arith)
        requires
            1 <= n,
            0 <= row < n,
            0 <= col < n,
    ;
}

/// The triangle indices of a face of `n` subdivisions: six for each grid
/// cell, `2 n²` triangles in all, cells taken row by row.
pub fn face_indices(n: u32) -> (r: Result<Vec<u32>, MeshError>)
    ensures
        r is Err <==> !subdivisions_ok(n),
        r matches Err(e) ==> Err::<(), MeshError>(e) == subdivisions_outcome(n),
        r matches Ok(v) ==> {
            &&& v@.len() == 6 * n * n
            &&& forall|t: int| 0 <= t < v@.len() ==> v@[t] == cell_corner(n as int, t / 6, t % 6)
            &&& forall|t: int| 0 <= t < v@.len() ==> v@[t] < vertex_count(n as int)
        },
{
    match check_subdivisions(n) {
        Err(e) => {
            return Err(e);
        },
        Ok(()) => {},
    }
    assert((n as int) * (n as int) <= 16384 * 16384) by (nonlinear_arith)
        requires
            n <= 16384,
    ;
    let cells: u32 = n * n;
    let mut v: Vec<u32> = Vec::new();
    let mut q: u32 = 0;
    while q < cells
        invariant
            1 <= n <= MAX_SUBDIVISIONS,
            cells == n * n,
            q <= cells,
            v@.len() == 6 * q,
            forall|t: int| 0 <= t < v@.len() ==> v@[t] == cell_corner(n as int, t / 6, t % 6),
            forall|t: int| 0 <= t < v@.len() ==> v@[t] < vertex_count(n as int),
        decreases cells - q,
    {
        proof {
            lemma_cell_in_grid(n as int, q as int);
            assert((n as int + 1) * (n as int + 1) <= 16385 * 16385) by (nonlinear_arith)
                requires
                    n <= 16384,
            ;
            assert((q / n) as int * (n as int + 1) + (q % n) as int == grid_vertex(
                n as int,
                q as int / n as int,
                q as int % n as int,
            ));
        }
        let row: u32 = q / n;
        let col: u32 = q % n;
        let a: u32 = row * (n + 1) + col;
        let b: u32 = a + 1;
        let c: u32 = a + n + 1;
        let d: u32 = c + 1;
        let ghost v0 = v@;
        v.push(a);
        v.push(c);
        v.push(b);
        v.push(b);
        v.push(c);
        v.push(d);
        proof {
            assert forall|t: int| 0 <= t < v@.len() implies v@[t] == cell_corner(
                n as int,
                t / 6,
                t % 6,
            ) && v@[t] < vertex_count(n as int) by {
                if t < v0.len() {
                    assert(v@[t] == v0[t]);
                } else {
                    assert(t / 6 == q as int);
                    assert(t % 6 == t - 6 * q);
                }
            }
        }
        q = q + 1;
    }
    assert(6 * (n * n) == 6 * n * n) by (nonlinear_arith);
    Ok(v)
}

/// How many indices a face of `n` subdivisions draws: `6 n²`.
pub fn face_index_count(n: u32) -> (r: Result<i32, MeshError>)
    ensures
        r is Err <==> !subdivisions_ok(n),
        r matches Err(e) ==> Err::<(), MeshError>(e) == subdivisions_outcome(n),
        r matches Ok(c) ==> c == 6 * n * n,
{
    match check_subdivisions(n) {
        Err(e) => {
            return Err(e);
        },
        Ok(()) => {},
    }
    assert(6 * (n as int) * (n as int) <= 6 * 16384 * 16384) by (nonlinear_arith)
        requires
            n <= 16384,
    ;
    let m: i32 = n as i32;
    Ok(6 * m * m)
}

} // verus!
