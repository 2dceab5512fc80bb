//! Procedural topology of the two meshes: the cloth, a regular grid, and the
//! sphere, a latitude/longitude tessellation. Each mesh is its vertices'
//! places on an integer lattice plus a triangle index list; turning lattice
//! places into world positions is left to the caller.
use crate::grid::GridCoord;
use vstd::prelude::*;

verus! {

/// Why a topology request was rejected.
#[derive(Clone, Copy, Debug, PartialEq, Eq, Structural)]
pub enum TopologyError {
    /// A grid side below 2, or a sector or stack count below 1.
    TooSmall,
    /// More vertices than a `u32` index can address.
    TooLarge,
}

/// A mesh: where each vertex sits on its lattice, and the triangle list as
/// indices into the vertices, three per triangle.
pub struct Mesh {
    pub coords: Vec<GridCoord>,
    pub indices: Vec<u32>,
}

/// The largest vertex count a mesh may have, so that the count and every
/// index fit in a `u32`.
pub open spec fn max_vertices() -> int {
    u32::MAX as int
}

/// The integers that a sequence of indices holds.
pub open spec fn ints(s: Seq<u32>) -> Seq<int> {
    s.map_values(|x: u32| x as int)
}

/// `coords` lists the places of a row-major lattice `cols` wide and `rows`
/// high: vertex `n` sits at column `n % cols` of row `n / cols`.
pub open spec fn is_lattice(coords: Seq<GridCoord>, cols: int, rows: int) -> bool {
    &&& coords.len() == cols * rows
    &&& forall|n: int|
        0 <= n < coords.len() ==> (#[trigger] coords[n]).col == n % cols && coords[n].row == n
            / cols
}

/// Every index addresses one of `count` vertices.
pub open spec fn indices_below(s: Seq<int>, count: int) -> bool {
    forall|n: int| 0 <= n < s.len() ==> 0 <= #[trigger] s[n] < count
}

/// The two triangles of the cloth cell whose top-left corner is `(j, i)`:
/// top-left, bottom-left, top-right, then bottom-left, bottom-right,
/// top-right. Row `i + 1` lies further along +Z than row `i`, so both turn
/// counter-clockwise seen from +Y.
pub open spec fn cloth_cell(width: int, i: int, j: int) -> Seq<int> {
    let top_left = i * width + j;
    let bottom_left = (i + 1) * width + j;
    seq![top_left, bottom_left, top_left + 1, bottom_left, bottom_left + 1, top_left + 1]
}

/// Entry `n` of the cloth index list: cells come in row-major order, six
/// entries each, so entry `n` is corner `n % 6` of cell `n / 6`, which is
/// cell `(n / 6) % (width − 1)` of row `(n / 6) / (width − 1)`.
pub open spec fn cloth_entry(width: int, n: int) -> int {
    let cell = n / 6;
    cloth_cell(width, cell / (width - 1), cell % (width - 1))[n % 6]
}

/// The entries of the first `cells` cells of the cloth index list.
pub open spec fn cloth_prefix(width: int, cells: int) -> Seq<int> {
    Seq::new((6 * cells) as nat, |n: int| cloth_entry(width, n))
}

/// The triangle index list of a `width × height` cloth grid: its
/// `(width−1)·(height−1)` cells in row-major order, two triangles each.
pub open spec fn cloth_indices(width: int, height: int) -> Seq<int> {
    cloth_prefix(width, (width - 1) * (height - 1))
}

/// A cloth grid with both sides at least 2 has `6·(width−1)·(height−1)`
/// triangle indices, each below the vertex count `width·height`.
pub proof fn lemma_cloth_indices(width: int, height: int)
    requires
        width >= 2,
        height >= 2,
    ensures
        cloth_indices(width, height).len() == 6 * (width - 1) * (height - 1),
        indices_below(cloth_indices(width, height), width * height),
{
    let s = cloth_indices(width, height);
    assert(6 * ((width - 1) * (height - 1)) == 6 * (width - 1) * (height - 1)) by (nonlinear_arith);
    assert forall|n: int| 0 <= n < s.len() implies 0 <= #[trigger] s[n] < width * height by {
        let cell = n / 6;
        let i = cell / (width - 1);
        let j = cell % (width - 1);
        vstd::arithmetic::div_mod::lemma_fundamental_div_mod(cell, width - 1);
        assert(0 <= cell < (width - 1) * (height - 1));
        assert(0 <= j < width - 1);
        assert(0 <= i < height - 1) by (nonlinear_arith)
            requires
                cell == (width - 1) * i + j,
                0 <= j < width - 1,
                0 <= cell < (width - 1) * (height - 1),
                width >= 2,
        ;
        assert(0 <= i * width + j && (i + 1) * width + j + 1 < width * height) by (nonlinear_arith)
            requires
                0 <= i < height - 1,
                0 <= j < width - 1,
                width >= 2,
        ;
        assert((i + 1) * width == i * width + width) by (nonlinear_arith);
        assert(s[n] == cloth_cell(width, i, j)[n % 6]);
    }
}

/// The Y component of `(b − a) × (c − a)` for the lattice places of the
/// vertices `a`, `b`, `c` of a grid `width` wide, placed at `(col, 0, row)`:
/// positive when the triangle turns counter-clockwise seen from +Y.
pub open spec fn lattice_normal_y(width: int, a: int, b: int, c: int) -> int {
    let (ax, az) = (a % width, a / width);
    let (bx, bz) = (b % width, b / width);
    let (cx, cz) = (c % width, c / width);
    (bz - az) * (cx - ax) - (bx - ax) * (cz - az)
}

proof fn lemma_place(width: int, i: int, j: int)
    requires
        width >= 2,
        i >= 0,
        0 <= j < width,
    ensures
        (i * width + j) % width == j,
        (i * width + j) / width == i,
{
    vstd::arithmetic::div_mod::lemma_fundamental_div_mod_converse(i * width + j, width, i, j);
}

/// Every triangle `t` of a cloth grid turns counter-clockwise seen from +Y,
/// with columns along +X and rows along +Z, so back-face culling keeps the
/// cloth's upper side.
pub proof fn lemma_cloth_winding(width: int, height: int, t: int)
    requires
        width >= 2,
        height >= 2,
        0 <= t < 2 * (width - 1) * (height - 1),
    ensures
        lattice_normal_y(
            width,
            cloth_indices(width, height)[3 * t],
            cloth_indices(width, height)[3 * t + 1],
            cloth_indices(width, height)[3 * t + 2],
        ) > 0,
{
    let s = cloth_indices(width, height);
    let cell = t / 2;
    let half = t % 2;
    vstd::arithmetic::div_mod::lemma_fundamental_div_mod(t, 2);
    assert(3 * t + 2 < 6 * ((width - 1) * (height - 1))) by (nonlinear_arith)
        requires
            0 <= t < 2 * (width - 1) * (height - 1),
    ;
    let i = cell / (width - 1);
    let j = cell % (width - 1);
    vstd::arithmetic::div_mod::lemma_fundamental_div_mod(cell, width - 1);
    assert(0 <= cell);
    assert(i >= 0) by (nonlinear_arith)
        requires
            cell == (width - 1) * i + j,
            0 <= j < width - 1,
            0 <= cell,
            width >= 2,
    ;
    assert forall|k: int| 0 <= k < 3 implies #[trigger] s[3 * t + k] == cloth_cell(width, i, j)[3
        * half + k] by {
        vstd::arithmetic::div_mod::lemma_fundamental_div_mod_converse(
            3 * t + k,
            6,
            cell,
            3 * half + k,
        );
    }
    lemma_place(width, i, j);
    lemma_place(width, i, j + 1);
    lemma_place(width, i + 1, j);
    lemma_place(width, i + 1, j + 1);
    assert((i + 1) * width == i * width + width) by (nonlinear_arith);
    let a = s[3 * t];
    let b = s[3 * t + 1];
    let c = s[3 * t + 2];
    if half == 0 {
        assert(a == i * width + j && b == (i + 1) * width + j && c == i * width + j + 1);
        assert(lattice_normal_y(width, a, b, c) == 1) by (nonlinear_arith)
            requires
                a % width == j,
                a / width == i,
                b % width == j,
                b / width == i + 1,
                c % width == j + 1,
                c / width == i,
                lattice_normal_y(width, a, b, c) == (b / width - a / width) * (c % width - a
                    % width) - (b % width - a % width) * (c / width - a / width),
        ;
    } else {
        assert(a == (i + 1) * width + j && b == (i + 1) * width + j + 1 && c == i * width + j
            + 1);
        assert(lattice_normal_y(width, a, b, c) == 1) by (nonlinear_arith)
            requires
                a % width == j,
                a / width == i + 1,
                b % width == j + 1,
                b / width == i + 1,
                c % width == j + 1,
                c / width == i,
                lattice_normal_y(width, a, b, c) == (b / width - a / width) * (c % width - a
                    % width) - (b % width - a % width) * (c / width - a / width),
        ;
    }
}

/// The lattice of a `cols × rows` mesh, in row-major order.
fn lattice(cols: usize, rows: usize) -> (r: Vec<GridCoord>)
    requires
        cols > 0,
        cols * rows <= usize::MAX,
    ensures
        is_lattice(r@, cols as int, rows as int),
{
    let mut coords: Vec<GridCoord> = Vec::new();
    let mut i: usize = 0;
    while i < rows
        invariant
            cols > 0,
            i <= rows,
            coords@.len() == i * cols,
            forall|n: int|
                0 <= n < coords@.len() ==> (#[trigger] coords@[n]).col == n % (cols as int)
                    && coords@[n].row == n / (cols as int),
        decreases rows - i,
    {
        let mut j: usize = 0;
        while j < cols
            invariant
                cols > 0,
                i < rows,
                j <= cols,
                coords@.len() == i * cols + j,
                forall|n: int|
                    0 <= n < coords@.len() ==> (#[trigger] coords@[n]).col == n % (cols as int)
                        && coords@[n].row == n / (cols as int),
            decreases cols - j,
        {
            proof {
                vstd::arithmetic::div_mod::lemma_fundamental_div_mod_converse(
                    (i * cols + j) as int,
                    cols as int,
                    i as int,
                    j as int,
                );
            }
            coords.push(GridCoord { col: j, row: i });
            j = j + 1;
        }
        assert((i + 1) * cols == i * cols + cols) by (nonlinear_arith);
        i = i + 1;
    }
    assert(coords@.len() == cols * rows) by (nonlinear_arith)
        requires
            coords@.len() == i * cols,
            i == rows,
    ;
    coords
}

/// Whether a `cols × rows` lattice has more vertices than `max_vertices`,
/// decided without overflow.
fn exceeds_max_vertices(cols: usize, rows: usize) -> (r: bool)
    requires
        cols >= 2,
        rows >= 2,
    ensures
        r == (cols * rows > max_vertices()),
{
    if cols > u32::MAX as usize || rows > u32::MAX as usize {
        assert(cols * rows > max_vertices()) by (nonlinear_arith)
            requires
                cols > u32::MAX || rows > u32::MAX,
                cols >= 2,
                rows >= 2,
        ;
        true
    } else {
        assert(cols as u64 * rows as u64 <= u64::MAX) by (nonlinear_arith)
            requires
                cols <= u32::MAX,
                rows <= u32::MAX,
        ;
        (cols as u64) * (rows as u64) > u32::MAX as u64
    }
}

/// Generates the cloth topology: a `width × height` lattice, vertex
/// `row·width + col` at `(col, row)`, and two triangles for each grid cell.
/// Fails with `TooSmall` when a side is below 2 and with `TooLarge` when
/// `width·height` exceeds `max_vertices`.
pub fn generate_cloth(width: usize, height: usize) -> (r: Result<Mesh, TopologyError>)
    ensures
        (width < 2 || height < 2) <==> r == Err::<Mesh, TopologyError>(TopologyError::TooSmall),
        (width >= 2 && height >= 2 && width * height > max_vertices()) <==> r == Err::<
            Mesh,
            TopologyError,
        >(TopologyError::TooLarge),
        (width >= 2 && height >= 2 && width * height <= max_vertices()) <==> r is Ok,
        r is Ok ==> is_lattice(r->Ok_0.coords@, width as int, height as int) && ints(
            r->Ok_0.indices@,
        ) == cloth_indices(width as int, height as int),
        r is Ok ==> r->Ok_0.indices@.len() == 6 * (width - 1) * (height - 1) && indices_below(
            ints(r->Ok_0.indices@),
            width * height,
        ),
{
    if width < 2 || height < 2 {
        return Err(TopologyError::TooSmall);
    }
    if exceeds_max_vertices(width, height) {
        return Err(TopologyError::TooLarge);
    }
    let coords = lattice(width, height);
    let mut indices: Vec<u32> = Vec::new();
    let mut i: usize = 0;
    while i < height - 1
        invariant
            2 <= width,
            2 <= height,
            width * height <= max_vertices(),
            i <= height - 1,
            ints(indices@) == cloth_prefix(width as int, i * (width - 1)),
        decreases height - 1 - i,
    {
        let mut j: usize = 0;
        while j < width - 1
            invariant
                2 <= width,
                2 <= height,
                width * height <= max_vertices(),
                i < height - 1,
                j <= width - 1,
                ints(indices@) == cloth_prefix(width as int, i * (width - 1) + j),
            decreases width - 1 - j,
        {
            let ghost cell = i * (width - 1) + j;
            proof {
                assert((i + 1) * width + j + 1 < width * height) by (nonlinear_arith)
                    requires
                        i + 1 <= height - 1,
                        j + 1 <= width - 1,
                ;
                assert(i * width <= (i + 1) * width) by (nonlinear_arith);
            }
            let top_left = i * width + j;
            let bottom_left = (i + 1) * width + j;
            let ghost before = indices@;
            indices.push(top_left as u32);
            indices.push(bottom_left as u32);
            indices.push((top_left + 1) as u32);
            indices.push(bottom_left as u32);
            indices.push((bottom_left + 1) as u32);
            indices.push((top_left + 1) as u32);
            proof {
                assert forall|k: int| 0 <= k < 6 implies cloth_entry(width as int, 6 * cell + k)
                    == #[trigger] cloth_cell(width as int, i as int, j as int)[k] by {
                    vstd::arithmetic::div_mod::lemma_fundamental_div_mod_converse(
                        6 * cell + k,
                        6,
                        cell,
                        k,
                    );
                    vstd::arithmetic::div_mod::lemma_fundamental_div_mod_converse(
                        cell,
                        (width - 1) as int,
                        i as int,
                        j as int,
                    );
                }
                let cell_seq = cloth_cell(width as int, i as int, j as int);
                assert(ints(indices@) =~= ints(before) + cell_seq);
                assert(ints(before).len() == 6 * cell);
                assert(ints(before) + cell_seq =~= cloth_prefix(width as int, cell + 1)) by {
                    assert forall|n: int| 0 <= n < 6 * (cell + 1) implies #[trigger] (ints(before)
                        + cell_seq)[n] == cloth_entry(width as int, n) by {
                        if n < 6 * cell {
                            assert(ints(before)[n] == cloth_prefix(width as int, cell)[n]);
                        } else {
                            let k = n - 6 * cell;
                            assert(cloth_entry(width as int, 6 * cell + k) == cell_seq[k]);
                        }
                    }
                }
            }
            j = j + 1;
        }
        assert((i + 1) * (width - 1) == i * (width - 1) + (width - 1)) by (nonlinear_arith);
        i = i + 1;
    }
    assert(cloth_prefix(width as int, i * (width - 1)) == cloth_indices(width as int, height as int))
        by {
        assert(i * (width - 1) == (width - 1) * (height - 1)) by (nonlinear_arith)
            requires
                i == height - 1,
        ;
    }
    proof {
        lemma_cloth_indices(width as int, height as int);
    }
    Ok(Mesh { coords, indices })
}

/// The triangles of the sphere cell between stacks `i` and `i + 1` and
/// sectors `j` and `j + 1`. The cells touching a pole give one triangle
/// each, the others two.
pub open spec fn sphere_cell(sectors: int, stacks: int, i: int, j: int) -> Seq<int> {
    let k1 = i * (sectors + 1) + j;
    let k2 = k1 + sectors + 1;
    let upper: Seq<int> = if i != 0 {
        seq![k1, k2, k1 + 1]
    } else {
        seq![]
    };
    let lower: Seq<int> = if i != stacks - 1 {
        seq![k1 + 1, k2, k2 + 1]
    } else {
        seq![]
    };
    upper + lower
}

/// The triangles of the first `j` cells of sphere band `i`.
pub open spec fn sphere_band(sectors: int, stacks: int, i: int, j: int) -> Seq<int>
    decreases j,
{
    if j <= 0 {
        seq![]
    } else {
        sphere_band(sectors, stacks, i, j - 1) + sphere_cell(sectors, stacks, i, j - 1)
    }
}

/// The triangles of the first `i` bands of a sphere.
pub open spec fn sphere_bands(sectors: int, stacks: int, i: int) -> Seq<int>
    decreases i,
{
    if i <= 0 {
        seq![]
    } else {
        sphere_bands(sectors, stacks, i - 1) + sphere_band(sectors, stacks, i - 1, sectors)
    }
}

/// The triangle index list of a sphere of `stacks` bands and `sectors`
/// sectors, band by band from the pole at +Z.
pub open spec fn sphere_indices(sectors: int, stacks: int) -> Seq<int> {
    sphere_bands(sectors, stacks, stacks)
}

/// How many indices band `i` of a sphere gives for each of its cells.
pub open spec fn sphere_cell_len(stacks: int, i: int) -> int {
    (if i != 0 {
        3int
    } else {
        0int
    }) + (if i != stacks - 1 {
        3int
    } else {
        0int
    })
}

proof fn lemma_sphere_band(sectors: int, stacks: int, i: int, j: int)
    requires
        sectors >= 1,
        0 <= i < stacks,
        0 <= j <= sectors,
    ensures
        sphere_band(sectors, stacks, i, j).len() == j * sphere_cell_len(stacks, i),
        indices_below(sphere_band(sectors, stacks, i, j), (sectors + 1) * (stacks + 1)),
    decreases j,
{
    if j > 0 {
        lemma_sphere_band(sectors, stacks, i, j - 1);
        let prev = sphere_band(sectors, stacks, i, j - 1);
        let cell = sphere_cell(sectors, stacks, i, j - 1);
        assert((j - 1) * sphere_cell_len(stacks, i) + sphere_cell_len(stacks, i) == j
            * sphere_cell_len(stacks, i)) by (nonlinear_arith);
        assert(i * (sectors + 1) + (j - 1) + sectors + 1 + 1 < (sectors + 1) * (stacks + 1))
            by (nonlinear_arith)
            requires
                i + 1 <= stacks,
                j <= sectors,
                i >= 0,
                sectors >= 1,
        ;
        assert(0 <= i * (sectors + 1)) by (nonlinear_arith)
            requires
                i >= 0,
                sectors >= 1,
        ;
        assert forall|n: int| 0 <= n < (prev + cell).len() implies 0 <= #[trigger] (prev
            + cell)[n] < (sectors + 1) * (stacks + 1) by {
            if n >= prev.len() {
                assert((prev + cell)[n] == cell[n - prev.len()]);
            }
        }
    } else {
        assert(j * sphere_cell_len(stacks, i) == 0) by (nonlinear_arith)
            requires
                j == 0,
        ;
    }
}

proof fn lemma_sphere_bands(sectors: int, stacks: int, i: int)
    requires
        sectors >= 1,
        stacks >= 1,
        0 <= i <= stacks,
    ensures
        sphere_bands(sectors, stacks, i).len() == 3 * sectors * (2 * i - (if i > 0 {
            1int
        } else {
            0int
        }) - (if i == stacks {
            1int
        } else {
            0int
        })),
        indices_below(sphere_bands(sectors, stacks, i), (sectors + 1) * (stacks + 1)),
    decreases i,
{
    if i > 0 {
        lemma_sphere_bands(sectors, stacks, i - 1);
        lemma_sphere_band(sectors, stacks, i - 1, sectors);
        let prev = sphere_bands(sectors, stacks, i - 1);
        let band = sphere_band(sectors, stacks, i - 1, sectors);
        assert(prev.len() + band.len() == 3 * sectors * (2 * i - (if i > 0 {
            1int
        } else {
            0int
        }) - (if i == stacks {
            1int
        } else {
            0int
        }))) by (nonlinear_arith)
            requires
                prev.len() == 3 * sectors * (2 * (i - 1) - (if i - 1 > 0 {
                    1int
                } else {
                    0int
                }) - (if i - 1 == stacks {
                    1int
                } else {
                    0int
                })),
                band.len() == sectors * sphere_cell_len(stacks, i - 1),
                i >= 1,
                i <= stacks,
        ;
        assert forall|n: int| 0 <= n < (prev + band).len() implies 0 <= #[trigger] (prev
            + band)[n] < (sectors + 1) * (stacks + 1) by {
            if n >= prev.len() {
                assert((prev + band)[n] == band[n - prev.len()]);
            }
        }
    } else {
        assert(3 * sectors * 0 == 0) by (nonlinear_arith);
    }
}

/// A sphere of `stacks ≥ 1` bands and `sectors ≥ 1` sectors has
/// `6·sectors·(stacks−1)` triangle indices (none when a single band holds
/// both poles), each below the vertex count `(sectors+1)·(stacks+1)`.
pub proof fn lemma_sphere_indices(sectors: int, stacks: int)
    requires
        sectors >= 1,
        stacks >= 1,
    ensures
        sphere_indices(sectors, stacks).len() == 6 * sectors * (stacks - 1),
        indices_below(sphere_indices(sectors, stacks), (sectors + 1) * (stacks + 1)),
{
    lemma_sphere_bands(sectors, stacks, stacks);
    assert(3 * sectors * (2 * stacks - 1 - 1) == 6 * sectors * (stacks - 1)) by (nonlinear_arith);
}

/// Generates the sphere topology: `stacks + 1` rings of `sectors + 1`
/// vertices each (the first and last vertex of a ring share a place on the
/// sphere), vertex `i·(sectors+1) + j` at `(j, i)`, and the triangles
/// between neighbouring rings. Fails with `TooSmall` when `sectors` or
/// `stacks` is 0 and with `TooLarge` when the vertex count exceeds
/// `max_vertices`.
pub fn generate_sphere(sectors: usize, stacks: usize) -> (r: Result<Mesh, TopologyError>)
    ensures
        (sectors < 1 || stacks < 1) <==> r == Err::<Mesh, TopologyError>(TopologyError::TooSmall),
        (sectors >= 1 && stacks >= 1 && (sectors + 1) * (stacks + 1) > max_vertices()) <==> r
            == Err::<Mesh, TopologyError>(TopologyError::TooLarge),
        (sectors >= 1 && stacks >= 1 && (sectors + 1) * (stacks + 1) <= max_vertices()) <==> r is Ok,
        r is Ok ==> is_lattice(r->Ok_0.coords@, sectors + 1, stacks + 1) && ints(
            r->Ok_0.indices@,
        ) == sphere_indices(sectors as int, stacks as int),
        r is Ok ==> r->Ok_0.indices@.len() == 6 * sectors * (stacks - 1) && indices_below(
            ints(r->Ok_0.indices@),
            (sectors + 1) * (stacks + 1),
        ),
{
    if sectors < 1 || stacks < 1 {
        return Err(TopologyError::TooSmall);
    }
    if sectors >= u32::MAX as usize || stacks >= u32::MAX as usize {
        assert((sectors + 1) * (stacks + 1) > max_vertices()) by (nonlinear_arith)
            requires
                sectors >= u32::MAX || stacks >= u32::MAX,
                sectors >= 1,
                stacks >= 1,
        ;
        return Err(TopologyError::TooLarge);
    }
    let cols = sectors + 1;
    if exceeds_max_vertices(cols, stacks + 1) {
        return Err(TopologyError::TooLarge);
    }
    let coords = lattice(cols, stacks + 1);
    let mut indices: Vec<u32> = Vec::new();
    let mut i: usize = 0;
    while i < stacks
        invariant
            1 <= sectors < u32::MAX,
            1 <= stacks < u32::MAX,
            cols == sectors + 1,
            cols * (stacks + 1) <= max_vertices(),
            i <= stacks,
            ints(indices@) == sphere_bands(sectors as int, stacks as int, i as int),
        decreases stacks - i,
    {
        let mut j: usize = 0;
        while j < sectors
            invariant
                1 <= sectors < u32::MAX,
                1 <= stacks < u32::MAX,
                cols == sectors + 1,
                cols * (stacks + 1) <= max_vertices(),
                i < stacks,
                j <= sectors,
                ints(indices@) == sphere_bands(sectors as int, stacks as int, i as int)
                    + sphere_band(sectors as int, stacks as int, i as int, j as int),
            decreases sectors - j,
        {
            proof {
                assert(i * cols + j + cols + 1 < cols * (stacks + 1)) by (nonlinear_arith)
                    requires
                        i + 1 <= stacks,
                        j + 1 <= sectors,
                        cols == sectors + 1,
                ;
                assert(0 <= i * cols) by (nonlinear_arith)
                    requires
                        cols >= 1,
                ;
            }
            let k1 = i * cols + j;
            let k2 = k1 + cols;
            let ghost before = indices@;
            if i != 0 {
                indices.push(k1 as u32);
                indices.push(k2 as u32);
                indices.push((k1 + 1) as u32);
            }
            if i != stacks - 1 {
                indices.push((k1 + 1) as u32);
                indices.push(k2 as u32);
                indices.push((k2 + 1) as u32);
            }
            proof {
                assert(ints(indices@) =~= ints(before) + sphere_cell(
                    sectors as int,
                    stacks as int,
                    i as int,
                    j as int,
                ));
                assert(sphere_band(sectors as int, stacks as int, i as int, j + 1) == sphere_band(
                    sectors as int,
                    stacks as int,
                    i as int,
                    j as int,
                ) + sphere_cell(sectors as int, stacks as int, i as int, j as int));
                assert(ints(indices@) =~= sphere_bands(sectors as int, stacks as int, i as int)
                    + sphere_band(sectors as int, stacks as int, i as int, j + 1));
            }
            j = j + 1;
        }
        proof {
            assert(sphere_bands(sectors as int, stacks as int, i + 1) == sphere_bands(
                sectors as int,
                stacks as int,
                i as int,
            ) + sphere_band(sectors as int, stacks as int, i as int, sectors as int));
        }
        i = i + 1;
    }
    proof {
        lemma_sphere_indices(sectors as int, stacks as int);
        assert((sectors + 1) * (stacks + 1) == cols * (stacks + 1));
    }
    Ok(Mesh { coords, indices })
}

} // verus!
