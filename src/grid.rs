//! The cloth grid: decoding a flat vertex index into grid coordinates and
//! enumerating the neighbours of each spring family.
use vstd::prelude::*;

verus! {

/// A vertex's place in a row-major lattice: `col` runs along a row, `row`
/// counts rows.
#[derive(Clone, Copy, Debug, PartialEq, Eq, Structural)]
pub struct GridCoord {
    pub col: usize,
    pub row: usize,
}

/// The three kinds of spring that connect a cloth vertex to its neighbours
/// (`Stretch` is the structural family).
#[derive(Clone, Copy, Debug, PartialEq, Eq, Structural)]
pub enum SpringFamily {
    /// Horizontal and vertical neighbours, one cell away.
    Stretch,
    /// Diagonal neighbours.
    Shear,
    /// Horizontal and vertical neighbours, two cells away.
    Bend,
}

/// The neighbour offsets `(column, row)` of a spring family, in the order in
/// which they are enumerated.
pub open spec fn family_offsets(family: SpringFamily) -> Seq<(int, int)> {
    match family {
        SpringFamily::Stretch => seq![(1, 0), (-1, 0), (0, 1), (0, -1)],
        SpringFamily::Shear => seq![(1, 1), (1, -1), (-1, 1), (-1, -1)],
        SpringFamily::Bend => seq![(2, 0), (-2, 0), (0, 2), (0, -2)],
    }
}

/// Whether `(col, row)` lies on a `width × height` grid.
pub open spec fn in_grid(col: int, row: int, width: int, height: int) -> bool {
    0 <= col < width && 0 <= row < height
}

/// The flat row-major index of `(col, row)` on a grid `width` wide.
pub open spec fn flat_index(col: int, row: int, width: int) -> int {
    row * width + col
}

/// Flat indices of the neighbours of `(col, row)` reached by the offsets
/// `offs` that stay on the grid, in the order of `offs`.
pub open spec fn neighbors_among(
    col: int,
    row: int,
    width: int,
    height: int,
    offs: Seq<(int, int)>,
) -> Seq<int>
    decreases offs.len(),
{
    if offs.len() == 0 {
        seq![]
    } else {
        let rest = neighbors_among(col, row, width, height, offs.drop_last());
        let o = offs.last();
        if in_grid(col + o.0, row + o.1, width, height) {
            rest.push(flat_index(col + o.0, row + o.1, width))
        } else {
            rest
        }
    }
}

/// Flat indices of the neighbours of `(col, row)` in one spring family.
pub open spec fn spring_neighbors_spec(
    col: int,
    row: int,
    width: int,
    height: int,
    family: SpringFamily,
) -> Seq<int> {
    neighbors_among(col, row, width, height, family_offsets(family))
}

/// Decodes the flat row-major index of a vertex into its grid coordinates.
pub fn grid_coord(index: usize, width: usize) -> (r: GridCoord)
    requires
        width > 0,
    ensures
        r.col == index % width,
        r.row == index / width,
{
    GridCoord { col: index % width, row: index / width }
}

/// The `k`-th neighbour offset of a spring family.
fn family_offset(family: SpringFamily, k: usize) -> (r: (i64, i64))
    requires
        k < 4,
    ensures
        (r.0 as int, r.1 as int) == family_offsets(family)[k as int],
{
    let r: (i64, i64) = match family {
        SpringFamily::Stretch => {
            if k == 0 {
                (1, 0)
            } else if k == 1 {
                (-1, 0)
            } else if k == 2 {
                (0, 1)
            } else {
                (0, -1)
            }
        },
        SpringFamily::Shear => {
            if k == 0 {
                (1, 1)
            } else if k == 1 {
                (1, -1)
            } else if k == 2 {
                (-1, 1)
            } else {
                (-1, -1)
            }
        },
        SpringFamily::Bend => {
            if k == 0 {
                (2, 0)
            } else if k == 1 {
                (-2, 0)
            } else if k == 2 {
                (0, 2)
            } else {
                (0, -2)
            }
        },
    };
    r
}

/// Flat indices of the vertices that the vertex at `index` is tied to by
/// springs of `family` on a `width × height` grid. Offsets that leave the
/// grid contribute nothing, so edge and corner vertices have fewer
/// neighbours.
pub fn spring_neighbors(index: usize, width: usize, height: usize, family: SpringFamily) -> (r: Vec<
    usize,
>)
    requires
        width > 0,
        index < width * height,
        width * height <= usize::MAX,
    ensures
        r@.len() == spring_neighbors_spec(
            (index % width) as int,
            (index / width) as int,
            width as int,
            height as int,
            family,
        ).len(),
        forall|i: int|
            0 <= i < r@.len() ==> r@[i] as int == #[trigger] spring_neighbors_spec(
                (index % width) as int,
                (index / width) as int,
                width as int,
                height as int,
                family,
            )[i],
{
    let c = grid_coord(index, width);
    let ghost col = c.col as int;
    let ghost row = c.row as int;
    let ghost offs = family_offsets(family);
    proof {
        assert(offs.len() == 4);
        assert(offs.take(0) =~= Seq::<(int, int)>::empty());
    }
    let mut out: Vec<usize> = Vec::new();
    let mut k: usize = 0;
    while k < 4
        invariant
            k <= 4,
            offs == family_offsets(family),
            offs.len() == 4,
            col == c.col,
            row == c.row,
            0 < width,
            c.col < width,
            index < width * height,
            width * height <= usize::MAX,
            out@.len() == neighbors_among(col, row, width as int, height as int, offs.take(
                k as int,
            )).len(),
            forall|i: int|
                0 <= i < out@.len() ==> out@[i] as int == #[trigger] neighbors_among(
                    col,
                    row,
                    width as int,
                    height as int,
                    offs.take(k as int),
                )[i],
        decreases 4 - k,
    {
        let (dc, dr) = family_offset(family, k);
        let nc: i128 = c.col as i128 + dc as i128;
        let nr: i128 = c.row as i128 + dr as i128;
        let ghost before = out@;
        proof {
            assert(offs.take(k as int + 1).drop_last() =~= offs.take(k as int));
            assert(offs.take(k as int + 1).last() == offs[k as int]);
        }
        if 0 <= nc && nc < width as i128 && 0 <= nr && nr < height as i128 {
            let ncu = nc as usize;
            let nru = nr as usize;
            proof {
                assert(nru * width + ncu < width * height) by (nonlinear_arith)
                    requires
                        nru < height,
                        ncu < width,
                ;
            }
            out.push(nru * width + ncu);
        }
        k = k + 1;
    }
    proof {
        assert(offs.take(4) =~= offs);
    }
    out
}

} // verus!
