//! The range strategy: scans a rectangular coordinate range clamped to the
//! grid, filtering by Manhattan distance for von Neumann queries. It never
//! wraps — there is no torus parameter by design — and always includes the
//! center, which survives every distance filter.

use crate::model::{
    cell_in_extent, iabs, lemma_concat_contains, lemma_singleton_contains, valid_query,
    NeighborhoodError,
};
use vstd::prelude::*;

verus! {

/// A scanned cell survives the distance filter.
pub open spec fn range_keep(x: int, y: int, nx: int, ny: int, moore: bool, radius: int) -> bool {
    moore || iabs(nx - x) + iabs(ny - y) <= radius
}

/// Lower clamp of the scan start against the grid edge.
pub open spec fn clamp_from(v: int) -> int {
    if v > 0 {
        v
    } else {
        0
    }
}

/// Upper clamp of the scan end against the grid extent.
pub open spec fn clamp_to(v: int, extent: int) -> int {
    if v < extent {
        v
    } else {
        extent
    }
}

/// The cells one scanned column contributes, for ny running from the given
/// value up to the clamped end.
pub open spec fn range_row_from(
    x: int,
    y: int,
    nx: int,
    ny: int,
    yto: int,
    moore: bool,
    radius: int,
) -> Seq<(i32, i32)>
    decreases yto - ny,
{
    if ny >= yto {
        Seq::empty()
    } else {
        let rest = range_row_from(x, y, nx, ny + 1, yto, moore, radius);
        if range_keep(x, y, nx, ny, moore, radius) {
            seq![(nx as i32, ny as i32)] + rest
        } else {
            rest
        }
    }
}

/// The cells all scanned columns from the given nx up to the clamped end
/// contribute.
pub open spec fn range_rows_from(
    x: int,
    y: int,
    nx: int,
    xto: int,
    yfrom: int,
    yto: int,
    moore: bool,
    radius: int,
) -> Seq<(i32, i32)>
    decreases xto - nx,
{
    if nx >= xto {
        Seq::empty()
    } else {
        range_row_from(x, y, nx, yfrom, yto, moore, radius) + range_rows_from(
            x,
            y,
            nx + 1,
            xto,
            yfrom,
            yto,
            moore,
            radius,
        )
    }
}

/// The exact sequence the range strategy returns.
pub open spec fn range_result(
    x: int,
    y: int,
    moore: bool,
    radius: int,
    width: int,
    height: int,
) -> Seq<(i32, i32)> {
    range_rows_from(
        x,
        y,
        clamp_from(x - radius),
        clamp_to(x + radius + 1, width),
        clamp_from(y - radius),
        clamp_to(y + radius + 1, height),
        moore,
        radius,
    )
}

/// A cell stands in a column suffix iff it is a surviving scanned cell at or
/// after the suffix start.
pub proof fn lemma_range_row_membership(
    x: int,
    y: int,
    nx: int,
    ny0: int,
    yto: int,
    moore: bool,
    radius: int,
    c: (i32, i32),
)
    ensures
        range_row_from(x, y, nx, ny0, yto, moore, radius).contains(c) <==> exists|ny: int|
            ny0 <= ny < yto && #[trigger] range_keep(x, y, nx, ny, moore, radius) && c == (
            nx as i32,
            ny as i32,
            ),
    decreases yto - ny0,
{
    let s = range_row_from(x, y, nx, ny0, yto, moore, radius);
    if ny0 >= yto {
    } else {
        lemma_range_row_membership(x, y, nx, ny0 + 1, yto, moore, radius, c);
        let rest = range_row_from(x, y, nx, ny0 + 1, yto, moore, radius);
        let cell0 = ((nx as i32, ny0 as i32));
        if range_keep(x, y, nx, ny0, moore, radius) {
            lemma_concat_contains(seq![cell0], rest, c);
            lemma_singleton_contains(cell0, c);
            if s.contains(c) && c != cell0 {
                let ny = choose|ny: int|
                    ny0 + 1 <= ny < yto && #[trigger] range_keep(x, y, nx, ny, moore, radius) && c
                        == (nx as i32, ny as i32);
                assert(ny0 <= ny);
            }
            if exists|ny: int|
                ny0 <= ny < yto && #[trigger] range_keep(x, y, nx, ny, moore, radius) && c == (
                nx as i32,
                ny as i32,
                ) {
                let ny = choose|ny: int|
                    ny0 <= ny < yto && #[trigger] range_keep(x, y, nx, ny, moore, radius) && c == (
                    nx as i32,
                    ny as i32,
                    );
                if ny == ny0 {
                    assert(s.contains(c));
                } else {
                    assert(rest.contains(c));
                }
            }
        } else {
            if s.contains(c) {
                let ny = choose|ny: int|
                    ny0 + 1 <= ny < yto && #[trigger] range_keep(x, y, nx, ny, moore, radius) && c
                        == (nx as i32, ny as i32);
                assert(ny0 <= ny);
            }
            if exists|ny: int|
                ny0 <= ny < yto && #[trigger] range_keep(x, y, nx, ny, moore, radius) && c == (
                nx as i32,
                ny as i32,
                ) {
                let ny = choose|ny: int|
                    ny0 <= ny < yto && #[trigger] range_keep(x, y, nx, ny, moore, radius) && c == (
                    nx as i32,
                    ny as i32,
                    );
                assert(ny != ny0);
                assert(rest.contains(c));
            }
        }
    }
}

/// A cell stands in a columns suffix iff it is a surviving scanned cell
/// whose nx is at or after the suffix start.
pub proof fn lemma_range_rows_membership(
    x: int,
    y: int,
    nx0: int,
    xto: int,
    yfrom: int,
    yto: int,
    moore: bool,
    radius: int,
    c: (i32, i32),
)
    ensures
        range_rows_from(x, y, nx0, xto, yfrom, yto, moore, radius).contains(c) <==> exists|
            nx: int,
            ny: int,
        |
            nx0 <= nx < xto && yfrom <= ny < yto && #[trigger] range_keep(x, y, nx, ny, moore, radius)
                && c == (nx as i32, ny as i32),
    decreases xto - nx0,
{
    let s = range_rows_from(x, y, nx0, xto, yfrom, yto, moore, radius);
    if nx0 >= xto {
    } else {
        lemma_range_rows_membership(x, y, nx0 + 1, xto, yfrom, yto, moore, radius, c);
        lemma_range_row_membership(x, y, nx0, yfrom, yto, moore, radius, c);
        let row = range_row_from(x, y, nx0, yfrom, yto, moore, radius);
        let rest = range_rows_from(x, y, nx0 + 1, xto, yfrom, yto, moore, radius);
        lemma_concat_contains(row, rest, c);
        if s.contains(c) {
            if row.contains(c) {
                let ny = choose|ny: int|
                    yfrom <= ny < yto && #[trigger] range_keep(x, y, nx0, ny, moore, radius) && c
                        == (nx0 as i32, ny as i32);
                assert(nx0 <= nx0 < xto && yfrom <= ny < yto && range_keep(x, y, nx0, ny, moore, radius)
                    && c == (nx0 as i32, ny as i32));
            } else {
                let (nx, ny) = choose|nx: int, ny: int|
                    nx0 + 1 <= nx < xto && yfrom <= ny < yto && #[trigger] range_keep(
                        x,
                        y,
                        nx,
                        ny,
                        moore,
                        radius,
                    ) && c == (nx as i32, ny as i32);
                assert(nx0 <= nx);
            }
        }
        if exists|nx: int, ny: int|
            nx0 <= nx < xto && yfrom <= ny < yto && #[trigger] range_keep(x, y, nx, ny, moore, radius)
                && c == (nx as i32, ny as i32) {
            let (nx, ny) = choose|nx: int, ny: int|
                nx0 <= nx < xto && yfrom <= ny < yto && #[trigger] range_keep(x, y, nx, ny, moore, radius)
                    && c == (nx as i32, ny as i32);
            if nx == nx0 {
                assert(row.contains(c));
            } else {
                assert(rest.contains(c));
            }
        }
    }
}

/// The range strategy: appends the surviving cells of the clamped scan in
/// nx-major, ny-minor order. There is no torus parameter and no center
/// parameter: the scan never wraps, and the center always survives the
/// distance filter. Rejects a negative radius or a non-positive extent.
#[verifier::loop_isolation(false)]
#[verifier::rlimit(60)]
pub fn get_neighborhood_clamped(
    pos: (i32, i32),
    moore: bool,
    radius: i32,
    width: i32,
    height: i32,
) -> (result: Result<Vec<(i32, i32)>, NeighborhoodError>)
    ensures
        result is Err <==> !valid_query(radius as int, width as int, height as int),
        result matches Err(e) ==> e == NeighborhoodError::InvalidArgument,
        result matches Ok(v) ==> {
            &&& v@ == range_result(
                pos.0 as int,
                pos.1 as int,
                moore,
                radius as int,
                width as int,
                height as int,
            )
            &&& forall|i: int| 0 <= i < v@.len() ==> cell_in_extent(#[trigger] v@[i], width, height)
        },
{
    if radius < 0 || width <= 0 || height <= 0 {
        return Err(NeighborhoodError::InvalidArgument);
    }
    let x = pos.0 as i64;
    let y = pos.1 as i64;
    let r = radius as i64;
    let w = width as i64;
    let h = height as i64;
    let ghost gx = pos.0 as int;
    let ghost gy = pos.1 as int;
    let ghost gr = radius as int;
    let xfrom: i64 = if x - r > 0 {
        x - r
    } else {
        0
    };
    let xto: i64 = if x + r + 1 < w {
        x + r + 1
    } else {
        w
    };
    let yfrom: i64 = if y - r > 0 {
        y - r
    } else {
        0
    };
    let yto: i64 = if y + r + 1 < h {
        y + r + 1
    } else {
        h
    };
    let ghost gxto = xto as int;
    let ghost gyfrom = yfrom as int;
    let ghost gyto = yto as int;
    let ghost full = range_result(gx, gy, moore, gr, width as int, height as int);
    let mut out: Vec<(i32, i32)> = Vec::new();
    let mut nx: i64 = xfrom;
    while nx < xto
        invariant
            xfrom <= nx <= if xfrom > xto {
                xfrom
            } else {
                xto
            },
            full == out@ + range_rows_from(gx, gy, nx as int, gxto, gyfrom, gyto, moore, gr),
            forall|i: int| 0 <= i < out@.len() ==> cell_in_extent(#[trigger] out@[i], width, height),
        decreases xto - nx,
    {
        let mut ny: i64 = yfrom;
        proof {
            assert(range_rows_from(gx, gy, nx as int, gxto, gyfrom, gyto, moore, gr)
                == range_row_from(gx, gy, nx as int, gyfrom, gyto, moore, gr) + range_rows_from(
                gx,
                gy,
                nx as int + 1,
                gxto,
                gyfrom,
                gyto,
                moore,
                gr,
            ));
            assert(out@ + (range_row_from(gx, gy, nx as int, gyfrom, gyto, moore, gr)
                + range_rows_from(gx, gy, nx as int + 1, gxto, gyfrom, gyto, moore, gr)) =~= out@
                + range_row_from(gx, gy, nx as int, gyfrom, gyto, moore, gr) + range_rows_from(
                gx,
                gy,
                nx as int + 1,
                gxto,
                gyfrom,
                gyto,
                moore,
                gr,
            ));
        }
        while ny < yto
            invariant
                yfrom <= ny <= if yfrom > yto {
                    yfrom
                } else {
                    yto
                },
                xfrom <= nx < xto,
                full == out@ + range_row_from(gx, gy, nx as int, ny as int, gyto, moore, gr)
                    + range_rows_from(gx, gy, nx as int + 1, gxto, gyfrom, gyto, moore, gr),
                forall|i: int|
                    0 <= i < out@.len() ==> cell_in_extent(#[trigger] out@[i], width, height),
            decreases yto - ny,
        {
            let ghost row_rest = range_row_from(gx, gy, nx as int, ny as int + 1, gyto, moore, gr);
            let ghost rows_rest = range_rows_from(gx, gy, nx as int + 1, gxto, gyfrom, gyto, moore, gr);
            let adx = if nx >= x {
                nx - x
            } else {
                x - nx
            };
            let ady = if ny >= y {
                ny - y
            } else {
                y - ny
            };
            proof {
                assert(adx == iabs(nx as int - gx) && ady == iabs(ny as int - gy));
            }
            if moore || adx + ady <= r {
                let cell = (nx as i32, ny as i32);
                proof {
                    assert(range_keep(gx, gy, nx as int, ny as int, moore, gr));
                    assert(cell == ((nx as int) as i32, (ny as int) as i32));
                    assert(range_row_from(gx, gy, nx as int, ny as int, gyto, moore, gr)
                        == seq![cell] + row_rest);
                    assert(out@ + (seq![cell] + row_rest) + rows_rest =~= out@.push(cell) + row_rest
                        + rows_rest);
                }
                out.push(cell);
            } else {
                proof {
                    assert(!range_keep(gx, gy, nx as int, ny as int, moore, gr));
                    assert(range_row_from(gx, gy, nx as int, ny as int, gyto, moore, gr)
                        == row_rest);
                }
            }
            ny = ny + 1;
        }
        proof {
            assert(range_row_from(gx, gy, nx as int, ny as int, gyto, moore, gr) =~= Seq::<
                (i32, i32),
            >::empty());
            assert(out@ + Seq::<(i32, i32)>::empty() + range_rows_from(
                gx,
                gy,
                nx as int + 1,
                gxto,
                gyfrom,
                gyto,
                moore,
                gr,
            ) =~= out@ + range_rows_from(gx, gy, nx as int + 1, gxto, gyfrom, gyto, moore, gr));
        }
        nx = nx + 1;
    }
    proof {
        assert(range_rows_from(gx, gy, nx as int, gxto, gyfrom, gyto, moore, gr) =~= Seq::<
            (i32, i32),
        >::empty());
        assert(out@ + Seq::<(i32, i32)>::empty() =~= out@);
    }
    Ok(out)
}

} // verus!
