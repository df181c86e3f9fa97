//! The vector strategy: candidates are appended to an ordered sequence in
//! dx-major, dy-minor enumeration order, with no deduplication. Per-candidate
//! torus wrapping and bounds rejection are mutually exclusive, so a
//! non-wrapping query never produces a duplicate; under torus wrap, two
//! offsets can legitimately collide onto the same wrapped cell once the
//! radius reaches half the extent, and such duplicates are kept by design.

use crate::model::{
    cell_in_extent, iabs, lemma_concat_contains, lemma_singleton_contains, offset_contributes,
    result_cell, valid_query, wrap_coord, NeighborhoodError,
};
use vstd::prelude::*;

verus! {

/// An offset contributes a cell to the vector strategy: it must contribute
/// to the enumeration and must not be the skipped center offset.
pub open spec fn vector_keep(
    x: int,
    y: int,
    dx: int,
    dy: int,
    moore: bool,
    include_center: bool,
    radius: int,
    torus: bool,
    width: int,
    height: int,
) -> bool {
    offset_contributes(x, y, dx, dy, moore, radius, torus, width, height) && !(dx == 0 && dy == 0
        && !include_center)
}

/// The cells one row of offsets contributes, for dy running from the given
/// value up to the radius.
pub open spec fn vector_row_from(
    x: int,
    y: int,
    dx: int,
    dy: int,
    moore: bool,
    include_center: bool,
    radius: int,
    torus: bool,
    width: int,
    height: int,
) -> Seq<(i32, i32)>
    decreases radius + 1 - dy,
{
    if dy > radius {
        Seq::empty()
    } else {
        let rest = vector_row_from(x, y, dx, dy + 1, moore, include_center, radius, torus, width, height);
        if vector_keep(x, y, dx, dy, moore, include_center, radius, torus, width, height) {
            seq![result_cell(x, y, dx, dy, torus, width, height)] + rest
        } else {
            rest
        }
    }
}

/// The cells all rows from the given dx up to the radius contribute.
pub open spec fn vector_rows_from(
    x: int,
    y: int,
    dx: int,
    moore: bool,
    include_center: bool,
    radius: int,
    torus: bool,
    width: int,
    height: int,
) -> Seq<(i32, i32)>
    decreases radius + 1 - dx,
{
    if dx > radius {
        Seq::empty()
    } else {
        vector_row_from(x, y, dx, -radius, moore, include_center, radius, torus, width, height)
            + vector_rows_from(x, y, dx + 1, moore, include_center, radius, torus, width, height)
    }
}

/// The exact sequence the vector strategy returns.
pub open spec fn vector_result(
    x: int,
    y: int,
    moore: bool,
    include_center: bool,
    radius: int,
    torus: bool,
    width: int,
    height: int,
) -> Seq<(i32, i32)> {
    vector_rows_from(x, y, -radius, moore, include_center, radius, torus, width, height)
}

/// A cell stands in a row suffix iff some offset at or after the suffix
/// start is kept and produces it.
pub proof fn lemma_vector_row_membership(
    x: int,
    y: int,
    dx: int,
    dy0: int,
    moore: bool,
    include_center: bool,
    radius: int,
    torus: bool,
    width: int,
    height: int,
    c: (i32, i32),
)
    ensures
        vector_row_from(x, y, dx, dy0, moore, include_center, radius, torus, width, height).contains(
            c,
        ) <==> exists|dy: int|
            dy0 <= dy && #[trigger] vector_keep(
                x,
                y,
                dx,
                dy,
                moore,
                include_center,
                radius,
                torus,
                width,
                height,
            ) && c == result_cell(x, y, dx, dy, torus, width, height),
    decreases radius + 1 - dy0,
{
    let s = vector_row_from(x, y, dx, dy0, moore, include_center, radius, torus, width, height);
    if dy0 > radius {
        if exists|dy: int|
            dy0 <= dy && #[trigger] vector_keep(
                x,
                y,
                dx,
                dy,
                moore,
                include_center,
                radius,
                torus,
                width,
                height,
            ) && c == result_cell(x, y, dx, dy, torus, width, height) {
            let dy = choose|dy: int|
                dy0 <= dy && #[trigger] vector_keep(
                    x,
                    y,
                    dx,
                    dy,
                    moore,
                    include_center,
                    radius,
                    torus,
                    width,
                    height,
                ) && c == result_cell(x, y, dx, dy, torus, width, height);
            assert(dy <= radius);
            assert(false);
        }
    } else {
        lemma_vector_row_membership(
            x,
            y,
            dx,
            dy0 + 1,
            moore,
            include_center,
            radius,
            torus,
            width,
            height,
            c,
        );
        let rest = vector_row_from(x, y, dx, dy0 + 1, moore, include_center, radius, torus, width, height);
        let cell0 = result_cell(x, y, dx, dy0, torus, width, height);
        if vector_keep(x, y, dx, dy0, moore, include_center, radius, torus, width, height) {
            lemma_concat_contains(seq![cell0], rest, c);
            lemma_singleton_contains(cell0, c);
            if s.contains(c) {
                if c == cell0 {
                    assert(vector_keep(
                        x,
                        y,
                        dx,
                        dy0,
                        moore,
                        include_center,
                        radius,
                        torus,
                        width,
                        height,
                    ) && c == result_cell(x, y, dx, dy0, torus, width, height));
                } else {
                    let dy = choose|dy: int|
                        dy0 + 1 <= dy && #[trigger] vector_keep(
                            x,
                            y,
                            dx,
                            dy,
                            moore,
                            include_center,
                            radius,
                            torus,
                            width,
                            height,
                        ) && c == result_cell(x, y, dx, dy, torus, width, height);
                    assert(dy0 <= dy);
                }
            }
            if exists|dy: int|
                dy0 <= dy && #[trigger] vector_keep(
                    x,
                    y,
                    dx,
                    dy,
                    moore,
                    include_center,
                    radius,
                    torus,
                    width,
                    height,
                ) && c == result_cell(x, y, dx, dy, torus, width, height) {
                let dy = choose|dy: int|
                    dy0 <= dy && #[trigger] vector_keep(
                        x,
                        y,
                        dx,
                        dy,
                        moore,
                        include_center,
                        radius,
                        torus,
                        width,
                        height,
                    ) && c == result_cell(x, y, dx, dy, torus, width, height);
                if dy == dy0 {
                    assert(s.contains(c));
                } else {
                    assert(dy0 + 1 <= dy);
                    assert(rest.contains(c));
                }
            }
        } else {
            if s.contains(c) {
                let dy = choose|dy: int|
                    dy0 + 1 <= dy && #[trigger] vector_keep(
                        x,
                        y,
                        dx,
                        dy,
                        moore,
                        include_center,
                        radius,
                        torus,
                        width,
                        height,
                    ) && c == result_cell(x, y, dx, dy, torus, width, height);
                assert(dy0 <= dy);
            }
            if exists|dy: int|
                dy0 <= dy && #[trigger] vector_keep(
                    x,
                    y,
                    dx,
                    dy,
                    moore,
                    include_center,
                    radius,
                    torus,
                    width,
                    height,
                ) && c == result_cell(x, y, dx, dy, torus, width, height) {
                let dy = choose|dy: int|
                    dy0 <= dy && #[trigger] vector_keep(
                        x,
                        y,
                        dx,
                        dy,
                        moore,
                        include_center,
                        radius,
                        torus,
                        width,
                        height,
                    ) && c == result_cell(x, y, dx, dy, torus, width, height);
                assert(dy != dy0);
                assert(rest.contains(c));
            }
        }
    }
}

/// A cell stands in a rows suffix iff some kept offset whose dx is at or
/// after the suffix start produces it.
pub proof fn lemma_vector_rows_membership(
    x: int,
    y: int,
    dx0: int,
    moore: bool,
    include_center: bool,
    radius: int,
    torus: bool,
    width: int,
    height: int,
    c: (i32, i32),
)
    ensures
        vector_rows_from(x, y, dx0, moore, include_center, radius, torus, width, height).contains(c)
            <==> exists|dx: int, dy: int|
            dx0 <= dx && #[trigger] vector_keep(
                x,
                y,
                dx,
                dy,
                moore,
                include_center,
                radius,
                torus,
                width,
                height,
            ) && c == result_cell(x, y, dx, dy, torus, width, height),
    decreases radius + 1 - dx0,
{
    let s = vector_rows_from(x, y, dx0, moore, include_center, radius, torus, width, height);
    if dx0 > radius {
        if exists|dx: int, dy: int|
            dx0 <= dx && #[trigger] vector_keep(
                x,
                y,
                dx,
                dy,
                moore,
                include_center,
                radius,
                torus,
                width,
                height,
            ) && c == result_cell(x, y, dx, dy, torus, width, height) {
            let (dx, dy) = choose|dx: int, dy: int|
                dx0 <= dx && #[trigger] vector_keep(
                    x,
                    y,
                    dx,
                    dy,
                    moore,
                    include_center,
                    radius,
                    torus,
                    width,
                    height,
                ) && c == result_cell(x, y, dx, dy, torus, width, height);
            assert(dx <= radius);
            assert(false);
        }
    } else {
        lemma_vector_rows_membership(
            x,
            y,
            dx0 + 1,
            moore,
            include_center,
            radius,
            torus,
            width,
            height,
            c,
        );
        lemma_vector_row_membership(
            x,
            y,
            dx0,
            -radius,
            moore,
            include_center,
            radius,
            torus,
            width,
            height,
            c,
        );
        let row = vector_row_from(x, y, dx0, -radius, moore, include_center, radius, torus, width, height);
        let rest = vector_rows_from(x, y, dx0 + 1, moore, include_center, radius, torus, width, height);
        lemma_concat_contains(row, rest, c);
        if s.contains(c) {
            if row.contains(c) {
                let dy = choose|dy: int|
                    -radius <= dy && #[trigger] vector_keep(
                        x,
                        y,
                        dx0,
                        dy,
                        moore,
                        include_center,
                        radius,
                        torus,
                        width,
                        height,
                    ) && c == result_cell(x, y, dx0, dy, torus, width, height);
                assert(dx0 <= dx0 && vector_keep(
                    x,
                    y,
                    dx0,
                    dy,
                    moore,
                    include_center,
                    radius,
                    torus,
                    width,
                    height,
                ) && c == result_cell(x, y, dx0, dy, torus, width, height));
            } else {
                let (dx, dy) = choose|dx: int, dy: int|
                    dx0 + 1 <= dx && #[trigger] vector_keep(
                        x,
                        y,
                        dx,
                        dy,
                        moore,
                        include_center,
                        radius,
                        torus,
                        width,
                        height,
                    ) && c == result_cell(x, y, dx, dy, torus, width, height);
                assert(dx0 <= dx);
            }
        }
        if exists|dx: int, dy: int|
            dx0 <= dx && #[trigger] vector_keep(
                x,
                y,
                dx,
                dy,
                moore,
                include_center,
                radius,
                torus,
                width,
                height,
            ) && c == result_cell(x, y, dx, dy, torus, width, height) {
            let (dx, dy) = choose|dx: int, dy: int|
                dx0 <= dx && #[trigger] vector_keep(
                    x,
                    y,
                    dx,
                    dy,
                    moore,
                    include_center,
                    radius,
                    torus,
                    width,
                    height,
                ) && c == result_cell(x, y, dx, dy, torus, width, height);
            if dx == dx0 {
                assert(-radius <= dy);
                assert(row.contains(c));
            } else {
                assert(dx0 + 1 <= dx);
                assert(rest.contains(c));
            }
        }
    }
}

/// A cell stands in the vector result iff some kept offset produces it.
pub proof fn lemma_vector_membership(
    x: int,
    y: int,
    moore: bool,
    include_center: bool,
    radius: int,
    torus: bool,
    width: int,
    height: int,
    c: (i32, i32),
)
    ensures
        vector_result(x, y, moore, include_center, radius, torus, width, height).contains(c) <==>
            exists|dx: int, dy: int|
            #[trigger] vector_keep(
                x,
                y,
                dx,
                dy,
                moore,
                include_center,
                radius,
                torus,
                width,
                height,
            ) && c == result_cell(x, y, dx, dy, torus, width, height),
{
    lemma_vector_rows_membership(
        x,
        y,
        -radius,
        moore,
        include_center,
        radius,
        torus,
        width,
        height,
        c,
    );
    if exists|dx: int, dy: int|
        #[trigger] vector_keep(x, y, dx, dy, moore, include_center, radius, torus, width, height)
            && c == result_cell(x, y, dx, dy, torus, width, height) {
        let (dx, dy) = choose|dx: int, dy: int|
            #[trigger] vector_keep(
                x,
                y,
                dx,
                dy,
                moore,
                include_center,
                radius,
                torus,
                width,
                height,
            ) && c == result_cell(x, y, dx, dy, torus, width, height);
        assert(-radius <= dx);
    }
}

/// The vector strategy: appends every surviving candidate in dx-major,
/// dy-minor order, skipping the center offset when it is not to be included.
/// Rejects a negative radius or a non-positive extent.
#[verifier::loop_isolation(false)]
pub fn get_neighborhood_vector(
    pos: (i32, i32),
    moore: bool,
    include_center: bool,
    radius: i32,
    torus: bool,
    width: i32,
    height: i32,
) -> (result: Result<Vec<(i32, i32)>, NeighborhoodError>)
    ensures
        result is Err <==> !valid_query(radius as int, width as int, height as int),
        result matches Err(e) ==> e == NeighborhoodError::InvalidArgument,
        result matches Ok(v) ==> {
            &&& v@ == vector_result(
                pos.0 as int,
                pos.1 as int,
                moore,
                include_center,
                radius as int,
                torus,
                width as int,
                height as int,
            )
            &&& forall|i: int| 0 <= i < v@.len() ==> cell_in_extent(#[trigger] v@[i], width, height)
        },
{
    if radius < 0 || width <= 0 || height <= 0 {
        return Err(NeighborhoodError::InvalidArgument);
    }
    let x = pos.0 as i64;
    let y = pos.1 as i64;
    let r = radius as i64;
    let w = width as i64;
    let h = height as i64;
    let ghost gx = pos.0 as int;
    let ghost gy = pos.1 as int;
    let ghost gr = radius as int;
    let ghost gw = width as int;
    let ghost gh = height as int;
    let ghost full = vector_result(gx, gy, moore, include_center, gr, torus, gw, gh);
    let mut out: Vec<(i32, i32)> = Vec::new();
    let mut dx: i64 = -r;
    while dx <= r
        invariant
            -r <= dx <= r + 1,
            full == out@ + vector_rows_from(gx, gy, dx as int, moore, include_center, gr, torus, gw, gh),
            forall|i: int| 0 <= i < out@.len() ==> cell_in_extent(#[trigger] out@[i], width, height),
        decreases r + 1 - dx,
    {
        let mut dy: i64 = -r;
        proof {
            assert(vector_rows_from(gx, gy, dx as int, moore, include_center, gr, torus, gw, gh)
                == vector_row_from(gx, gy, dx as int, -gr, moore, include_center, gr, torus, gw, gh)
                + vector_rows_from(gx, gy, dx as int + 1, moore, include_center, gr, torus, gw, gh));
            assert(out@ + (vector_row_from(gx, gy, dx as int, -gr, moore, include_center, gr, torus, gw, gh)
                + vector_rows_from(gx, gy, dx as int + 1, moore, include_center, gr, torus, gw, gh)) =~= out@
                + vector_row_from(gx, gy, dx as int, -gr, moore, include_center, gr, torus, gw, gh)
                + vector_rows_from(gx, gy, dx as int + 1, moore, include_center, gr, torus, gw, gh));
        }
        while dy <= r
            invariant
                -r <= dy <= r + 1,
                -r <= dx <= r,
                full == out@ + vector_row_from(gx, gy, dx as int, dy as int, moore, include_center, gr, torus, gw, gh)
                    + vector_rows_from(gx, gy, dx as int + 1, moore, include_center, gr, torus, gw, gh),
                forall|i: int|
                    0 <= i < out@.len() ==> cell_in_extent(#[trigger] out@[i], width, height),
            decreases r + 1 - dy,
        {
            let ghost a0 = dx as int;
            let ghost b0 = dy as int;
            let ghost row_rest = vector_row_from(gx, gy, a0, b0 + 1, moore, include_center, gr, torus, gw, gh);
            let ghost rows_rest = vector_rows_from(gx, gy, a0 + 1, moore, include_center, gr, torus, gw, gh);
            let adx = if dx < 0 {
                -dx
            } else {
                dx
            };
            let ady = if dy < 0 {
                -dy
            } else {
                dy
            };
            proof {
                assert(adx == iabs(a0) && ady == iabs(b0));
            }
            let mut kept: bool = false;
            let mut cell: (i32, i32) = (0, 0);
            if moore || adx + ady <= r {
                let cx0 = x + dx;
                let cy0 = y + dy;
                if torus {
                    let cx = wrap_coord(cx0, w);
                    let cy = wrap_coord(cy0, h);
                    if !(!include_center && dx == 0 && dy == 0) {
                        kept = true;
                        cell = (cx as i32, cy as i32);
                    }
                } else {
                    if 0 <= cx0 && cx0 < w && 0 <= cy0 && cy0 < h {
                        if !(!include_center && dx == 0 && dy == 0) {
                            kept = true;
                            cell = (cx0 as i32, cy0 as i32);
                        }
                    }
                }
            }
            if kept {
                proof {
                    assert(vector_keep(gx, gy, a0, b0, moore, include_center, gr, torus, gw, gh));
                    assert(cell == result_cell(gx, gy, a0, b0, torus, gw, gh));
                    assert(cell_in_extent(cell, width, height));
                    assert(vector_row_from(gx, gy, a0, b0, moore, include_center, gr, torus, gw, gh)
                        == seq![cell] + row_rest);
                    assert(out@ + (seq![cell] + row_rest) + rows_rest =~= out@.push(cell) + row_rest
                        + rows_rest);
                }
                out.push(cell);
            } else {
                proof {
                    assert(!vector_keep(gx, gy, a0, b0, moore, include_center, gr, torus, gw, gh));
                    assert(vector_row_from(gx, gy, a0, b0, moore, include_center, gr, torus, gw, gh)
                        == row_rest);
                }
            }
            dy = dy + 1;
        }
        proof {
            assert(vector_row_from(gx, gy, dx as int, dy as int, moore, include_center, gr, torus, gw, gh)
                =~= Seq::<(i32, i32)>::empty());
            assert(out@ + Seq::<(i32, i32)>::empty() + vector_rows_from(
                gx,
                gy,
                dx as int + 1,
                moore,
                include_center,
                gr,
                torus,
                gw,
                gh,
            ) =~= out@ + vector_rows_from(gx, gy, dx as int + 1, moore, include_center, gr, torus, gw, gh));
        }
        dx = dx + 1;
    }
    proof {
        assert(vector_rows_from(gx, gy, dx as int, moore, include_center, gr, torus, gw, gh) =~= Seq::<
            (i32, i32),
        >::empty());
        assert(out@ + Seq::<(i32, i32)>::empty() =~= out@);
    }
    Ok(out)
}

} // verus!
