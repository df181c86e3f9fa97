//! Properties relating the strategies to one another: center exclusion,
//! zero-radius behaviour, agreement of the set-based and vector strategies,
//! and agreement of the clamped strategy with the non-wrapping vector
//! strategy.

use crate::model::{
    candidate_kept, enumerated_set, iabs, in_grid, lemma_wrap_bounds, lemma_wrap_identity,
    lemma_wrap_injective, offset_contributes, reaches, result_cell, set_result, valid_query, wrap,
};
use crate::range::{
    clamp_from, clamp_to, range_keep, range_result, range_row_from, range_rows_from,
};
use crate::vector::{
    lemma_vector_membership, vector_keep, vector_result, vector_row_from, vector_rows_from,
};
use vstd::prelude::*;

verus! {

/// Only the zero offset can land on the center cell: without wrap because
/// translation is injective, and under wrap because offsets stay closer
/// together than the extent when the radius is below half of it.
pub proof fn lemma_center_only_from_zero_offset(
    x: int,
    y: int,
    dx: int,
    dy: int,
    moore: bool,
    radius: int,
    torus: bool,
    width: int,
    height: int,
)
    requires
        valid_query(radius, width, height),
        width <= i32::MAX,
        height <= i32::MAX,
        i32::MIN <= x <= i32::MAX,
        i32::MIN <= y <= i32::MAX,
        torus ==> in_grid(x, y, width, height) && 2 * radius < width && 2 * radius < height,
        offset_contributes(x, y, dx, dy, moore, radius, torus, width, height),
        result_cell(x, y, dx, dy, torus, width, height) == (x as i32, y as i32),
    ensures
        dx == 0 && dy == 0,
{
    if torus {
        lemma_wrap_bounds(x + dx, width);
        lemma_wrap_bounds(y + dy, height);
        lemma_wrap_identity(x, width);
        lemma_wrap_identity(y, height);
        assert(wrap(x + dx, width) as i32 == x as i32);
        assert(wrap(x + dx, width) == x);
        lemma_wrap_injective(x + dx, x, width);
        assert(wrap(y + dy, height) == y);
        lemma_wrap_injective(y + dy, y, height);
    } else {
        assert(in_grid(x + dx, y + dy, width, height));
        assert((x + dx) as i32 == x as i32);
        assert(x + dx == x);
        assert(y + dy == y);
    }
}

/// Excluding the center removes exactly the center cell from the set-based
/// result, whatever else the query looks like.
pub proof fn lemma_set_excludes_exactly_center(
    x: int,
    y: int,
    moore: bool,
    radius: int,
    torus: bool,
    width: int,
    height: int,
)
    ensures
        set_result(x, y, moore, false, radius, torus, width, height) == set_result(
            x,
            y,
            moore,
            true,
            radius,
            torus,
            width,
            height,
        ).remove((x as i32, y as i32)),
{
}

/// Excluding the center removes exactly the center cell from the cells of
/// the vector strategy, as long as no wrapped offset can collide with the
/// center from elsewhere.
pub proof fn lemma_vector_excludes_exactly_center(
    x: int,
    y: int,
    moore: bool,
    radius: int,
    torus: bool,
    width: int,
    height: int,
)
    requires
        valid_query(radius, width, height),
        width <= i32::MAX,
        height <= i32::MAX,
        i32::MIN <= x <= i32::MAX,
        i32::MIN <= y <= i32::MAX,
        torus ==> in_grid(x, y, width, height) && 2 * radius < width && 2 * radius < height,
    ensures
        vector_result(x, y, moore, false, radius, torus, width, height).to_set() == vector_result(
            x,
            y,
            moore,
            true,
            radius,
            torus,
            width,
            height,
        ).to_set().remove((x as i32, y as i32)),
{
    let center = ((x as i32, y as i32));
    let without = vector_result(x, y, moore, false, radius, torus, width, height);
    let with = vector_result(x, y, moore, true, radius, torus, width, height);
    assert(without.to_set() =~= with.to_set().remove(center)) by {
        assert forall|z: (i32, i32)| without.to_set().contains(z) implies with.to_set().remove(
            center,
        ).contains(z) by {
            lemma_vector_membership(x, y, moore, false, radius, torus, width, height, z);
            lemma_vector_membership(x, y, moore, true, radius, torus, width, height, z);
            let (dx, dy) = choose|dx: int, dy: int|
                #[trigger] vector_keep(x, y, dx, dy, moore, false, radius, torus, width, height)
                    && z == result_cell(x, y, dx, dy, torus, width, height);
            assert(vector_keep(x, y, dx, dy, moore, true, radius, torus, width, height));
            if z == center {
                lemma_center_only_from_zero_offset(
                    x,
                    y,
                    dx,
                    dy,
                    moore,
                    radius,
                    torus,
                    width,
                    height,
                );
                assert(false);
            }
        }
        assert forall|z: (i32, i32)| with.to_set().remove(center).contains(z) implies without
            .to_set().contains(z) by {
            lemma_vector_membership(x, y, moore, false, radius, torus, width, height, z);
            lemma_vector_membership(x, y, moore, true, radius, torus, width, height, z);
            let (dx, dy) = choose|dx: int, dy: int|
                #[trigger] vector_keep(x, y, dx, dy, moore, true, radius, torus, width, height) && z
                    == result_cell(x, y, dx, dy, torus, width, height);
            if dx == 0 && dy == 0 {
                if torus {
                    lemma_wrap_identity(x, width);
                    lemma_wrap_identity(y, height);
                }
                assert(z == center);
                assert(false);
            }
            assert(vector_keep(x, y, dx, dy, moore, false, radius, torus, width, height));
        }
    }
}

/// With radius zero and the center included, every strategy returns exactly
/// the center cell, for any center inside the grid.
pub proof fn lemma_radius_zero_with_center(
    x: int,
    y: int,
    moore: bool,
    torus: bool,
    width: int,
    height: int,
)
    requires
        valid_query(0, width, height),
        width <= i32::MAX,
        height <= i32::MAX,
        in_grid(x, y, width, height),
    ensures
        set_result(x, y, moore, true, 0, torus, width, height) == Set::<(i32, i32)>::empty().insert(
            (x as i32, y as i32),
        ),
        vector_result(x, y, moore, true, 0, torus, width, height) == seq![(x as i32, y as i32)],
        range_result(x, y, moore, 0, width, height) == seq![(x as i32, y as i32)],
{
    let center = ((x as i32, y as i32));
    if torus {
        lemma_wrap_identity(x, width);
        lemma_wrap_identity(y, height);
    }
    assert(result_cell(x, y, 0, 0, torus, width, height) == center);
    assert(offset_contributes(x, y, 0, 0, moore, 0, torus, width, height));
    assert(set_result(x, y, moore, true, 0, torus, width, height) =~= Set::<(i32, i32)>::empty()
        .insert(center)) by {
        assert forall|z: (i32, i32)| enumerated_set(x, y, moore, 0, torus, width, height).contains(
            z,
        ) implies z == center by {
            let (dx, dy) = choose|dx: int, dy: int|
                #[trigger] offset_contributes(x, y, dx, dy, moore, 0, torus, width, height) && z
                    == result_cell(x, y, dx, dy, torus, width, height);
            assert(dx == 0 && dy == 0);
        }
        assert(reaches(x, y, moore, 0, torus, width, height, center));
    }
    assert(vector_keep(x, y, 0, 0, moore, true, 0, torus, width, height));
    assert(vector_row_from(x, y, 0, 1, moore, true, 0, torus, width, height) =~= Seq::<
        (i32, i32),
    >::empty());
    assert(vector_rows_from(x, y, 1, moore, true, 0, torus, width, height) =~= Seq::<
        (i32, i32),
    >::empty());
    assert(vector_row_from(x, y, 0, 0, moore, true, 0, torus, width, height) == seq![center]
        + vector_row_from(x, y, 0, 1, moore, true, 0, torus, width, height));
    assert(vector_result(x, y, moore, true, 0, torus, width, height) =~= seq![center]);
    assert(clamp_from(x - 0) == x && clamp_to(x + 0 + 1, width) == x + 1);
    assert(clamp_from(y - 0) == y && clamp_to(y + 0 + 1, height) == y + 1);
    assert(range_keep(x, y, x, y, moore, 0));
    assert(range_row_from(x, y, x, y + 1, y + 1, moore, 0) =~= Seq::<(i32, i32)>::empty());
    assert(range_rows_from(x, y, x + 1, x + 1, y, y + 1, moore, 0) =~= Seq::<(i32, i32)>::empty());
    assert(range_row_from(x, y, x, y, y + 1, moore, 0) == seq![center] + range_row_from(
        x,
        y,
        x,
        y + 1,
        y + 1,
        moore,
        0,
    ));
    assert(range_result(x, y, moore, 0, width, height) =~= seq![center]);
}

/// With radius zero and the center excluded, the vector strategy returns
/// nothing at all, for every center and either torus setting.
pub proof fn lemma_radius_zero_vector_empty(
    x: int,
    y: int,
    moore: bool,
    torus: bool,
    width: int,
    height: int,
)
    requires
        valid_query(0, width, height),
    ensures
        vector_result(x, y, moore, false, 0, torus, width, height) == Seq::<(i32, i32)>::empty(),
{
    assert(!vector_keep(x, y, 0, 0, moore, false, 0, torus, width, height));
    assert(vector_row_from(x, y, 0, 1, moore, false, 0, torus, width, height) =~= Seq::<
        (i32, i32),
    >::empty());
    assert(vector_rows_from(x, y, 1, moore, false, 0, torus, width, height) =~= Seq::<
        (i32, i32),
    >::empty());
    assert(vector_result(x, y, moore, false, 0, torus, width, height) =~= Seq::<
        (i32, i32),
    >::empty());
}

/// With radius zero and the center excluded, the set-based strategy returns
/// the empty set; under torus this needs the center inside the grid, so that
/// removing the center is not a no-op against its wrapped image.
pub proof fn lemma_radius_zero_set_empty(
    x: int,
    y: int,
    moore: bool,
    torus: bool,
    width: int,
    height: int,
)
    requires
        valid_query(0, width, height),
        width <= i32::MAX,
        height <= i32::MAX,
        torus ==> in_grid(x, y, width, height),
    ensures
        set_result(x, y, moore, false, 0, torus, width, height) == Set::<(i32, i32)>::empty(),
{
    let center = ((x as i32, y as i32));
    assert(set_result(x, y, moore, false, 0, torus, width, height) =~= Set::<(i32, i32)>::empty())
        by {
        assert forall|z: (i32, i32)| !set_result(
            x,
            y,
            moore,
            false,
            0,
            torus,
            width,
            height,
        ).contains(z) by {
            if enumerated_set(x, y, moore, 0, torus, width, height).contains(z) {
                let (dx, dy) = choose|dx: int, dy: int|
                    #[trigger] offset_contributes(x, y, dx, dy, moore, 0, torus, width, height) && z
                        == result_cell(x, y, dx, dy, torus, width, height);
                assert(dx == 0 && dy == 0);
                if torus {
                    lemma_wrap_identity(x, width);
                    lemma_wrap_identity(y, height);
                } else {
                    assert(in_grid(x, y, width, height));
                }
                assert(z == center);
            }
        }
    }
}

/// In the no-collision regime — the radius below half of either extent —
/// the set-based and vector strategies return the same cells; excluding the
/// center under torus additionally needs the center inside the grid, so that
/// the two ways of excluding it coincide.
pub proof fn lemma_set_vector_agree(
    x: int,
    y: int,
    moore: bool,
    include_center: bool,
    radius: int,
    torus: bool,
    width: int,
    height: int,
)
    requires
        valid_query(radius, width, height),
        width <= i32::MAX,
        height <= i32::MAX,
        i32::MIN <= x <= i32::MAX,
        i32::MIN <= y <= i32::MAX,
        2 * radius < width,
        2 * radius < height,
        torus && !include_center ==> in_grid(x, y, width, height),
    ensures
        vector_result(x, y, moore, include_center, radius, torus, width, height).to_set()
            == set_result(x, y, moore, include_center, radius, torus, width, height),
{
    let vec = vector_result(x, y, moore, include_center, radius, torus, width, height);
    let center = ((x as i32, y as i32));
    assert(vec.to_set() =~= set_result(x, y, moore, include_center, radius, torus, width, height))
        by {
        assert forall|z: (i32, i32)| vec.to_set().contains(z) implies set_result(
            x,
            y,
            moore,
            include_center,
            radius,
            torus,
            width,
            height,
        ).contains(z) by {
            lemma_vector_membership(
                x,
                y,
                moore,
                include_center,
                radius,
                torus,
                width,
                height,
                z,
            );
            let (dx, dy) = choose|dx: int, dy: int|
                #[trigger] vector_keep(
                    x,
                    y,
                    dx,
                    dy,
                    moore,
                    include_center,
                    radius,
                    torus,
                    width,
                    height,
                ) && z == result_cell(x, y, dx, dy, torus, width, height);
            assert(reaches(x, y, moore, radius, torus, width, height, z));
            if !include_center && z == center {
                lemma_center_only_from_zero_offset(
                    x,
                    y,
                    dx,
                    dy,
                    moore,
                    radius,
                    torus,
                    width,
                    height,
                );
                assert(false);
            }
        }
        assert forall|z: (i32, i32)| set_result(
            x,
            y,
            moore,
            include_center,
            radius,
            torus,
            width,
            height,
        ).contains(z) implies vec.to_set().contains(z) by {
            lemma_vector_membership(
                x,
                y,
                moore,
                include_center,
                radius,
                torus,
                width,
                height,
                z,
            );
            let (dx, dy) = choose|dx: int, dy: int|
                #[trigger] offset_contributes(x, y, dx, dy, moore, radius, torus, width, height)
                    && z == result_cell(x, y, dx, dy, torus, width, height);
            if dx == 0 && dy == 0 && !include_center {
                if torus {
                    lemma_wrap_identity(x, width);
                    lemma_wrap_identity(y, height);
                } else {
                    assert(in_grid(x, y, width, height));
                }
                assert(z == center);
                assert(false);
            }
            assert(vector_keep(x, y, dx, dy, moore, include_center, radius, torus, width, height));
        }
    }
}

/// A column whose x coordinate falls outside the grid contributes nothing to
/// the non-wrapping vector strategy.
proof fn lemma_vector_column_empty(
    x: int,
    y: int,
    dx: int,
    dy0: int,
    moore: bool,
    radius: int,
    width: int,
    height: int,
)
    requires
        !(0 <= x + dx < width),
    ensures
        vector_row_from(x, y, dx, dy0, moore, true, radius, false, width, height) == Seq::<
            (i32, i32),
        >::empty(),
    decreases radius + 1 - dy0,
{
    if dy0 > radius {
    } else {
        assert(!candidate_kept(x, y, dx, dy0, false, width, height));
        lemma_vector_column_empty(x, y, dx, dy0 + 1, moore, radius, width, height);
    }
}

/// One in-bounds column of the non-wrapping vector strategy is exactly one
/// clamped scan column of the range strategy.
proof fn lemma_column_agree(
    x: int,
    y: int,
    dx: int,
    dy0: int,
    moore: bool,
    radius: int,
    width: int,
    height: int,
)
    requires
        valid_query(radius, width, height),
        -radius <= dx <= radius,
        0 <= x + dx < width,
        -radius <= dy0,
    ensures
        vector_row_from(x, y, dx, dy0, moore, true, radius, false, width, height) == range_row_from(
            x,
            y,
            x + dx,
            clamp_from(y + dy0),
            clamp_to(y + radius + 1, height),
            moore,
            radius,
        ),
    decreases radius + 1 - dy0,
{
    let yto = clamp_to(y + radius + 1, height);
    let m = clamp_from(y + dy0);
    if dy0 > radius {
        assert(m >= yto);
    } else {
        lemma_column_agree(x, y, dx, dy0 + 1, moore, radius, width, height);
        let m1 = clamp_from(y + dy0 + 1);
        assert(iabs((x + dx) - x) == iabs(dx));
        if y + dy0 < 0 {
            assert(!candidate_kept(x, y, dx, dy0, false, width, height));
            assert(m == 0 && m1 == 0);
        } else {
            assert(m == y + dy0 && m1 == m + 1);
            if m >= yto {
                assert(y + dy0 >= height);
                assert(!candidate_kept(x, y, dx, dy0, false, width, height));
                assert(range_row_from(x, y, x + dx, m, yto, moore, radius) =~= Seq::<
                    (i32, i32),
                >::empty());
                assert(m1 >= yto);
            } else {
                assert(0 <= y + dy0 < height);
                assert(candidate_kept(x, y, dx, dy0, false, width, height));
                assert(iabs((y + dy0) - y) == iabs(dy0));
                assert(vector_keep(x, y, dx, dy0, moore, true, radius, false, width, height)
                    <==> range_keep(x, y, x + dx, y + dy0, moore, radius));
                assert(result_cell(x, y, dx, dy0, false, width, height) == (
                    (x + dx) as i32,
                    (y + dy0) as i32,
                ));
            }
        }
    }
}

/// The non-wrapping vector strategy from a given column onward is exactly
/// the range strategy's scan from the matching clamped column onward.
proof fn lemma_columns_agree(
    x: int,
    y: int,
    dx0: int,
    moore: bool,
    radius: int,
    width: int,
    height: int,
)
    requires
        valid_query(radius, width, height),
        -radius <= dx0,
    ensures
        vector_rows_from(x, y, dx0, moore, true, radius, false, width, height) == range_rows_from(
            x,
            y,
            clamp_from(x + dx0),
            clamp_to(x + radius + 1, width),
            clamp_from(y - radius),
            clamp_to(y + radius + 1, height),
            moore,
            radius,
        ),
    decreases radius + 1 - dx0,
{
    let xto = clamp_to(x + radius + 1, width);
    let yfrom = clamp_from(y - radius);
    let yto = clamp_to(y + radius + 1, height);
    let mx = clamp_from(x + dx0);
    if dx0 > radius {
        assert(mx >= xto);
    } else {
        lemma_columns_agree(x, y, dx0 + 1, moore, radius, width, height);
        let mx1 = clamp_from(x + dx0 + 1);
        let row = vector_row_from(x, y, dx0, -radius, moore, true, radius, false, width, height);
        let rest = vector_rows_from(x, y, dx0 + 1, moore, true, radius, false, width, height);
        if x + dx0 < 0 {
            lemma_vector_column_empty(x, y, dx0, -radius, moore, radius, width, height);
            assert(mx == 0 && mx1 == 0);
            assert(Seq::<(i32, i32)>::empty() + rest =~= rest);
        } else if x + dx0 >= width {
            lemma_vector_column_empty(x, y, dx0, -radius, moore, radius, width, height);
            assert(mx >= xto && mx1 >= xto);
            assert(Seq::<(i32, i32)>::empty() + rest =~= rest);
        } else {
            assert(mx == x + dx0 && mx1 == mx + 1);
            assert(mx < xto);
            lemma_column_agree(x, y, dx0, -radius, moore, radius, width, height);
            assert(clamp_from(y + (-radius)) == yfrom);
            assert(row == range_row_from(x, y, x + dx0, yfrom, yto, moore, radius));
        }
    }
}

/// The range strategy never wraps: it returns exactly what the vector
/// strategy returns for the same query with torus off and the center
/// included, cell for cell and in the same order.
pub proof fn lemma_clamped_matches_vector(
    x: int,
    y: int,
    moore: bool,
    radius: int,
    width: int,
    height: int,
)
    requires
        valid_query(radius, width, height),
    ensures
        range_result(x, y, moore, radius, width, height) == vector_result(
            x,
            y,
            moore,
            true,
            radius,
            false,
            width,
            height,
        ),
{
    lemma_columns_agree(x, y, -radius, moore, radius, width, height);
    assert(clamp_from(x + (-radius)) == clamp_from(x - radius));
}

/// As a set, the range strategy's result is the set-based strategy's result
/// for the same non-wrapping, center-including query.
pub proof fn lemma_clamped_matches_set(
    x: int,
    y: int,
    moore: bool,
    radius: int,
    width: int,
    height: int,
)
    requires
        valid_query(radius, width, height),
        width <= i32::MAX,
        height <= i32::MAX,
    ensures
        range_result(x, y, moore, radius, width, height).to_set() == set_result(
            x,
            y,
            moore,
            true,
            radius,
            false,
            width,
            height,
        ),
{
    lemma_clamped_matches_vector(x, y, moore, radius, width, height);
    let vec = vector_result(x, y, moore, true, radius, false, width, height);
    assert(vec.to_set() =~= set_result(x, y, moore, true, radius, false, width, height)) by {
        assert forall|z: (i32, i32)| vec.to_set().contains(z) implies set_result(
            x,
            y,
            moore,
            true,
            radius,
            false,
            width,
            height,
        ).contains(z) by {
            lemma_vector_membership(x, y, moore, true, radius, false, width, height, z);
            let (dx, dy) = choose|dx: int, dy: int|
                #[trigger] vector_keep(x, y, dx, dy, moore, true, radius, false, width, height) && z
                    == result_cell(x, y, dx, dy, false, width, height);
            assert(reaches(x, y, moore, radius, false, width, height, z));
        }
        assert forall|z: (i32, i32)| set_result(
            x,
            y,
            moore,
            true,
            radius,
            false,
            width,
            height,
        ).contains(z) implies vec.to_set().contains(z) by {
            lemma_vector_membership(x, y, moore, true, radius, false, width, height, z);
            let (dx, dy) = choose|dx: int, dy: int|
                #[trigger] offset_contributes(x, y, dx, dy, moore, radius, false, width, height)
                    && z == result_cell(x, y, dx, dy, false, width, height);
            assert(vector_keep(x, y, dx, dy, moore, true, radius, false, width, height));
        }
    }
}

} // verus!

