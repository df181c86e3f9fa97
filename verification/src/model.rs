//! The mathematical model shared by all neighborhood strategies: grid
//! membership, the offset template selected by a topology and radius, torus
//! wraparound, and the set of cells a query enumerates.

use vstd::arithmetic::div_mod::{
    lemma_fundamental_div_mod, lemma_fundamental_div_mod_converse_mod, lemma_mod_add_multiples_vanish,
    lemma_mod_bound, lemma_small_mod,
};
use vstd::prelude::*;

verus! {

/// The one error a strategy can report: the radius was negative or the grid
/// extent was not positive.
#[derive(Clone, Copy, Debug, PartialEq, Eq)]
pub enum NeighborhoodError {
    InvalidArgument,
}

/// A query is well-formed when the radius is nonnegative and both grid
/// extents are positive.
pub open spec fn valid_query(radius: int, width: int, height: int) -> bool {
    radius >= 0 && width > 0 && height > 0
}

/// Absolute value of a mathematical integer.
pub open spec fn iabs(v: int) -> int {
    if v < 0 {
        -v
    } else {
        v
    }
}

/// The point (cx, cy) lies inside the grid extent [0, width) x [0, height).
pub open spec fn in_grid(cx: int, cy: int, width: int, height: int) -> bool {
    0 <= cx < width && 0 <= cy < height
}

/// An executable coordinate lies inside the grid extent.
pub open spec fn cell_in_extent(c: (i32, i32), width: i32, height: i32) -> bool {
    0 <= c.0 < width && 0 <= c.1 < height
}

/// Non-negative wraparound of v into [0, extent): the remainder is corrected
/// so that it never comes out negative, whatever the sign of v.
pub open spec fn wrap(v: int, extent: int) -> int {
    ((v % extent) + extent) % extent
}

/// For a positive extent, wrap lands in [0, extent) and agrees with the
/// Euclidean remainder.
pub proof fn lemma_wrap_bounds(v: int, extent: int)
    requires
        extent > 0,
    ensures
        wrap(v, extent) == v % extent,
        0 <= wrap(v, extent) < extent,
{
    lemma_mod_bound(v, extent);
    let r = v % extent;
    lemma_mod_add_multiples_vanish(r, extent);
    lemma_small_mod(r as nat, extent as nat);
}

/// Wrapping a value already inside [0, extent) leaves it unchanged.
pub proof fn lemma_wrap_identity(v: int, extent: int)
    requires
        extent > 0,
        0 <= v < extent,
    ensures
        wrap(v, extent) == v,
{
    lemma_wrap_bounds(v, extent);
    lemma_small_mod(v as nat, extent as nat);
}

/// Two values closer together than the extent wrap to the same cell only if
/// they are equal.
pub proof fn lemma_wrap_injective(a: int, b: int, extent: int)
    requires
        extent > 0,
        wrap(a, extent) == wrap(b, extent),
        iabs(a - b) < extent,
    ensures
        a == b,
{
    lemma_wrap_bounds(a, extent);
    lemma_wrap_bounds(b, extent);
    lemma_fundamental_div_mod(a, extent);
    lemma_fundamental_div_mod(b, extent);
    let qa = a / extent;
    let qb = b / extent;
    assert(a - b == extent * (qa - qb)) by {
        assert(a == extent * qa + a % extent);
        assert(b == extent * qb + b % extent);
        assert(extent * qa - extent * qb == extent * (qa - qb)) by (nonlinear_arith);
    }
    assert(qa == qb) by {
        if qa - qb >= 1 {
            assert(extent * (qa - qb) >= extent) by (nonlinear_arith)
                requires
                    extent > 0,
                    qa - qb >= 1,
            ;
        }
        if qa - qb <= -1 {
            assert(extent * (qa - qb) <= -extent) by (nonlinear_arith)
                requires
                    extent > 0,
                    qa - qb <= -1,
            ;
        }
    }
}

/// Executable torus wrap, the helper every wrapping strategy shares: brings
/// v into [0, extent) with a remainder corrected to be non-negative,
/// whatever the sign of v.
pub fn wrap_coord(v: i64, extent: i64) -> (r: i64)
    requires
        0 < extent,
        i64::MIN < v,
    ensures
        r == wrap(v as int, extent as int),
        0 <= r < extent,
{
    proof {
        lemma_wrap_bounds(v as int, extent as int);
    }
    if v >= 0 {
        v % extent
    } else {
        let m = (-v) % extent;
        proof {
            let x = v as int;
            let e = extent as int;
            lemma_fundamental_div_mod(-x, e);
            let q = (-x) / e;
            if m == 0 {
                assert(x == (-q) * e + 0) by (nonlinear_arith)
                    requires
                        -x == e * q + m,
                        m == 0,
                ;
                lemma_fundamental_div_mod_converse_mod(x, e, -q, 0);
            } else {
                assert(x == (-q - 1) * e + (e - m)) by (nonlinear_arith)
                    requires
                        -x == e * q + m,
                ;
                lemma_fundamental_div_mod_converse_mod(x, e, -q - 1, e - m);
            }
        }
        if m == 0 {
            0
        } else {
            extent - m
        }
    }
}

/// The offset (dx, dy) belongs to the neighborhood template: it fits in the
/// Chebyshev square of the radius and, for a von Neumann query, also within
/// Manhattan distance of the radius.
pub open spec fn offset_selected(dx: int, dy: int, moore: bool, radius: int) -> bool {
    &&& -radius <= dx <= radius
    &&& -radius <= dy <= radius
    &&& (moore || iabs(dx) + iabs(dy) <= radius)
}

/// The cell an offset produces: wrapped into the grid under torus treatment,
/// the raw candidate otherwise.
pub open spec fn result_cell(x: int, y: int, dx: int, dy: int, torus: bool, width: int, height: int) -> (i32, i32) {
    if torus {
        (wrap(x + dx, width) as i32, wrap(y + dy, height) as i32)
    } else {
        ((x + dx) as i32, (y + dy) as i32)
    }
}

/// A candidate survives boundary treatment: under torus it always wraps into
/// range, otherwise it must already lie inside the grid.
pub open spec fn candidate_kept(x: int, y: int, dx: int, dy: int, torus: bool, width: int, height: int) -> bool {
    torus || in_grid(x + dx, y + dy, width, height)
}

/// The offset is selected by the template and its candidate survives
/// boundary treatment.
pub open spec fn offset_contributes(
    x: int,
    y: int,
    dx: int,
    dy: int,
    moore: bool,
    radius: int,
    torus: bool,
    width: int,
    height: int,
) -> bool {
    offset_selected(dx, dy, moore, radius) && candidate_kept(x, y, dx, dy, torus, width, height)
}

/// Some contributing offset produces the cell c.
pub open spec fn reaches(
    x: int,
    y: int,
    moore: bool,
    radius: int,
    torus: bool,
    width: int,
    height: int,
    c: (i32, i32),
) -> bool {
    exists|dx: int, dy: int|
        #[trigger] offset_contributes(x, y, dx, dy, moore, radius, torus, width, height)
            && c == result_cell(x, y, dx, dy, torus, width, height)
}

/// Every cell the offset enumeration can produce, before any center removal.
pub open spec fn enumerated_set(
    x: int,
    y: int,
    moore: bool,
    radius: int,
    torus: bool,
    width: int,
    height: int,
) -> Set<(i32, i32)> {
    Set::new(|c: (i32, i32)| reaches(x, y, moore, radius, torus, width, height, c))
}

/// The set the set-based strategy returns: the enumerated cells, with the
/// center removed when it is not to be included.
pub open spec fn set_result(
    x: int,
    y: int,
    moore: bool,
    include_center: bool,
    radius: int,
    torus: bool,
    width: int,
    height: int,
) -> Set<(i32, i32)> {
    if include_center {
        enumerated_set(x, y, moore, radius, torus, width, height)
    } else {
        enumerated_set(x, y, moore, radius, torus, width, height).remove((x as i32, y as i32))
    }
}

/// Membership in a concatenation is membership in either part.
pub proof fn lemma_concat_contains(s1: Seq<(i32, i32)>, s2: Seq<(i32, i32)>, c: (i32, i32))
    ensures
        (s1 + s2).contains(c) <==> s1.contains(c) || s2.contains(c),
{
    if (s1 + s2).contains(c) {
        let k = choose|k: int| 0 <= k < (s1 + s2).len() && (s1 + s2)[k] == c;
        if k < s1.len() {
            assert(s1[k] == c);
        } else {
            assert(s2[k - s1.len()] == c);
        }
    }
    if s1.contains(c) {
        let k = choose|k: int| 0 <= k < s1.len() && s1[k] == c;
        assert((s1 + s2)[k] == c);
    }
    if s2.contains(c) {
        let k = choose|k: int| 0 <= k < s2.len() && s2[k] == c;
        assert((s1 + s2)[k + s1.len()] == c);
    }
}

/// Membership in a singleton is equality with its one element.
pub proof fn lemma_singleton_contains(e: (i32, i32), c: (i32, i32))
    ensures
        seq![e].contains(c) <==> c == e,
{
    if seq![e].contains(c) {
        let k = choose|k: int| 0 <= k < seq![e].len() && seq![e][k] == c;
        assert(seq![e][0] == e);
    }
    if c == e {
        assert(seq![e][0] == c);
    }
}

} // verus!
