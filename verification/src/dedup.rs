//! The deduplicating set-based strategy. A fast path serves queries whose
//! whole candidate square provably lies inside the grid, so no wrap or
//! bounds logic is needed per cell; the slow path handles everything else.
//! Both paths collect into a duplicate-free vector used as a set: a cell is
//! inserted only after a membership check, so no cell ever appears twice.

use crate::model::{
    candidate_kept, cell_in_extent, enumerated_set, iabs, in_grid, lemma_wrap_identity,
    offset_contributes, offset_selected, reaches, result_cell, set_result, valid_query, wrap_coord,
    NeighborhoodError,
};
use vstd::prelude::*;

verus! {

/// The fast path applies when the full (2 radius + 1) square around the
/// center provably lies inside the grid.
pub open spec fn fast_path_applies(x: int, y: int, radius: int, width: int, height: int) -> bool {
    x >= radius && width - x > radius && y >= radius && height - y > radius
}

/// The cells the fast path enumerates: the whole offset template translated
/// to the center, with no bounds or wrap treatment at all.
pub open spec fn square_set(x: int, y: int, moore: bool, radius: int) -> Set<(i32, i32)> {
    Set::new(|c: (i32, i32)| offset_selected(c.0 - x, c.1 - y, moore, radius))
}

/// Linear membership scan behind the deduplicating insert.
fn contains_cell(v: &Vec<(i32, i32)>, c: (i32, i32)) -> (found: bool)
    ensures
        found == v@.contains(c),
{
    let n = v.len();
    let mut i: usize = 0;
    while i < n
        invariant
            0 <= i <= v@.len(),
            n == v@.len(),
            forall|j: int| 0 <= j < i ==> v@[j] != c,
        decreases v@.len() - i,
    {
        let e = v[i];
        if e.0 == c.0 && e.1 == c.1 {
            proof {
                assert(v@[i as int] =~= c);
            }
            return true;
        }
        i += 1;
    }
    false
}

/// Inserts c unless it is already present, keeping the vector duplicate-free.
fn insert_cell(v: &mut Vec<(i32, i32)>, c: (i32, i32))
    requires
        old(v)@.no_duplicates(),
    ensures
        final(v)@.no_duplicates(),
        final(v)@.to_set() == old(v)@.to_set().insert(c),
        final(v)@.contains(c),
        forall|z: (i32, i32)| old(v)@.contains(z) ==> final(v)@.contains(z),
        forall|i: int|
            0 <= i < final(v)@.len() ==> old(v)@.contains(#[trigger] final(v)@[i]) || final(v)@[i]
                == c,
{
    let already = contains_cell(v, c);
    if !already {
        v.push(c);
        proof {
            assert(v@[old(v)@.len() as int] == c);
            assert forall|z: (i32, i32)| old(v)@.contains(z) implies v@.contains(z) by {
                let k = choose|k: int| 0 <= k < old(v)@.len() && old(v)@[k] == z;
                assert(v@[k] == z);
            }
            assert forall|z: (i32, i32)| v@.contains(z) implies old(v)@.contains(z) || z == c by {
                let k = choose|k: int| 0 <= k < v@.len() && v@[k] == z;
                if k < old(v)@.len() {
                    assert(old(v)@[k] == z);
                }
            }
            assert forall|z: (i32, i32)| old(v)@.contains(z) || z == c implies v@.contains(z) by {
                if old(v)@.contains(z) {
                    let k = choose|k: int| 0 <= k < old(v)@.len() && old(v)@[k] == z;
                    assert(v@[k] == z);
                } else {
                    assert(v@[old(v)@.len() as int] == c);
                }
            }
            assert(v@.to_set() =~= old(v)@.to_set().insert(c));
        }
    } else {
        proof {
            assert(old(v)@.to_set().insert(c) =~= old(v)@.to_set());
        }
    }
}

/// Removes c if present; with no duplicates, one removal removes it from the
/// collected set entirely.
#[verifier::loop_isolation(false)]
fn remove_cell(v: &mut Vec<(i32, i32)>, c: (i32, i32))
    requires
        old(v)@.no_duplicates(),
    ensures
        final(v)@.no_duplicates(),
        final(v)@.to_set() == old(v)@.to_set().remove(c),
        forall|i: int| 0 <= i < final(v)@.len() ==> old(v)@.contains(#[trigger] final(v)@[i]),
{
    let n = v.len();
    let mut i: usize = 0;
    while i < n
        invariant
            0 <= i <= v@.len(),
            n == v@.len(),
            v@ == old(v)@,
            forall|j: int| 0 <= j < i ==> v@[j] != c,
        decreases v@.len() - i,
    {
        let e = v[i];
        if e.0 == c.0 && e.1 == c.1 {
            proof {
                assert(v@[i as int] =~= c);
            }
            v.remove(i);
            proof {
                let s = old(v)@;
                assert forall|z: (i32, i32)| v@.contains(z) implies
                    s.to_set().remove(c).contains(z) by {
                    let k = choose|k: int| 0 <= k < v@.len() && v@[k] == z;
                    if k < i {
                        assert(s[k] == z);
                        assert(s[k] != s[i as int]);
                    } else {
                        assert(s[k + 1] == z);
                        assert(s[k + 1] != s[i as int]);
                    }
                }
                assert forall|z: (i32, i32)| s.to_set().remove(c).contains(z) implies
                    v@.contains(z) by {
                    let k = choose|k: int| 0 <= k < s.len() && s[k] == z;
                    if k < i {
                        assert(v@[k] == z);
                    } else {
                        assert(k != i);
                        assert(v@[k - 1] == z);
                    }
                }
                assert(v@.to_set() =~= s.to_set().remove(c));
                assert forall|p: int, q: int|
                    0 <= p < v@.len() && 0 <= q < v@.len() && p != q implies v@[p] != v@[q] by {
                    let sp: int = if p < i { p } else { p + 1 };
                    let sq: int = if q < i { q } else { q + 1 };
                    assert(v@[p] == s[sp]);
                    assert(v@[q] == s[sq]);
                }
                assert forall|k: int| 0 <= k < v@.len() implies s.contains(#[trigger] v@[k]) by {
                    if k < i {
                        assert(s[k] == v@[k]);
                    } else {
                        assert(s[k + 1] == v@[k]);
                    }
                }
            }
            return ;
        }
        i += 1;
    }
    proof {
        assert(!v@.contains(c));
        assert(v@.to_set() =~= old(v)@.to_set().remove(c));
        assert forall|k: int| 0 <= k < v@.len() implies old(v)@.contains(#[trigger] v@[k]) by {
            assert(old(v)@[k] == v@[k]);
        }
    }
}

/// Fast path: every candidate in the square is known in-bounds, so cells are
/// inserted with no wrap or bounds logic; torus does not matter here.
#[verifier::loop_isolation(false)]
pub fn fast_path_neighbors(pos: (i32, i32), moore: bool, radius: i32, width: i32, height: i32) -> (v: Vec<
    (i32, i32),
>)
    requires
        valid_query(radius as int, width as int, height as int),
        fast_path_applies(pos.0 as int, pos.1 as int, radius as int, width as int, height as int),
    ensures
        v@.no_duplicates(),
        v@.to_set() == square_set(pos.0 as int, pos.1 as int, moore, radius as int),
        forall|i: int| 0 <= i < v@.len() ==> cell_in_extent(#[trigger] v@[i], width, height),
{
    let x = pos.0 as i64;
    let y = pos.1 as i64;
    let r = radius as i64;
    let ghost gx = pos.0 as int;
    let ghost gy = pos.1 as int;
    let ghost gr = radius as int;
    let mut out: Vec<(i32, i32)> = Vec::new();
    let mut nx: i64 = x - r;
    while nx <= x + r
        invariant
            x - r <= nx <= x + r + 1,
            out@.no_duplicates(),
            forall|i: int|
                0 <= i < out@.len() ==> offset_selected(
                    #[trigger] out@[i].0 - gx,
                    out@[i].1 - gy,
                    moore,
                    gr,
                ),
            forall|a: int, b: int|
                #[trigger] offset_selected(a, b, moore, gr) && a < nx - gx ==> out@.contains(
                    result_cell(gx, gy, a, b, false, width as int, height as int),
                ),
        decreases x + r + 1 - nx,
    {
        let mut ny: i64 = y - r;
        while ny <= y + r
            invariant
                y - r <= ny <= y + r + 1,
                x - r <= nx <= x + r,
                out@.no_duplicates(),
                forall|i: int|
                    0 <= i < out@.len() ==> offset_selected(
                        #[trigger] out@[i].0 - gx,
                        out@[i].1 - gy,
                        moore,
                        gr,
                    ),
                forall|a: int, b: int|
                    #[trigger] offset_selected(a, b, moore, gr) && (a < nx - gx || (a == nx - gx && b
                        < ny - gy)) ==> out@.contains(
                        result_cell(gx, gy, a, b, false, width as int, height as int),
                    ),
            decreases y + r + 1 - ny,
        {
            let adx = if nx >= x {
                nx - x
            } else {
                x - nx
            };
            let ady = if ny >= y {
                ny - y
            } else {
                y - ny
            };
            if moore || adx + ady <= r {
                proof {
                    assert(0 <= nx < width as int && 0 <= ny < height as int);
                }
                insert_cell(&mut out, (nx as i32, ny as i32));
                proof {
                    assert((nx as i32, ny as i32) == result_cell(
                        gx,
                        gy,
                        nx - gx,
                        ny - gy,
                        false,
                        width as int,
                        height as int,
                    ));
                }
            }
            proof {
                let a0 = nx as int - gx;
                let b0 = ny as int - gy;
                assert(adx == iabs(a0) && ady == iabs(b0));
                assert forall|a: int, b: int|
                    #[trigger] offset_selected(a, b, moore, gr) && (a < a0 || (a == a0 && b < b0
                        + 1)) implies out@.contains(
                    result_cell(gx, gy, a, b, false, width as int, height as int),
                ) by {
                    if a == a0 && b == b0 {
                        assert(moore || iabs(a0) + iabs(b0) <= gr);
                        assert(out@.contains(result_cell(
                            gx,
                            gy,
                            a0,
                            b0,
                            false,
                            width as int,
                            height as int,
                        )));
                    }
                }
            }
            ny = ny + 1;
        }
        nx = nx + 1;
    }
    proof {
        assert(out@.to_set() =~= square_set(gx, gy, moore, gr)) by {
            assert forall|c: (i32, i32)| square_set(gx, gy, moore, gr).contains(c) implies
                out@.contains(c) by {
                let a = c.0 - gx;
                let b = c.1 - gy;
                assert(out@.contains(result_cell(gx, gy, a, b, false, width as int, height as int)));
                assert(result_cell(gx, gy, a, b, false, width as int, height as int) == c);
            }
        }
    }
    out
}

/// Slow path: every offset in the template is tried; under torus both axes
/// wrap into range, otherwise out-of-bounds candidates are discarded.
#[verifier::loop_isolation(false)]
pub fn slow_path_neighbors(
    pos: (i32, i32),
    moore: bool,
    radius: i32,
    torus: bool,
    width: i32,
    height: i32,
) -> (v: Vec<(i32, i32)>)
    requires
        valid_query(radius as int, width as int, height as int),
    ensures
        v@.no_duplicates(),
        v@.to_set() == enumerated_set(
            pos.0 as int,
            pos.1 as int,
            moore,
            radius as int,
            torus,
            width as int,
            height as int,
        ),
        forall|i: int| 0 <= i < v@.len() ==> cell_in_extent(#[trigger] v@[i], width, height),
{
    let x = pos.0 as i64;
    let y = pos.1 as i64;
    let r = radius as i64;
    let w = width as i64;
    let h = height as i64;
    let ghost gx = pos.0 as int;
    let ghost gy = pos.1 as int;
    let ghost gr = radius as int;
    let ghost gw = width as int;
    let ghost gh = height as int;
    let mut out: Vec<(i32, i32)> = Vec::new();
    let mut dx: i64 = -r;
    while dx <= r
        invariant
            -r <= dx <= r + 1,
            out@.no_duplicates(),
            forall|i: int|
                0 <= i < out@.len() ==> reaches(gx, gy, moore, gr, torus, gw, gh, #[trigger] out@[i]),
            forall|i: int| 0 <= i < out@.len() ==> cell_in_extent(#[trigger] out@[i], width, height),
            forall|a: int, b: int|
                #[trigger] offset_contributes(gx, gy, a, b, moore, gr, torus, gw, gh) && a < dx
                    ==> out@.contains(result_cell(gx, gy, a, b, torus, gw, gh)),
        decreases r + 1 - dx,
    {
        let mut dy: i64 = -r;
        while dy <= r
            invariant
                -r <= dy <= r + 1,
                -r <= dx <= r,
                out@.no_duplicates(),
                forall|i: int|
                    0 <= i < out@.len() ==> reaches(
                        gx,
                        gy,
                        moore,
                        gr,
                        torus,
                        gw,
                        gh,
                        #[trigger] out@[i],
                    ),
                forall|i: int|
                    0 <= i < out@.len() ==> cell_in_extent(#[trigger] out@[i], width, height),
                forall|a: int, b: int|
                    #[trigger] offset_contributes(gx, gy, a, b, moore, gr, torus, gw, gh) && (a < dx
                        || (a == dx && b < dy)) ==> out@.contains(
                        result_cell(gx, gy, a, b, torus, gw, gh),
                    ),
            decreases r + 1 - dy,
        {
            let adx = if dx < 0 {
                -dx
            } else {
                dx
            };
            let ady = if dy < 0 {
                -dy
            } else {
                dy
            };
            if moore || adx + ady <= r {
                let cx0 = x + dx;
                let cy0 = y + dy;
                if torus {
                    let cx = wrap_coord(cx0, w);
                    let cy = wrap_coord(cy0, h);
                    let cell = (cx as i32, cy as i32);
                    proof {
                        assert(cell == result_cell(gx, gy, dx as int, dy as int, torus, gw, gh));
                        assert(offset_contributes(gx, gy, dx as int, dy as int, moore, gr, torus, gw, gh));
                        assert(reaches(gx, gy, moore, gr, torus, gw, gh, cell));
                    }
                    insert_cell(&mut out, cell);
                } else {
                    if 0 <= cx0 && cx0 < w && 0 <= cy0 && cy0 < h {
                        let cell = (cx0 as i32, cy0 as i32);
                        proof {
                            assert(cell == result_cell(gx, gy, dx as int, dy as int, torus, gw, gh));
                            assert(offset_contributes(
                                gx,
                                gy,
                                dx as int,
                                dy as int,
                                moore,
                                gr,
                                torus,
                                gw,
                                gh,
                            ));
                            assert(reaches(gx, gy, moore, gr, torus, gw, gh, cell));
                        }
                        insert_cell(&mut out, cell);
                    }
                }
            }
            proof {
                let a0 = dx as int;
                let b0 = dy as int;
                assert(adx == iabs(a0) && ady == iabs(b0));
                assert forall|a: int, b: int|
                    #[trigger] offset_contributes(gx, gy, a, b, moore, gr, torus, gw, gh) && (a < a0
                        || (a == a0 && b < b0 + 1)) implies out@.contains(
                    result_cell(gx, gy, a, b, torus, gw, gh),
                ) by {
                    if a == a0 && b == b0 {
                        assert(moore || iabs(a0) + iabs(b0) <= gr);
                        assert(candidate_kept(gx, gy, a0, b0, torus, gw, gh));
                        assert(out@.contains(result_cell(gx, gy, a0, b0, torus, gw, gh)));
                    }
                }
            }
            dy = dy + 1;
        }
        dx = dx + 1;
    }
    proof {
        assert(out@.to_set() =~= enumerated_set(gx, gy, moore, gr, torus, gw, gh)) by {
            assert forall|c: (i32, i32)| enumerated_set(gx, gy, moore, gr, torus, gw, gh).contains(
                c,
            ) implies out@.contains(c) by {
                let (a, b) = choose|a: int, b: int|
                    #[trigger] offset_contributes(gx, gy, a, b, moore, gr, torus, gw, gh) && c
                        == result_cell(gx, gy, a, b, torus, gw, gh);
                assert(out@.contains(result_cell(gx, gy, a, b, torus, gw, gh)));
            }
        }
    }
    out
}

/// Under the fast-path precondition the square and the full enumeration
/// coincide, for either torus setting: no candidate can touch an edge, so
/// wrapping is the identity and bounds checks always pass.
pub proof fn lemma_fast_path_matches(
    x: int,
    y: int,
    moore: bool,
    radius: int,
    torus: bool,
    width: int,
    height: int,
)
    requires
        valid_query(radius, width, height),
        width <= i32::MAX,
        height <= i32::MAX,
        fast_path_applies(x, y, radius, width, height),
    ensures
        square_set(x, y, moore, radius) == enumerated_set(x, y, moore, radius, torus, width, height),
{
    assert(square_set(x, y, moore, radius) =~= enumerated_set(
        x,
        y,
        moore,
        radius,
        torus,
        width,
        height,
    )) by {
        assert forall|c: (i32, i32)| square_set(x, y, moore, radius).contains(c) implies
            enumerated_set(x, y, moore, radius, torus, width, height).contains(c) by {
            let a = c.0 - x;
            let b = c.1 - y;
            assert(in_grid(x + a, y + b, width, height));
            if torus {
                lemma_wrap_identity(x + a, width);
                lemma_wrap_identity(y + b, height);
            }
            assert(offset_contributes(x, y, a, b, moore, radius, torus, width, height));
            assert(c == result_cell(x, y, a, b, torus, width, height));
        }
        assert forall|c: (i32, i32)| enumerated_set(x, y, moore, radius, torus, width, height)
            .contains(c) implies square_set(x, y, moore, radius).contains(c) by {
            let (a, b) = choose|a: int, b: int|
                #[trigger] offset_contributes(x, y, a, b, moore, radius, torus, width, height) && c
                    == result_cell(x, y, a, b, torus, width, height);
            assert(in_grid(x + a, y + b, width, height));
            if torus {
                lemma_wrap_identity(x + a, width);
                lemma_wrap_identity(y + b, height);
            }
            assert(c.0 == x + a && c.1 == y + b);
        }
    }
}

/// The set-based strategy: enumerates the neighborhood of pos, deduplicates,
/// and removes the center afterwards when it is not to be included. Rejects
/// a negative radius or a non-positive extent.
pub fn get_neighborhood_set(
    pos: (i32, i32),
    moore: bool,
    include_center: bool,
    radius: i32,
    torus: bool,
    width: i32,
    height: i32,
) -> (result: Result<Vec<(i32, i32)>, NeighborhoodError>)
    ensures
        result is Err <==> !valid_query(radius as int, width as int, height as int),
        result matches Err(e) ==> e == NeighborhoodError::InvalidArgument,
        result matches Ok(v) ==> {
            &&& v@.no_duplicates()
            &&& v@.to_set() == set_result(
                pos.0 as int,
                pos.1 as int,
                moore,
                include_center,
                radius as int,
                torus,
                width as int,
                height as int,
            )
            &&& forall|i: int| 0 <= i < v@.len() ==> cell_in_extent(#[trigger] v@[i], width, height)
        },
{
    if radius < 0 || width <= 0 || height <= 0 {
        return Err(NeighborhoodError::InvalidArgument);
    }
    let (x, y) = pos;
    let mut cells = if x >= radius && width - x > radius && y >= radius && height - y > radius {
        let v = fast_path_neighbors(pos, moore, radius, width, height);
        proof {
            lemma_fast_path_matches(
                pos.0 as int,
                pos.1 as int,
                moore,
                radius as int,
                torus,
                width as int,
                height as int,
            );
        }
        v
    } else {
        slow_path_neighbors(pos, moore, radius, torus, width, height)
    };
    if !include_center {
        let ghost before = cells@;
        remove_cell(&mut cells, pos);
        proof {
            assert forall|i: int| 0 <= i < cells@.len() implies cell_in_extent(
                #[trigger] cells@[i],
                width,
                height,
            ) by {
                let k = choose|k: int| 0 <= k < before.len() && before[k] == cells@[i];
                assert(cell_in_extent(before[k], width, height));
            }
        }
    }
    Ok(cells)
}

} // verus!
