//! Collision and movement: axis-aligned tile overlap, offset normalization
//! by integer square root, and the axis-separated step resolver.
//!
//! Positions are in thousandths of a pixel; one tile is 16 pixels, so
//! `TILE_MILLI` thousandths on a side. Grid cells are anchored at
//! `cell * TILE_MILLI`.

use vstd::prelude::*;
use vstd::arithmetic::div_mod::lemma_div_is_ordered;
use vstd::arithmetic::div_mod::lemma_div_multiples_vanish;
use crate::page::Page;
use crate::page::copy_bytes;

verus! {

/// One tile's side, in thousandths of a pixel.
pub const TILE_MILLI: i64 = 16000;

/// The farthest coordinate the resolver accepts, in thousandths of a pixel.
pub const POS_LIMIT: i64 = 0x4000000000000000;

pub open spec fn sp_abs(a: int) -> int {
    if a >= 0 {
        a
    } else {
        -a
    }
}

/// Two tile-sized squares overlap when their anchors are strictly closer
/// than one tile side on both axes; exact edge contact does not collide.
pub open spec fn sp_collide(x0: int, y0: int, x1: int, y1: int) -> bool {
    sp_abs(x0 - x1) < TILE_MILLI && sp_abs(y0 - y1) < TILE_MILLI
}

/// Whether the square at `(px, py)` overlaps the tile of some cell in `s`.
pub open spec fn sp_cell_hit(s: Seq<((i64, i64), Vec<u8>)>, px: int, py: int) -> bool {
    exists|k: int|
        0 <= k < s.len() && sp_collide(
            px,
            py,
            (#[trigger] s[k]).0.0 as int * TILE_MILLI,
            s[k].0.1 as int * TILE_MILLI,
        )
}

/// Axis-separated movement: commit the X displacement unless some map cell
/// blocks it, then the Y displacement from the possibly-updated position.
pub open spec fn sp_move(
    mp: Seq<((i64, i64), Vec<u8>)>,
    px: int,
    py: int,
    nx: int,
    ny: int,
) -> (int, int) {
    let mx = if !sp_cell_hit(mp, px + nx, py) {
        px + nx
    } else {
        px
    };
    let my = if !sp_cell_hit(mp, mx, py + ny) {
        py + ny
    } else {
        py
    };
    (mx, my)
}

// ---------------------------------------------------------------------------
// Integer square root
// ---------------------------------------------------------------------------

/// The integer square root: the largest `r` with `r * r <= n`.
pub open spec fn sp_isqrt(n: nat) -> nat
    decreases n,
{
    if n == 0 {
        0
    } else {
        let p = sp_isqrt((n - 1) as nat);
        if (p + 1) * (p + 1) <= n {
            (p + 1) as nat
        } else {
            p
        }
    }
}

pub proof fn lemma_isqrt_char(n: nat)
    ensures
        sp_isqrt(n) * sp_isqrt(n) <= n,
        n < (sp_isqrt(n) + 1) * (sp_isqrt(n) + 1),
    decreases n,
{
    if n > 0 {
        lemma_isqrt_char((n - 1) as nat);
        let p = sp_isqrt((n - 1) as nat);
        if (p + 1) * (p + 1) <= n {
            assert(sp_isqrt(n) == p + 1);
            assert(sp_isqrt(n) * sp_isqrt(n) <= n);
            assert(n < (sp_isqrt(n) + 1) * (sp_isqrt(n) + 1)) by (nonlinear_arith)
                requires
                    sp_isqrt(n) == p + 1,
                    p >= 0,
                    (n as int) - 1 < (p + 1) * (p + 1),
            ;
        } else {
            assert(sp_isqrt(n) == p);
            assert(p * p <= n - 1);
            assert(sp_isqrt(n) * sp_isqrt(n) <= n);
            assert(n < (sp_isqrt(n) + 1) * (sp_isqrt(n) + 1));
        }
    } else {
        assert(sp_isqrt(n) == 0);
        assert(sp_isqrt(n) * sp_isqrt(n) <= n) by (nonlinear_arith)
            requires
                sp_isqrt(n) == 0,
                n == 0,
        ;
        assert(n < (sp_isqrt(n) + 1) * (sp_isqrt(n) + 1)) by (nonlinear_arith)
            requires
                sp_isqrt(n) == 0,
                n == 0,
        ;
    }
}

pub proof fn lemma_isqrt_unique(n: nat, r: nat)
    requires
        r * r <= n,
        n < (r + 1) * (r + 1),
    ensures
        r == sp_isqrt(n),
{
    lemma_isqrt_char(n);
    let q = sp_isqrt(n);
    if r < q {
        assert(false) by (nonlinear_arith)
            requires
                r < q,
                q * q <= n,
                n < (r + 1) * (r + 1),
        ;
    }
    if q < r {
        assert(false) by (nonlinear_arith)
            requires
                q < r,
                r * r <= n,
                n < (q + 1) * (q + 1),
        ;
    }
}

/// The integer square root, by bisection.
pub fn isqrt_u128(n: u128) -> (r: u128)
    ensures
        r as nat == sp_isqrt(n as nat),
        (r as int) * (r as int) <= n as int,
        (n as int) < (r as int + 1) * (r as int + 1),
{
    let mut lo: u128 = 0;
    let mut hi: u128 = 18446744073709551616u128;
    proof {
        assert((hi as int) * (hi as int) > n as int) by (nonlinear_arith)
            requires
                hi as int == 18446744073709551616int,
                n as int <= 340282366920938463463374607431768211455int,
        ;
    }
    while lo + 1 < hi
        invariant
            0 <= lo < hi <= 18446744073709551616u128,
            (lo as int) * (lo as int) <= n as int,
            (n as int) < (hi as int) * (hi as int),
        decreases hi - lo,
    {
        let mid = lo + (hi - lo) / 2;
        proof {
            assert((mid as int) * (mid as int)
                <= 18446744073709551615int * 18446744073709551615int) by (nonlinear_arith)
                requires
                    0 <= mid as int <= 18446744073709551615int,
            ;
        }
        if mid * mid <= n {
            lo = mid;
        } else {
            hi = mid;
        }
    }
    proof {
        lemma_isqrt_unique(n as nat, lo as nat);
    }
    lo
}

// ---------------------------------------------------------------------------
// Offset normalization
// ---------------------------------------------------------------------------

/// Division truncating toward zero, for a positive divisor.
pub open spec fn t_div(a: int, b: int) -> int {
    if a >= 0 {
        a / b
    } else {
        -((-a) / b)
    }
}

/// An offset scaled to unit length (one thousand thousandths), truncated
/// toward zero; the zero offset stays zero.
pub open spec fn sp_norm(x: int, y: int) -> (int, int) {
    if x == 0 && y == 0 {
        (0, 0)
    } else {
        let l = sp_isqrt((x * x + y * y) as nat);
        (t_div(x * 1000, l as int), t_div(y * 1000, l as int))
    }
}

/// The prospective position: the current position plus the normalized
/// offset.
pub open spec fn sp_prospective(px: int, py: int, ox: int, oy: int) -> (int, int) {
    let n = sp_norm(ox, oy);
    (px + n.0, py + n.1)
}

proof fn lemma_square_le(a: int, b: int)
    requires
        0 <= a,
        0 <= b,
        a * a < (b + 1) * (b + 1),
    ensures
        a <= b,
{
    if a > b {
        assert(false) by (nonlinear_arith)
            requires
                a >= b + 1,
                b >= 0,
                a * a < (b + 1) * (b + 1),
        ;
    }
}

/// One scaled, truncated component of the normalized offset.
fn norm_component(v: i64, l: u128) -> (r: i64)
    requires
        l >= 1,
        sp_abs(v as int) <= l as int,
    ensures
        r as int == t_div(v as int * 1000, l as int),
        sp_abs(r as int) <= 1000,
{
    let vi: i128 = v as i128;
    let va: u128 = if vi < 0 {
        (-vi) as u128
    } else {
        vi as u128
    };
    let mag: u128 = (va * 1000) / l;
    proof {
        lemma_div_is_ordered(va as int * 1000, l as int * 1000, l as int);
        lemma_div_multiples_vanish(1000, l as int);
        assert(va as int * 1000 <= l as int * 1000);
        assert(mag as int <= 1000);
    }
    if v < 0 {
        -(mag as i64)
    } else {
        mag as i64
    }
}

/// Scale an offset to unit length (one thousand thousandths), truncating
/// toward zero; the zero offset stays zero.
pub fn normalize(x: i64, y: i64) -> (r: (i64, i64))
    ensures
        (r.0 as int, r.1 as int) == sp_norm(x as int, y as int),
        sp_abs(r.0 as int) <= 1000,
        sp_abs(r.1 as int) <= 1000,
{
    if x == 0 && y == 0 {
        return (0, 0);
    }
    let xi: i128 = x as i128;
    let yi: i128 = y as i128;
    let xa: u128 = if xi < 0 {
        (-xi) as u128
    } else {
        xi as u128
    };
    let ya: u128 = if yi < 0 {
        (-yi) as u128
    } else {
        yi as u128
    };
    proof {
        assert(xa as int * (xa as int) == x as int * (x as int) && xa as int <= 9223372036854775808int)
            by (nonlinear_arith)
            requires
                xa as int == sp_abs(x as int),
                -9223372036854775808int <= x as int <= 9223372036854775807int,
        ;
        assert(ya as int * (ya as int) == y as int * (y as int) && ya as int <= 9223372036854775808int)
            by (nonlinear_arith)
            requires
                ya as int == sp_abs(y as int),
                -9223372036854775808int <= y as int <= 9223372036854775807int,
        ;
        assert(xa as int * (xa as int) + ya as int * (ya as int)
            <= 170141183460469231731687303715884105728int) by (nonlinear_arith)
            requires
                0 <= xa as int <= 9223372036854775808int,
                0 <= ya as int <= 9223372036854775808int,
        ;
    }
    let n2: u128 = xa * xa + ya * ya;
    let l: u128 = isqrt_u128(n2);
    proof {
        assert(xa as int >= 1 || ya as int >= 1);
        assert(n2 as int >= 1) by (nonlinear_arith)
            requires
                n2 as int == xa as int * (xa as int) + ya as int * (ya as int),
                xa as int >= 0,
                ya as int >= 0,
                xa as int >= 1 || ya as int >= 1,
        ;
        assert(l >= 1) by {
            if l == 0 {
                assert((n2 as int) < (0 + 1) * (0 + 1));
            }
        }
        lemma_square_le(xa as int, l as int);
        lemma_square_le(ya as int, l as int);
    }
    let nx = norm_component(x, l);
    let ny = norm_component(y, l);
    (nx, ny)
}

// ---------------------------------------------------------------------------
// Collision tests
// ---------------------------------------------------------------------------

/// Whether two tile-sized squares anchored at the two positions overlap:
/// strictly closer than one tile side on both axes; exact edge contact is
/// not a collision.
pub fn rect_collide(x0: i64, y0: i64, x1: i64, y1: i64) -> (r: bool)
    ensures
        r == sp_collide(x0 as int, y0 as int, x1 as int, y1 as int),
{
    let dx: i128 = x0 as i128 - x1 as i128;
    let dy: i128 = y0 as i128 - y1 as i128;
    let ax: i128 = if dx < 0 {
        -dx
    } else {
        dx
    };
    let ay: i128 = if dy < 0 {
        -dy
    } else {
        dy
    };
    ax < TILE_MILLI as i128 && ay < TILE_MILLI as i128
}

/// Whether the square at `(px, py)` overlaps the tile of grid cell
/// `(cx, cy)`.
fn collide_cell(px: i64, py: i64, cx: i64, cy: i64) -> (r: bool)
    ensures
        r == sp_collide(px as int, py as int, cx as int * TILE_MILLI, cy as int * TILE_MILLI),
{
    proof {
        assert(TILE_MILLI == 16000);
    }
    let tx: i128 = cx as i128 * 16000i128;
    let ty: i128 = cy as i128 * 16000i128;
    let dx: i128 = px as i128 - tx;
    let dy: i128 = py as i128 - ty;
    let ax: i128 = if dx < 0 {
        -dx
    } else {
        dx
    };
    let ay: i128 = if dy < 0 {
        -dy
    } else {
        dy
    };
    ax < TILE_MILLI as i128 && ay < TILE_MILLI as i128
}

/// Whether some cell of `s` overlaps the square at `(px, py)`.
fn any_cell_hit(s: &Vec<((i64, i64), Vec<u8>)>, px: i64, py: i64) -> (r: bool)
    ensures
        r == sp_cell_hit(s@, px as int, py as int),
{
    let mut k: usize = 0;
    while k < s.len()
        invariant
            0 <= k <= s@.len(),
            forall|q: int|
                0 <= q < k ==> !sp_collide(
                    px as int,
                    py as int,
                    (#[trigger] s@[q]).0.0 as int * TILE_MILLI,
                    s@[q].0.1 as int * TILE_MILLI,
                ),
        decreases s@.len() - k,
    {
        let c = s[k].0;
        if collide_cell(px, py, c.0, c.1) {
            return true;
        }
        k += 1;
    }
    false
}

// ---------------------------------------------------------------------------
// The step resolver
// ---------------------------------------------------------------------------

/// What one simulation step yields: a new position, or contact with a
/// linked cell carrying that link's raw value.
#[derive(PartialEq, Eq, Debug)]
pub enum StepOutcome {
    Moved((i64, i64)),
    LinkActivated(Vec<u8>),
}

/// Resolve one step: normalize the desired offset, check the prospective
/// position against every linked cell first, and only where no link fires
/// apply axis-separated movement against the map. Only cells present in the
/// map block movement; the background is always walkable.
pub fn resolve_step(page: &Page, px: i64, py: i64, ox: i64, oy: i64) -> (r: StepOutcome)
    requires
        sp_abs(px as int) <= POS_LIMIT,
        sp_abs(py as int) <= POS_LIMIT,
    ensures
        (r is LinkActivated) == sp_cell_hit(
            page.links@,
            sp_prospective(px as int, py as int, ox as int, oy as int).0,
            sp_prospective(px as int, py as int, ox as int, oy as int).1,
        ),
        r matches StepOutcome::LinkActivated(l) ==> exists|k: int|
            0 <= k < page.links@.len() && sp_collide(
                sp_prospective(px as int, py as int, ox as int, oy as int).0,
                sp_prospective(px as int, py as int, ox as int, oy as int).1,
                (#[trigger] page.links@[k]).0.0 as int * TILE_MILLI,
                page.links@[k].0.1 as int * TILE_MILLI,
            ) && l@ == page.links@[k].1@,
        r matches StepOutcome::Moved(p) ==> (p.0 as int, p.1 as int) == sp_move(
            page.map@,
            px as int,
            py as int,
            sp_norm(ox as int, oy as int).0,
            sp_norm(ox as int, oy as int).1,
        ),
        r matches StepOutcome::Moved(p) ==> sp_abs(p.0 as int) <= POS_LIMIT + 1000 && sp_abs(
            p.1 as int,
        ) <= POS_LIMIT + 1000,
{
    let (nx, ny) = normalize(ox, oy);
    let qx = px + nx;
    let qy = py + ny;
    proof {
        let nsp = sp_norm(ox as int, oy as int);
        assert(nx as int == nsp.0);
        assert(ny as int == nsp.1);
        assert(qx as int == sp_prospective(px as int, py as int, ox as int, oy as int).0);
        assert(qy as int == sp_prospective(px as int, py as int, ox as int, oy as int).1);
    }
    let mut k: usize = 0;
    while k < page.links.len()
        invariant
            0 <= k <= page.links@.len(),
            qx as int == sp_prospective(px as int, py as int, ox as int, oy as int).0,
            qy as int == sp_prospective(px as int, py as int, ox as int, oy as int).1,
            sp_abs(qx as int) <= POS_LIMIT + 1000,
            sp_abs(qy as int) <= POS_LIMIT + 1000,
            forall|q: int|
                0 <= q < k ==> !sp_collide(
                    qx as int,
                    qy as int,
                    (#[trigger] page.links@[q]).0.0 as int * TILE_MILLI,
                    page.links@[q].0.1 as int * TILE_MILLI,
                ),
        decreases page.links@.len() - k,
    {
        let c = page.links[k].0;
        if collide_cell(qx, qy, c.0, c.1) {
            proof {
                assert((qx as int, qy as int) == sp_prospective(
                    px as int,
                    py as int,
                    ox as int,
                    oy as int,
                ));
                assert(sp_collide(
                    qx as int,
                    qy as int,
                    (page.links@[k as int]).0.0 as int * TILE_MILLI,
                    page.links@[k as int].0.1 as int * TILE_MILLI,
                ));
            }
            let raw = copy_bytes(&page.links[k].1);
            return StepOutcome::LinkActivated(raw);
        }
        k += 1;
    }
    let mx = if !any_cell_hit(&page.map, qx, py) {
        qx
    } else {
        px
    };
    let my = if !any_cell_hit(&page.map, mx, qy) {
        qy
    } else {
        py
    };
    StepOutcome::Moved((mx, my))
}

/// Apply axis-separated movement only, without the link check: the plain
/// movement a step applies when its link contact turns out inert.
pub fn move_step(page: &Page, px: i64, py: i64, ox: i64, oy: i64) -> (r: (i64, i64))
    requires
        sp_abs(px as int) <= POS_LIMIT,
        sp_abs(py as int) <= POS_LIMIT,
    ensures
        (r.0 as int, r.1 as int) == sp_move(
            page.map@,
            px as int,
            py as int,
            sp_norm(ox as int, oy as int).0,
            sp_norm(ox as int, oy as int).1,
        ),
        sp_abs(r.0 as int) <= POS_LIMIT + 1000,
        sp_abs(r.1 as int) <= POS_LIMIT + 1000,
{
    let (nx, ny) = normalize(ox, oy);
    let qx = px + nx;
    let qy = py + ny;
    let mx = if !any_cell_hit(&page.map, qx, py) {
        qx
    } else {
        px
    };
    let my = if !any_cell_hit(&page.map, mx, qy) {
        qy
    } else {
        py
    };
    (mx, my)
}

// ---------------------------------------------------------------------------
// Laws
// ---------------------------------------------------------------------------

/// Axis separation: where the X displacement is blocked by some map cell
/// but the Y displacement from the unchanged X is clear, the step still
/// applies the whole Y component, so a diagonal walk into a wall slides
/// along it.
pub proof fn lemma_axis_separation(
    mp: Seq<((i64, i64), Vec<u8>)>,
    px: int,
    py: int,
    nx: int,
    ny: int,
)
    requires
        sp_cell_hit(mp, px + nx, py),
        !sp_cell_hit(mp, px, py + ny),
        ny != 0,
    ensures
        sp_move(mp, px, py, nx, ny) == (px, py + ny),
        sp_move(mp, px, py, nx, ny).1 != py,
{
}

/// Link contact precedes collision: a cell listed among the links fires on
/// overlap with the prospective position, so a cell marked as both a
/// blocking map tile and a link yields `LinkActivated` from `resolve_step`
/// (whose outcome is `LinkActivated` exactly when some linked cell
/// overlaps), never blocked movement.
pub proof fn lemma_link_precedes_collision(
    mp: Seq<((i64, i64), Vec<u8>)>,
    links: Seq<((i64, i64), Vec<u8>)>,
    k: int,
    qx: int,
    qy: int,
)
    requires
        0 <= k < links.len(),
        sp_cell_hit(mp, qx, qy),
        sp_collide(qx, qy, links[k].0.0 as int * TILE_MILLI, links[k].0.1 as int * TILE_MILLI),
    ensures
        sp_cell_hit(links, qx, qy),
{
}

} // verus!
