//! Brute-force pairwise collision resolution: a single Jacobi-style
//! relaxation sweep per substep.  All pair corrections are computed from the
//! same pre-sweep snapshot — in parallel across outer indices — and applied
//! afterward in one sequential pass.

use vstd::prelude::*;

verus! {

use crate::constraints::axis_of;
use crate::math::{div_floor_i128, sat64, sat_to_i64, sqrt_floor};
use crate::object::PhysObject;
use crate::vec2::Vec2;
use crate::MAX_COORD;

/// One pair's corrections, or nothing when the pair does not overlap.
/// Overlap means the separation is strictly below the sum of the radii; the
/// corrections push the particles apart along the axis, split by inverse-mass
/// weighting.  A pair with a non-finite position never collides.
pub open spec fn collide_pair_spec(a: PhysObject, b: PhysObject) -> Option<(Vec2, Vec2)> {
    if !a.pos.finite() || !b.pos.finite() {
        Option::None
    } else {
        let axis = axis_of(a.pos, b.pos);
        let lsq = axis.0 * axis.0 + axis.1 * axis.1;
        let combined = a.radius + b.radius;
        if lsq < combined * combined {
            let d = sqrt_floor(lsq as nat) as int;
            let delta = combined - d;
            let m = a.mass + b.mass;
            Option::Some(
                (
                    Vec2 {
                        x: sat64((axis.0 * (delta * b.mass)) / (d * m)),
                        y: sat64((axis.1 * (delta * b.mass)) / (d * m)),
                    },
                    Vec2 {
                        x: sat64(-((axis.0 * (delta * a.mass)) / (d * m))),
                        y: sat64(-((axis.1 * (delta * a.mass)) / (d * m))),
                    },
                ),
            )
        } else {
            Option::None
        }
    }
}

/// Evaluate one unordered pair.
pub fn collide_pair(a: &PhysObject, b: &PhysObject) -> (r: Option<(Vec2, Vec2)>)
    requires
        a.wf(),
        b.wf(),
    ensures
        r == collide_pair_spec(*a, *b),
{
    if !(a.pos.is_finite() && b.pos.is_finite()) {
        return Option::None;
    }
    let dx = a.pos.x - b.pos.x;
    let dy = a.pos.y - b.pos.y;
    let (ax, ay): (i64, i64) = if dx == 0 && dy == 0 {
        (1, 1)
    } else {
        (dx, dy)
    };
    proof {
        crate::math::lemma_square_bounds(ax as int, 2 * MAX_COORD as int);
        crate::math::lemma_square_bounds(ay as int, 2 * MAX_COORD as int);
        crate::math::lemma_square_bounds(a.radius as int + b.radius as int, 2 * MAX_COORD as int);
        assert(ax != 0 || ay != 0);
        assert(ax as int * ax as int + ay as int * ay as int >= 1) by (nonlinear_arith)
            requires
                ax != 0 || ay != 0,
        ;
    }
    let lsq: i128 = (ax as i128) * (ax as i128) + (ay as i128) * (ay as i128);
    let combined: i64 = a.radius + b.radius;
    if lsq < (combined as i128) * (combined as i128) {
        let d = crate::math::isqrt64(lsq as u64);
        let delta: i64 = combined - (d as i64);
        let m: i64 = a.mass + b.mass;
        proof {
            crate::math::lemma_mul_abs_bound(
                delta as int,
                b.mass as int,
                0x2_0000_0000 + MAX_COORD as int,
                crate::MAX_MASS as int,
            );
            crate::math::lemma_mul_abs_bound(
                delta as int,
                a.mass as int,
                0x2_0000_0000 + MAX_COORD as int,
                crate::MAX_MASS as int,
            );
            crate::math::lemma_mul_abs_bound(
                ax as int,
                delta as int * b.mass as int,
                2 * MAX_COORD as int,
                (0x2_0000_0000 + MAX_COORD as int) * crate::MAX_MASS as int,
            );
            crate::math::lemma_mul_abs_bound(
                ay as int,
                delta as int * b.mass as int,
                2 * MAX_COORD as int,
                (0x2_0000_0000 + MAX_COORD as int) * crate::MAX_MASS as int,
            );
            crate::math::lemma_mul_abs_bound(
                ax as int,
                delta as int * a.mass as int,
                2 * MAX_COORD as int,
                (0x2_0000_0000 + MAX_COORD as int) * crate::MAX_MASS as int,
            );
            crate::math::lemma_mul_abs_bound(
                ay as int,
                delta as int * a.mass as int,
                2 * MAX_COORD as int,
                (0x2_0000_0000 + MAX_COORD as int) * crate::MAX_MASS as int,
            );
            assert(d as int * m as int >= 1) by (nonlinear_arith)
                requires
                    d as int >= 1,
                    m as int >= 2,
            ;
            crate::math::lemma_mul_abs_bound(
                d as int,
                m as int,
                0x1_0000_0000,
                2 * crate::MAX_MASS as int,
            );
        }
        let den: i128 = (d as i128) * (m as i128);
        let ta = Vec2 {
            x: sat_to_i64(div_floor_i128((ax as i128) * ((delta as i128) * (b.mass as i128)), den)),
            y: sat_to_i64(div_floor_i128((ay as i128) * ((delta as i128) * (b.mass as i128)), den)),
        };
        let tb = Vec2 {
            x: sat_to_i64(-div_floor_i128((ax as i128) * ((delta as i128) * (a.mass as i128)), den)),
            y: sat_to_i64(-div_floor_i128((ay as i128) * ((delta as i128) * (a.mass as i128)), den)),
        };
        Option::Some((ta, tb))
    } else {
        Option::None
    }
}

/// Mass conservation in collisions: for an overlapping pair whose weighted
/// corrections divide exactly, the mass-weighted sum of the two displacements
/// is zero in each component — the centre of mass does not move.  With the
/// kernel's floor division, a pair whose products do not divide exactly can
/// be off by the rounding of one division.
pub proof fn lemma_collision_mass_conservation(a: PhysObject, b: PhysObject)
    requires
        a.wf(),
        b.wf(),
        a.pos.finite(),
        b.pos.finite(),
        collide_pair_spec(a, b) is Some,
        ({
            let axis = axis_of(a.pos, b.pos);
            let lsq = axis.0 * axis.0 + axis.1 * axis.1;
            let d = sqrt_floor(lsq as nat) as int;
            let delta = (a.radius + b.radius) - d;
            let den = d * (a.mass + b.mass);
            &&& (axis.0 * (delta * b.mass)) % den == 0
            &&& (axis.1 * (delta * b.mass)) % den == 0
            &&& (axis.0 * (delta * a.mass)) % den == 0
            &&& (axis.1 * (delta * a.mass)) % den == 0
        }),
    ensures
        ({
            let t = collide_pair_spec(a, b)->0;
            &&& a.mass * t.0.x + b.mass * t.1.x == 0
            &&& a.mass * t.0.y + b.mass * t.1.y == 0
        }),
{
    let axis = axis_of(a.pos, b.pos);
    let lsq = axis.0 * axis.0 + axis.1 * axis.1;
    let d = sqrt_floor(lsq as nat) as int;
    let delta = (a.radius + b.radius) - d;
    let m = a.mass + b.mass;
    let den = d * m;
    crate::math::lemma_sqrt_floor_bounds(lsq as nat);
    crate::math::lemma_square_bounds(axis.0, 2 * MAX_COORD as int);
    crate::math::lemma_square_bounds(axis.1, 2 * MAX_COORD as int);
    assert(axis.0 != 0 || axis.1 != 0);
    assert(lsq >= 1) by (nonlinear_arith)
        requires
            axis.0 != 0 || axis.1 != 0,
            lsq == axis.0 * axis.0 + axis.1 * axis.1,
    ;
    assert(d >= 1 && d <= 0x1_0000_0000 && -d <= axis.0 <= d && -d <= axis.1 <= d)
        by (nonlinear_arith)
        requires
            lsq >= 1,
            d * d <= lsq,
            lsq < (d + 1) * (d + 1),
            d >= 0,
            lsq <= 2 * ((2 * MAX_COORD as int) * (2 * MAX_COORD as int)),
            axis.0 * axis.0 <= lsq,
            axis.1 * axis.1 <= lsq,
            lsq == axis.0 * axis.0 + axis.1 * axis.1,
    ;
    lemma_exact_weighted_share(axis.0, delta, a.mass as int, b.mass as int, d);
    lemma_exact_weighted_share(axis.1, delta, a.mass as int, b.mass as int, d);
}

/// For one component: when both weighted corrections divide exactly, they are
/// small enough to escape saturation and balance each other's momentum.
proof fn lemma_exact_weighted_share(ax: int, delta: int, ma: int, mb: int, d: int)
    requires
        1 <= ma <= crate::MAX_MASS,
        1 <= mb <= crate::MAX_MASS,
        d >= 1,
        -(0x2_0000_0000 + MAX_COORD as int) <= delta <= 0x2_0000_0000 + MAX_COORD as int,
        -d <= ax <= d,
        (ax * (delta * mb)) % (d * (ma + mb)) == 0,
        (ax * (delta * ma)) % (d * (ma + mb)) == 0,
    ensures
        ({
            let den = d * (ma + mb);
            let qa = (ax * (delta * mb)) / den;
            let qb = (ax * (delta * ma)) / den;
            &&& sat64(qa) == qa
            &&& sat64(-qb) == -qb
            &&& ma * qa + mb * (-qb) == 0
        }),
{
    let den = d * (ma + mb);
    let na = ax * (delta * mb);
    let nb = ax * (delta * ma);
    let qa = na / den;
    let qb = nb / den;
    assert(den >= 1) by (nonlinear_arith)
        requires
            d >= 1,
            ma + mb >= 2,
            den == d * (ma + mb),
    ;
    vstd::arithmetic::div_mod::lemma_fundamental_div_mod(na, den);
    vstd::arithmetic::div_mod::lemma_fundamental_div_mod(nb, den);
    assert(na == den * qa);
    assert(nb == den * qb);
    let bd = 0x2_0000_0000 + MAX_COORD as int;
    // |qa| <= |delta|·mb and |qb| <= |delta|·ma, so neither saturates
    assert(-(bd * crate::MAX_MASS as int) <= qa <= bd * crate::MAX_MASS as int)
        by (nonlinear_arith)
        requires
            na == den * qa,
            na == ax * (delta * mb),
            den == d * (ma + mb),
            d >= 1,
            ma + mb >= 2,
            -d <= ax <= d,
            1 <= mb,
            -bd <= delta <= bd,
            mb <= crate::MAX_MASS,
            bd == 0x2_0000_0000 + MAX_COORD as int,
    ;
    assert(-(bd * crate::MAX_MASS as int) <= qb <= bd * crate::MAX_MASS as int)
        by (nonlinear_arith)
        requires
            nb == den * qb,
            nb == ax * (delta * ma),
            den == d * (ma + mb),
            d >= 1,
            ma + mb >= 2,
            -d <= ax <= d,
            1 <= ma,
            -bd <= delta <= bd,
            ma <= crate::MAX_MASS,
            bd == 0x2_0000_0000 + MAX_COORD as int,
    ;
    assert(ma * qa == mb * qb) by (nonlinear_arith)
        requires
            na == den * qa,
            nb == den * qb,
            na == ax * (delta * mb),
            nb == ax * (delta * ma),
            den >= 1,
    ;
    assert(bd * (crate::MAX_MASS as int) < (i64::MAX as int)) by (nonlinear_arith)
        requires
            bd == 0x2_0000_0000 + MAX_COORD as int,
    ;
    assert(ma * qa + mb * (-qb) == 0) by (nonlinear_arith)
        requires
            ma * qa == mb * qb,
    ;
}

/// Mass conservation in collisions, general form: for every overlapping
/// pair, the mass-weighted sum of the two displacements is, per component,
/// strictly within one unit of rounding of zero — above `-m_a` and below
/// `m_b` — and exactly zero when the divisions are exact (the lemma above).
pub proof fn lemma_collision_mass_balance_bound(a: PhysObject, b: PhysObject)
    requires
        a.wf(),
        b.wf(),
        a.pos.finite(),
        b.pos.finite(),
        collide_pair_spec(a, b) is Some,
    ensures
        ({
            let t = collide_pair_spec(a, b)->0;
            &&& -a.mass < a.mass * t.0.x + b.mass * t.1.x < b.mass
            &&& -a.mass < a.mass * t.0.y + b.mass * t.1.y < b.mass
        }),
{
    let axis = axis_of(a.pos, b.pos);
    let lsq = axis.0 * axis.0 + axis.1 * axis.1;
    let d = sqrt_floor(lsq as nat) as int;
    crate::math::lemma_sqrt_floor_bounds(lsq as nat);
    crate::math::lemma_square_bounds(axis.0, 2 * MAX_COORD as int);
    crate::math::lemma_square_bounds(axis.1, 2 * MAX_COORD as int);
    assert(axis.0 != 0 || axis.1 != 0);
    assert(lsq >= 1) by (nonlinear_arith)
        requires
            axis.0 != 0 || axis.1 != 0,
            lsq == axis.0 * axis.0 + axis.1 * axis.1,
    ;
    assert(d >= 1 && d <= 0x1_0000_0000 && -d <= axis.0 <= d && -d <= axis.1 <= d)
        by (nonlinear_arith)
        requires
            lsq >= 1,
            d * d <= lsq,
            lsq < (d + 1) * (d + 1),
            d >= 0,
            lsq <= 2 * ((2 * MAX_COORD as int) * (2 * MAX_COORD as int)),
            axis.0 * axis.0 <= lsq,
            axis.1 * axis.1 <= lsq,
            lsq == axis.0 * axis.0 + axis.1 * axis.1,
    ;
    let delta = (a.radius + b.radius) - d;
    lemma_weighted_share_bound(axis.0, delta, a.mass as int, b.mass as int, d);
    lemma_weighted_share_bound(axis.1, delta, a.mass as int, b.mass as int, d);
}

/// For one component of any pair: the two floor-divided weighted shares stay
/// far from saturation, and their mass-weighted difference lies strictly
/// between `-ma` and `mb` (the rounding left over from the two divisions).
proof fn lemma_weighted_share_bound(ax: int, delta: int, ma: int, mb: int, d: int)
    requires
        1 <= ma <= crate::MAX_MASS,
        1 <= mb <= crate::MAX_MASS,
        d >= 1,
        -(0x2_0000_0000 + MAX_COORD as int) <= delta <= 0x2_0000_0000 + MAX_COORD as int,
        -d <= ax <= d,
    ensures
        ({
            let den = d * (ma + mb);
            let qa = (ax * (delta * mb)) / den;
            let qb = (ax * (delta * ma)) / den;
            &&& sat64(qa) == qa
            &&& sat64(-qb) == -qb
            &&& -ma < ma * qa + mb * (-qb) < mb
        }),
{
    let den = d * (ma + mb);
    let na = ax * (delta * mb);
    let nb = ax * (delta * ma);
    let qa = na / den;
    let qb = nb / den;
    assert(den >= 1) by (nonlinear_arith)
        requires
            d >= 1,
            ma + mb >= 2,
            den == d * (ma + mb),
    ;
    vstd::arithmetic::div_mod::lemma_fundamental_div_mod(na, den);
    vstd::arithmetic::div_mod::lemma_fundamental_div_mod(nb, den);
    let ra = na % den;
    let rb = nb % den;
    assert(na == den * qa + ra && 0 <= ra < den);
    assert(nb == den * qb + rb && 0 <= rb < den);
    let bd = 0x2_0000_0000 + MAX_COORD as int;
    // neither share saturates: |q|·den ≤ |n| + den ≤ d·(|delta|·mass) + den
    assert(-(bd * crate::MAX_MASS as int + ma + mb) <= qa <= bd * crate::MAX_MASS as int + ma
        + mb) by (nonlinear_arith)
        requires
            na == den * qa + ra,
            0 <= ra < den,
            na == ax * (delta * mb),
            den == d * (ma + mb),
            d >= 1,
            ma + mb >= 2,
            -d <= ax <= d,
            1 <= mb,
            -bd <= delta <= bd,
            mb <= crate::MAX_MASS,
            bd == 0x2_0000_0000 + MAX_COORD as int,
    ;
    assert(-(bd * crate::MAX_MASS as int + ma + mb) <= qb <= bd * crate::MAX_MASS as int + ma
        + mb) by (nonlinear_arith)
        requires
            nb == den * qb + rb,
            0 <= rb < den,
            nb == ax * (delta * ma),
            den == d * (ma + mb),
            d >= 1,
            ma + mb >= 2,
            -d <= ax <= d,
            1 <= ma,
            -bd <= delta <= bd,
            ma <= crate::MAX_MASS,
            bd == 0x2_0000_0000 + MAX_COORD as int,
    ;
    assert(bd * (crate::MAX_MASS as int) + 2 * (crate::MAX_MASS as int) < (i64::MAX as int))
        by (nonlinear_arith)
        requires
            bd == 0x2_0000_0000 + MAX_COORD as int,
    ;
    // the weighted numerators agree, so the rounding remainders carry the
    // whole imbalance
    assert(ma * na == mb * nb) by (nonlinear_arith)
        requires
            na == ax * (delta * mb),
            nb == ax * (delta * ma),
    ;
    assert(den * (ma * qa - mb * qb) == mb * rb - ma * ra) by (nonlinear_arith)
        requires
            ma * na == mb * nb,
            na == den * qa + ra,
            nb == den * qb + rb,
    ;
    assert(-(ma * den) < mb * rb - ma * ra && mb * rb - ma * ra < mb * den) by (nonlinear_arith)
        requires
            0 <= ra < den,
            0 <= rb < den,
            ma >= 1,
            mb >= 1,
    ;
    assert(-ma < ma * qa - mb * qb && ma * qa - mb * qb < mb) by (nonlinear_arith)
        requires
            den * (ma * qa - mb * qb) == mb * rb - ma * ra,
            -(ma * den) < mb * rb - ma * ra,
            mb * rb - ma * ra < mb * den,
            den >= 1,
    ;
    assert(ma * qa + mb * (-qb) == ma * qa - mb * qb) by (nonlinear_arith);
}

/// The corrections produced by pairs `(i, i+1) .. (i, j-1)`, in order.
pub open spec fn collide_row_upto(s: Seq<PhysObject>, i: int, j: int) -> Seq<
    ((usize, Vec2), (usize, Vec2)),
>
    decreases j - i,
{
    if j <= i + 1 {
        Seq::empty()
    } else {
        collide_row_upto(s, i, j - 1) + (match collide_pair_spec(s[i], s[j - 1]) {
            Option::Some(t) => seq![((i as usize, t.0), ((j - 1) as usize, t.1))],
            Option::None => Seq::empty(),
        })
    }
}

/// All corrections from pairs whose first index is `i`.
pub open spec fn collide_row_spec(s: Seq<PhysObject>, i: int) -> Seq<
    ((usize, Vec2), (usize, Vec2)),
> {
    collide_row_upto(s, i, s.len() as int)
}

/// Evaluate one outer index's pairs against the snapshot.
pub fn collide_row(objs: &Vec<PhysObject>, i: usize) -> (r: Vec<((usize, Vec2), (usize, Vec2))>)
    requires
        i < objs@.len(),
        forall|k: int| 0 <= k < objs@.len() ==> #[trigger] objs@[k].wf(),
    ensures
        r@ == collide_row_spec(objs@, i as int),
{
    let mut r: Vec<((usize, Vec2), (usize, Vec2))> = Vec::new();
    let n = objs.len();
    let mut j: usize = i + 1;
    while j < n
        invariant
            n == objs@.len(),
            i < n,
            i + 1 <= j <= n,
            forall|k: int| 0 <= k < objs@.len() ==> #[trigger] objs@[k].wf(),
            r@ == collide_row_upto(objs@, i as int, j as int),
        decreases n - j,
    {
        let a = objs[i];
        let b = objs[j];
        if let Option::Some(t) = collide_pair(&a, &b) {
            r.push(((i, t.0), (j, t.1)));
        }
        j = j + 1;
    }
    r
}

/// A positional correction: `pos += t`, saturating.
pub open spec fn add_corr(p: PhysObject, t: Vec2) -> PhysObject {
    PhysObject { pos: Vec2 { x: sat64(p.pos.x + t.x), y: sat64(p.pos.y + t.y) }, ..p }
}

/// Apply the first `k` collected corrections, each to both of its particles
/// in order.
pub open spec fn apply_corrections(
    s: Seq<PhysObject>,
    rs: Seq<((usize, Vec2), (usize, Vec2))>,
    k: int,
) -> Seq<PhysObject>
    decreases k,
{
    if k <= 0 {
        s
    } else {
        let s1 = apply_corrections(s, rs, k - 1);
        let e = rs[k - 1];
        if (e.0.0 as int) < s1.len() && (e.1.0 as int) < s1.len() {
            let s2 = s1.update(e.0.0 as int, add_corr(s1[e.0.0 as int], e.0.1));
            s2.update(e.1.0 as int, add_corr(s2[e.1.0 as int], e.1.1))
        } else {
            s1
        }
    }
}

/// The corrections of rows `0 .. i`, concatenated in row order.
pub open spec fn collect_rows(s: Seq<PhysObject>, i: int) -> Seq<((usize, Vec2), (usize, Vec2))>
    decreases i,
{
    if i <= 0 {
        Seq::empty()
    } else {
        collect_rows(s, i - 1) + collide_row_spec(s, i - 1)
    }
}

/// One full collision sweep over a snapshot.
pub open spec fn collisions_spec(s: Seq<PhysObject>) -> Seq<PhysObject> {
    let all = collect_rows(s, s.len() as int);
    apply_corrections(s, all, all.len() as int)
}

/// Resolve all pairwise collisions: map every unordered pair over the
/// snapshot (rows in parallel), then apply every correction sequentially.
pub fn resolve_collisions(objs: &mut Vec<PhysObject>)
    requires
        forall|k: int| 0 <= k < old(objs)@.len() ==> #[trigger] old(objs)@[k].wf(),
    ensures
        final(objs)@ == collisions_spec(old(objs)@),
{
    let n = objs.len();
    let ghost snapshot = objs@;
    let mut rows = {
        let objs_ref = &*objs;
        let row_fn = |i: usize| -> (r: Vec<((usize, Vec2), (usize, Vec2))>)
            requires
                i < objs_ref@.len(),
                forall|k: int| 0 <= k < objs_ref@.len() ==> #[trigger] objs_ref@[k].wf(),
            ensures
                r@ == collide_row_spec(objs_ref@, i as int),
            { collide_row(objs_ref, i) };
        crate::for_pairs::par_map(n, &row_fn)
    };
    let mut all: Vec<((usize, Vec2), (usize, Vec2))> = Vec::new();
    let mut i: usize = 0;
    while i < n
        invariant
            rows@.len() == n,
            forall|k: int|
                i <= k < n ==> #[trigger] rows@[k]@ == collide_row_spec(snapshot, k),
            all@ == collect_rows(snapshot, i as int),
            i <= n,
        decreases n - i,
    {
        all.append(&mut rows[i]);
        i = i + 1;
    }
    let m = all.len();
    let mut k: usize = 0;
    while k < m
        invariant
            m == all@.len(),
            n == objs@.len(),
            snapshot.len() == n,
            k <= m,
            objs@ == apply_corrections(snapshot, all@, k as int),
        decreases m - k,
    {
        let e = all[k];
        let ii = e.0.0;
        let jj = e.1.0;
        if ii < n && jj < n {
            let pi = objs[ii];
            objs[ii].pos = Vec2 {
                x: sat_to_i64(pi.pos.x as i128 + e.0.1.x as i128),
                y: sat_to_i64(pi.pos.y as i128 + e.0.1.y as i128),
            };
            let pj = objs[jj];
            objs[jj].pos = Vec2 {
                x: sat_to_i64(pj.pos.x as i128 + e.1.1.x as i128),
                y: sat_to_i64(pj.pos.y as i128 + e.1.1.y as i128),
            };
        }
        k = k + 1;
    }
}

} // verus!
