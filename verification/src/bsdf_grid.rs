//! The integer side of approximating a measured BSDF: which shapes the
//! `luminance` and `spectra` fields must have, and which of their entries
//! are sampled.

use vstd::prelude::*;
use vstd::arithmetic::div_mod::lemma_fundamental_div_mod_converse;

verus! {

/// Where the samples of the `luminance` field stand: its grid sizes, the
/// entry at the centre of the first angle slice, and the centre of the last.
#[derive(Debug, Clone, Copy, PartialEq, Eq, Structural)]
pub struct LuminanceGrid {
    pub n_theta: usize,
    pub n_u: usize,
    pub n_v: usize,
    pub normal_index: usize,
    pub grazing_index: usize,
}

/// What the shape of the `luminance` field gives.
#[derive(Debug, Clone, Copy, PartialEq, Eq, Structural)]
pub enum LuminanceShape {
    /// Not four dimensions, or one of them is zero.
    Rejected,
    /// A sample index does not fit in `usize`.
    Overflow,
    Grid(LuminanceGrid),
}

/// The index of the centre entry of the angle slice `t`, on an
/// `n_u` by `n_v` grid.
pub open spec fn centre_index(t: int, n_u: int, n_v: int) -> int {
    t * n_u * n_v + (n_u / 2) * n_v + n_v / 2
}

/// What the shape of the `luminance` field gives: its dimensions 1 to 3 as
/// `usize` are the angle count and the grid, none of the four may be zero,
/// and the samples are the grid centres of the first and the last angle.
pub open spec fn luminance_shape_spec(shape: Seq<u64>) -> LuminanceShape {
    if shape.len() != 4 {
        LuminanceShape::Rejected
    } else {
        let n_theta = shape[1] as usize;
        let n_u = shape[2] as usize;
        let n_v = shape[3] as usize;
        if shape[0] == 0 || n_theta == 0 || n_u == 0 || n_v == 0 {
            LuminanceShape::Rejected
        } else if centre_index(n_theta - 1, n_u as int, n_v as int) > usize::MAX {
            LuminanceShape::Overflow
        } else {
            LuminanceShape::Grid(
                LuminanceGrid {
                    n_theta,
                    n_u,
                    n_v,
                    normal_index: centre_index(0, n_u as int, n_v as int) as usize,
                    grazing_index: centre_index(n_theta - 1, n_u as int, n_v as int) as usize,
                },
            )
        }
    }
}

/// Checks the shape of the `luminance` field and places its samples.
pub fn luminance_grid(shape: &Vec<u64>) -> (r: LuminanceShape)
    ensures
        r == luminance_shape_spec(shape@),
{
    if shape.len() != 4 {
        return LuminanceShape::Rejected;
    }
    let n_theta = shape[1] as usize;
    let n_u = shape[2] as usize;
    let n_v = shape[3] as usize;
    if shape[0] == 0 || n_theta == 0 || n_u == 0 || n_v == 0 {
        return LuminanceShape::Rejected;
    }
    let cu = n_u / 2;
    let cv = n_v / 2;
    let ghost t: int = n_theta - 1;
    let ghost total: int = centre_index(t, n_u as int, n_v as int);
    proof {
        assert(t * n_u <= t * n_u * n_v) by (nonlinear_arith)
            requires
                t >= 0,
                n_u >= 1,
                n_v >= 1,
        ;
        assert(0 <= t * n_u * n_v) by (nonlinear_arith)
            requires
                t >= 0,
                n_u >= 0,
                n_v >= 0,
        ;
        assert(0 <= cu * n_v) by (nonlinear_arith)
            requires
                cu >= 0,
                n_v >= 0,
        ;
    }
    let a = match (n_theta - 1).checked_mul(n_u) {
        Some(a) => a,
        None => {
            return LuminanceShape::Overflow;
        },
    };
    let slice = match a.checked_mul(n_v) {
        Some(s) => s,
        None => {
            return LuminanceShape::Overflow;
        },
    };
    let centre = match cu.checked_mul(n_v) {
        Some(c) => c,
        None => {
            return LuminanceShape::Overflow;
        },
    };
    let normal = match centre.checked_add(cv) {
        Some(c) => c,
        None => {
            return LuminanceShape::Overflow;
        },
    };
    let grazing = match slice.checked_add(normal) {
        Some(g) => g,
        None => {
            return LuminanceShape::Overflow;
        },
    };
    LuminanceShape::Grid(
        LuminanceGrid { n_theta, n_u, n_v, normal_index: normal, grazing_index: grazing },
    )
}

/// The `spectra` field's grid (angles `phi` and `theta`, wavelengths, and
/// `u` by `v` positions) and the window of positions that is sampled
/// around the centre of `u`.
#[derive(Debug, Clone, Copy, PartialEq, Eq, Structural)]
pub struct SpectraGrid {
    pub s_phi: usize,
    pub s_theta: usize,
    pub s_wl: usize,
    pub s_u: usize,
    pub s_v: usize,
    pub uv_center: usize,
    pub uv_range: usize,
}

/// The width of the sampled window: an eighth of `s_u`, at least 1.
pub open spec fn window_width(s_u: usize) -> usize {
    if s_u / 8 > 1 {
        (s_u / 8) as usize
    } else {
        1
    }
}

/// The `spectra` grid that a shape gives, if it has five dimensions and as
/// many wavelengths as the `wavelengths` field has values.
pub open spec fn spectra_grid_spec(shape: Seq<u64>, n_wavelengths: usize) -> Option<SpectraGrid> {
    if shape.len() != 5 || shape[2] as usize != n_wavelengths {
        None
    } else {
        let s_u = shape[3] as usize;
        Some(
            SpectraGrid {
                s_phi: shape[0] as usize,
                s_theta: shape[1] as usize,
                s_wl: shape[2] as usize,
                s_u,
                s_v: shape[4] as usize,
                uv_center: (s_u / 2) as usize,
                uv_range: window_width(s_u),
            },
        )
    }
}

/// Checks the shape of the `spectra` field against the wavelength count.
pub fn spectra_grid(shape: &Vec<u64>, n_wavelengths: usize) -> (r: Option<SpectraGrid>)
    ensures
        r == spectra_grid_spec(shape@, n_wavelengths),
{
    if shape.len() != 5 {
        return None;
    }
    let s_wl = shape[2] as usize;
    if s_wl != n_wavelengths {
        return None;
    }
    let s_u = shape[3] as usize;
    let w = if s_u / 8 > 1 {
        s_u / 8
    } else {
        1
    };
    Some(
        SpectraGrid {
            s_phi: shape[0] as usize,
            s_theta: shape[1] as usize,
            s_wl,
            s_u,
            s_v: shape[4] as usize,
            uv_center: s_u / 2,
            uv_range: w,
        },
    )
}

/// The window position `d` steps from its start, along an axis of `s`
/// positions: clamped to the last one.
pub open spec fn window_coord(g: SpectraGrid, d: int, s: int) -> int {
    let c = g.uv_center - g.uv_range / 2 + d;
    if c < s - 1 {
        c
    } else {
        s - 1
    }
}

/// The index of the sample at angles `phi` and `theta`, wavelength `wl` and
/// window steps `du`, `dv`; `None` where the computation leaves `usize`
/// (as a subtraction from an empty `u` or `v` axis does).
pub open spec fn spectra_offset(g: SpectraGrid, phi: int, theta: int, wl: int, du: int, dv: int) -> Option<
    int,
> {
    let a = phi * g.s_theta;
    let b = a + theta;
    if g.s_u == 0 || g.s_v == 0 || a > usize::MAX || b > usize::MAX {
        None
    } else {
        let u = window_coord(g, du, g.s_u as int);
        let v = window_coord(g, dv, g.s_v as int);
        let idx = (b * g.s_wl + wl) * g.s_u * g.s_v + u * g.s_v + v;
        if idx > usize::MAX {
            None
        } else {
            Some(idx)
        }
    }
}

/// The index, in the `spectra` data, of one sample of the window.
pub fn spectra_sample(g: &SpectraGrid, phi: usize, theta: usize, wl: usize, du: usize, dv: usize) -> (r:
    Option<usize>)
    requires
        g.uv_center == g.s_u / 2,
        g.uv_range == window_width(g.s_u),
        du < g.uv_range,
        dv < g.uv_range,
    ensures
        r == (match spectra_offset(*g, phi as int, theta as int, wl as int, du as int, dv as int) {
            Some(i) => Some(i as usize),
            None => None::<usize>,
        }),
{
    if g.s_u == 0 || g.s_v == 0 {
        return None;
    }
    let base = g.uv_center - g.uv_range / 2;
    let cu = base + du;
    let u = if cu < g.s_u - 1 {
        cu
    } else {
        g.s_u - 1
    };
    let cv = base + dv;
    let v = if cv < g.s_v - 1 {
        cv
    } else {
        g.s_v - 1
    };
    let ghost idx: int = ((phi * g.s_theta + theta) * g.s_wl + wl) * g.s_u * g.s_v + u * g.s_v + v;
    let a = match phi.checked_mul(g.s_theta) {
        Some(a) => a,
        None => {
            return None;
        },
    };
    let b = match a.checked_add(theta) {
        Some(b) => b,
        None => {
            return None;
        },
    };
    let ghost c_: int = b * g.s_wl;
    let ghost d_: int = c_ + wl;
    let ghost e_: int = d_ * g.s_u;
    let ghost f_: int = e_ * g.s_v;
    proof {
        assert(0 <= c_) by (nonlinear_arith)
            requires
                c_ == b * g.s_wl,
                b >= 0,
                g.s_wl >= 0,
        ;
        assert(d_ <= e_) by (nonlinear_arith)
            requires
                e_ == d_ * g.s_u,
                d_ >= 0,
                g.s_u >= 1,
        ;
        assert(e_ <= f_) by (nonlinear_arith)
            requires
                f_ == e_ * g.s_v,
                e_ >= 0,
                g.s_v >= 1,
        ;
        assert(0 <= u * g.s_v) by (nonlinear_arith)
            requires
                u >= 0,
                g.s_v >= 0,
        ;
        assert(idx == f_ + u * g.s_v + v) by (nonlinear_arith)
            requires
                idx == ((phi * g.s_theta + theta) * g.s_wl + wl) * g.s_u * g.s_v + u * g.s_v + v,
                f_ == (((phi * g.s_theta + theta) * g.s_wl + wl) * g.s_u) * g.s_v,
        ;
    }
    let c = match b.checked_mul(g.s_wl) {
        Some(c) => c,
        None => {
            return None;
        },
    };
    let d = match c.checked_add(wl) {
        Some(d) => d,
        None => {
            return None;
        },
    };
    let e = match d.checked_mul(g.s_u) {
        Some(e) => e,
        None => {
            return None;
        },
    };
    let f = match e.checked_mul(g.s_v) {
        Some(f) => f,
        None => {
            return None;
        },
    };
    let gv = match u.checked_mul(g.s_v) {
        Some(x) => x,
        None => {
            return None;
        },
    };
    let h = match f.checked_add(gv) {
        Some(h) => h,
        None => {
            return None;
        },
    };
    match h.checked_add(v) {
        Some(i) => Some(i),
        None => None,
    }
}

/// The `luminance` samples: a shape is accepted exactly when it has four
/// dimensions, none of them zero, and its samples fit in `usize`; then the
/// grid is dimensions 1 to 3, the normal-incidence sample is the centre
/// entry of the first angle slice (row `n_u / 2`, column `n_v / 2` of the
/// `n_u` by `n_v` grid), and the grazing sample is the same entry of the
/// last slice, within the field's `n_theta * n_u * n_v` entries.
pub proof fn law_luminance_samples(shape: Seq<u64>)
    ensures
        (luminance_shape_spec(shape) is Rejected) <==> (shape.len() != 4 || shape[0] == 0
            || shape[1] as usize == 0 || shape[2] as usize == 0 || shape[3] as usize == 0),
        luminance_shape_spec(shape) matches LuminanceShape::Grid(g) ==> {
            &&& g.n_theta == shape[1] as usize
            &&& g.n_u == shape[2] as usize
            &&& g.n_v == shape[3] as usize
            &&& g.normal_index == (g.n_u / 2) * g.n_v + g.n_v / 2
            &&& g.normal_index / g.n_v == g.n_u / 2
            &&& g.normal_index % g.n_v == g.n_v / 2
            &&& g.grazing_index == (g.n_theta - 1) * g.n_u * g.n_v + g.normal_index
            &&& (g.grazing_index as int) % (g.n_u * g.n_v) == g.normal_index
            &&& g.grazing_index < g.n_theta * g.n_u * g.n_v
        },
        (luminance_shape_spec(shape) is Overflow) ==> shape.len() == 4 && (shape[1] as usize - 1)
            * (shape[2] as usize) * (shape[3] as usize) + (shape[2] as usize / 2) * (
        shape[3] as usize) + shape[3] as usize / 2 > usize::MAX,
{
    if let LuminanceShape::Grid(g) = luminance_shape_spec(shape) {
        let nt = g.n_theta as int;
        let nu = g.n_u as int;
        let nv = g.n_v as int;
        let cu = nu / 2;
        let cv = nv / 2;
        let n = cu * nv + cv;
        assert(0 * nu * nv == 0) by (nonlinear_arith);
        assert((nt - 1) * nu * nv >= 0) by (nonlinear_arith)
            requires
                nt >= 1,
                nu >= 0,
                nv >= 0,
        ;
        assert(cu * nv >= 0) by (nonlinear_arith)
            requires
                cu >= 0,
                nv >= 0,
        ;
        assert(centre_index(0, nu, nv) == n);
        assert(g.normal_index == n);
        lemma_fundamental_div_mod_converse(n, nv, cu, cv);
        assert(cu <= nu - 1);
        assert(n < nu * nv) by (nonlinear_arith)
            requires
                n == cu * nv + cv,
                0 <= cu <= nu - 1,
                0 <= cv < nv,
        ;
        assert(0 <= n);
        assert(nu * nv > 0) by (nonlinear_arith)
            requires
                nu >= 1,
                nv >= 1,
        ;
        assert((nt - 1) * nu * nv == (nt - 1) * (nu * nv)) by (nonlinear_arith);
        lemma_fundamental_div_mod_converse(g.grazing_index as int, nu * nv, nt - 1, n);
        assert((nt - 1) * (nu * nv) + nu * nv == nt * nu * nv) by (nonlinear_arith);
    }
}

} // verus!
