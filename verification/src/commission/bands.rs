//! Commission on credited revenue: accelerator bands and windfall caps.

use vstd::prelude::*;

use crate::commission::config::{
    Band, BandMode, PlanVersion, ATTAINMENT_SCALE, BASIS_POINTS,
};
use crate::commission::engine::{EngineError, EngineFault};
use crate::commission::split;
use crate::commission::split::checked_mul;

verus! {

/// One band's part in a commission.
#[derive(Debug, Clone, Copy, PartialEq, Eq, PartialOrd, Ord, Structural)]
pub struct BandSlice {
    pub band_index: usize,
    pub up_to_ppm: Option<u64>,
    pub rate_bps: u32,
    pub slice_cents: i128,
    pub commission_cents: i128,
}

/// What a [`BandSlice`] says.
#[verifier::ext_equal]
pub struct SliceView {
    pub band_index: int,
    pub up_to_ppm: Option<u64>,
    pub rate_bps: u32,
    pub slice_cents: int,
    pub commission_cents: int,
}

impl View for BandSlice {
    type V = SliceView;

    open spec fn view(&self) -> SliceView {
        SliceView {
            band_index: self.band_index as int,
            up_to_ppm: self.up_to_ppm,
            rate_bps: self.rate_bps,
            slice_cents: self.slice_cents as int,
            commission_cents: self.commission_cents as int,
        }
    }
}

pub open spec fn slices_view(s: Seq<BandSlice>) -> Seq<SliceView> {
    s.map_values(|x: BandSlice| x@)
}

/// A commission with the slices behind it.
#[verifier::ext_equal]
pub struct PartsView {
    pub total: int,
    pub slices: Seq<SliceView>,
}

/// A product, or the refusal where it is out of range.
pub open spec fn product(a: int, b: int, what: Seq<char>) -> Result<int, EngineFault> {
    if split::fits(a * b) {
        Ok(a * b)
    } else {
        Err(EngineFault::ArithmeticOverflow { what })
    }
}

/// `n / d` rounded to the nearest integer, halves up.
pub open spec fn rounded(n: int, d: int) -> int {
    if (n % d) * 2 >= d {
        n / d + 1
    } else {
        n / d
    }
}

pub open spec fn smaller(a: int, b: int) -> int {
    if b < a {
        b
    } else {
        a
    }
}

/// The revenue that counts: at most the windfall cap's share of quota.
pub open spec fn basis_of(v: PlanVersion, revenue: int) -> Result<int, EngineFault> {
    match v.windfall_cap_ppm {
        Some(cap) => match product(cap as int, v.quota_cents as int, "windfall cap revenue"@) {
            Ok(p) => Ok(smaller(revenue, p / (ATTAINMENT_SCALE as int))),
            Err(e) => Err(e),
        },
        None => Ok(revenue),
    }
}

/// The first band from `i` on that contains the attainment; the last one
/// where none does.
pub open spec fn landing_band(bands: Seq<Band>, attainment: int, i: int) -> int
    decreases bands.len() - i,
{
    if i >= bands.len() {
        bands.len() - 1
    } else if bands[i].up_to_ppm is None || attainment < bands[i].up_to_ppm->0 {
        i
    } else {
        landing_band(bands, attainment, i + 1)
    }
}

/// The slice that band `i` pays on `slice` cents.
pub open spec fn paid_slice(bands: Seq<Band>, i: int, slice: int) -> Result<SliceView, EngineFault> {
    match product(slice, bands[i].rate_bps as int, "band commission"@) {
        Ok(p) => Ok(
            SliceView {
                band_index: i,
                up_to_ppm: bands[i].up_to_ppm,
                rate_bps: bands[i].rate_bps,
                slice_cents: slice,
                commission_cents: rounded(p, BASIS_POINTS as int),
            },
        ),
        Err(e) => Err(e),
    }
}

/// All of the basis at the rate of the band of the capped attainment.
pub open spec fn cliff_parts(v: PlanVersion, revenue: int, basis: int) -> Result<
    PartsView,
    EngineFault,
> {
    match product(revenue, ATTAINMENT_SCALE as int, "attainment"@) {
        Ok(p) => {
            let reached = p / (v.quota_cents as int);
            let counted = match v.windfall_cap_ppm {
                Some(cap) => smaller(reached, cap as int),
                None => reached,
            };
            match paid_slice(v.bands@, landing_band(v.bands@, counted, 0), basis) {
                Ok(s) => Ok(PartsView { total: s.commission_cents, slices: seq![s] }),
                Err(e) => Err(e),
            }
        },
        Err(e) => Err(e),
    }
}

/// How far the first bands of a marginal plan reach into the basis.
#[verifier::ext_equal]
pub struct MarginalView {
    pub taken: int,
    pub parts: PartsView,
}

/// The revenue below the upper bound of band `i`, within the basis.
pub open spec fn reach_of(v: PlanVersion, basis: int, i: int) -> Result<int, EngineFault> {
    match v.bands@[i].up_to_ppm {
        Some(up) => match product(up as int, v.quota_cents as int, "band boundary"@) {
            Ok(p) => Ok(smaller(p / (ATTAINMENT_SCALE as int), basis)),
            Err(e) => Err(e),
        },
        None => Ok(basis),
    }
}

/// Each slice of the basis at its own band's rate, over the first `n` bands.
pub open spec fn marginal_parts(v: PlanVersion, basis: int, n: int) -> Result<
    MarginalView,
    EngineFault,
>
    decreases n,
{
    if n <= 0 {
        Ok(MarginalView { taken: 0, parts: PartsView { total: 0, slices: Seq::empty() } })
    } else {
        match marginal_parts(v, basis, n - 1) {
            Ok(m) => match reach_of(v, basis, n - 1) {
                Ok(bound) => if bound > m.taken {
                    match paid_slice(v.bands@, n - 1, bound - m.taken) {
                        Ok(s) => Ok(
                            MarginalView {
                                taken: bound,
                                parts: PartsView {
                                    total: m.parts.total + s.commission_cents,
                                    slices: m.parts.slices.push(s),
                                },
                            },
                        ),
                        Err(e) => Err(e),
                    }
                } else {
                    Ok(m)
                },
                Err(e) => Err(e),
            },
            Err(e) => Err(e),
        }
    }
}

/// The commission on revenue under a version, with the slices behind it.
pub open spec fn parts_of(v: PlanVersion, revenue: int) -> Result<PartsView, EngineFault> {
    let nothing = PartsView { total: 0, slices: Seq::empty() };
    if revenue <= 0 {
        Ok(nothing)
    } else {
        match basis_of(v, revenue) {
            Ok(basis) => if basis <= 0 {
                Ok(nothing)
            } else {
                match v.band_mode {
                    BandMode::Cliff => cliff_parts(v, revenue, basis),
                    BandMode::Marginal => match marginal_parts(v, basis, v.bands.len() as int) {
                        Ok(m) => Ok(m.parts),
                        Err(e) => Err(e),
                    },
                }
            },
            Err(e) => Err(e),
        }
    }
}

/// Whether commission can be computed under a version: it has a quota and
/// bands, and no rate is above the whole.
pub open spec fn payable(v: PlanVersion) -> bool {
    &&& v.quota_cents > 0
    &&& v.bands.len() > 0
    &&& forall|i: int| 0 <= i < v.bands.len() ==> (#[trigger] v.bands@[i]).rate_bps <= BASIS_POINTS
}

/// A slice never pays more than itself.
pub proof fn slice_pays_at_most_itself(slice: int, rate: int)
    requires
        0 <= slice,
        0 <= rate <= BASIS_POINTS,
    ensures
        0 <= rounded(slice * rate, BASIS_POINTS as int) <= slice,
{
    let p = slice * rate;
    assert(0 <= p <= slice * 10_000) by (nonlinear_arith)
        requires
            p == slice * rate,
            0 <= slice,
            0 <= rate <= 10_000,
    ;
}

/// Round `numerator / denominator` to the nearest integer, halves up.
pub fn round_half_up(numerator: i128, denominator: i128) -> (r: i128)
    requires
        0 <= numerator,
        0 < denominator <= i128::MAX / 2,
    ensures
        r == rounded(numerator as int, denominator as int),
{
    let q: i128 = numerator / denominator;
    let rest: i128 = numerator % denominator;
    assert(0 <= q <= numerator && 0 <= rest < denominator) by (nonlinear_arith)
        requires
            q == numerator / denominator,
            rest == numerator % denominator,
            0 <= numerator,
            0 < denominator,
    ;
    if rest * 2 >= denominator {
        assert(q < numerator) by (nonlinear_arith)
            requires
                q == numerator / denominator,
                rest == numerator % denominator,
                0 <= numerator,
                0 < denominator,
                0 < rest,
        ;
        q + 1
    } else {
        q
    }
}

fn pay_slice(v: &PlanVersion, i: usize, slice: i128) -> (r: Result<BandSlice, EngineError>)
    requires
        payable(*v),
        i < v.bands.len(),
        0 <= slice,
    ensures
        (match r {
            Ok(s) => paid_slice(v.bands@, i as int, slice as int) == Ok::<SliceView, EngineFault>(
                s@,
            ) && 0 <= s.commission_cents <= slice,
            Err(e) => paid_slice(v.bands@, i as int, slice as int) == Err::<SliceView, EngineFault>(
                e@,
            ),
        }),
{
    let band = v.bands[i];
    let p: i128 = match checked_mul(slice, band.rate_bps as i128, "band commission") {
        Ok(p) => p,
        Err(e) => return Err(e),
    };
    proof {
        slice_pays_at_most_itself(slice as int, band.rate_bps as int);
        assert(p >= 0) by (nonlinear_arith)
            requires
                p == slice * band.rate_bps,
                slice >= 0,
        ;
    }
    Ok(
        BandSlice {
            band_index: i,
            up_to_ppm: band.up_to_ppm,
            rate_bps: band.rate_bps,
            slice_cents: slice,
            commission_cents: round_half_up(p, BASIS_POINTS),
        },
    )
}

fn cliff_commission(v: &PlanVersion, revenue: i128, basis: i128) -> (r: Result<
    (i128, Vec<BandSlice>),
    EngineError,
>)
    requires
        payable(*v),
        0 < basis <= revenue,
    ensures
        (match r {
            Ok(x) => cliff_parts(*v, revenue as int, basis as int) == Ok::<PartsView, EngineFault>(
                PartsView { total: x.0 as int, slices: slices_view(x.1@) },
            ) && 0 <= x.0 <= basis,
            Err(e) => cliff_parts(*v, revenue as int, basis as int) == Err::<
                PartsView,
                EngineFault,
            >(e@),
        }),
{
    let p: i128 = match checked_mul(revenue, ATTAINMENT_SCALE, "attainment") {
        Ok(p) => p,
        Err(e) => return Err(e),
    };
    let reached: i128 = p / v.quota_cents;
    assert(reached >= 0) by (nonlinear_arith)
        requires
            reached == p / v.quota_cents,
            p >= 0,
            v.quota_cents > 0,
    ;
    let counted: i128 = match v.windfall_cap_ppm {
        Some(cap) => if (cap as i128) < reached {
            cap as i128
        } else {
            reached
        },
        None => reached,
    };
    let mut i: usize = 0;
    let mut found = false;
    while !found && i < v.bands.len()
        invariant
            i <= v.bands.len(),
            !found ==> landing_band(v.bands@, counted as int, 0) == landing_band(
                v.bands@,
                counted as int,
                i as int,
            ),
            found ==> i < v.bands.len() && landing_band(v.bands@, counted as int, 0) == i,
        decreases v.bands.len() - i + (if found { 0int } else { 1 }),
    {
        let inside = match v.bands[i].up_to_ppm {
            None => true,
            Some(up) => counted < up as i128,
        };
        if inside {
            found = true;
        } else {
            i = i + 1;
        }
    }
    let at: usize = if found {
        i
    } else {
        v.bands.len() - 1
    };
    let slice = match pay_slice(v, at, basis) {
        Ok(s) => s,
        Err(e) => return Err(e),
    };
    let mut slices: Vec<BandSlice> = Vec::new();
    slices.push(slice);
    assert(slices_view(slices@) =~= seq![slice@]);
    Ok((slice.commission_cents, slices))
}

fn marginal_commission(v: &PlanVersion, basis: i128) -> (r: Result<
    (i128, Vec<BandSlice>),
    EngineError,
>)
    requires
        payable(*v),
        0 < basis,
    ensures
        (match r {
            Ok(x) => marginal_parts(*v, basis as int, v.bands.len() as int) matches Ok(m)
                && m.parts == (PartsView { total: x.0 as int, slices: slices_view(x.1@) }) && 0
                <= x.0 <= basis,
            Err(e) => marginal_parts(*v, basis as int, v.bands.len() as int) == Err::<
                MarginalView,
                EngineFault,
            >(e@),
        }),
{
    let mut total: i128 = 0;
    let mut taken: i128 = 0;
    let mut slices: Vec<BandSlice> = Vec::new();
    let mut i: usize = 0;
    assert(slices_view(slices@) =~= Seq::<SliceView>::empty());
    while i < v.bands.len()
        invariant
            i <= v.bands.len(),
            payable(*v),
            0 < basis,
            0 <= total <= taken <= basis,
            marginal_parts(*v, basis as int, i as int) == Ok::<MarginalView, EngineFault>(
                MarginalView {
                    taken: taken as int,
                    parts: PartsView { total: total as int, slices: slices_view(slices@) },
                },
            ),
        decreases v.bands.len() - i,
    {
        let bound: i128 = match v.bands[i].up_to_ppm {
            Some(up) => {
                let p: i128 = match checked_mul(up as i128, v.quota_cents, "band boundary") {
                    Ok(p) => p,
                    Err(e) => {
                        proof {
                            marginal_stops(*v, basis as int, i + 1, v.bands.len() as int);
                        }
                        return Err(e);
                    },
                };
                assert(p >= 0) by (nonlinear_arith)
                    requires
                        p == up * v.quota_cents,
                        v.quota_cents > 0,
                ;
                let edge: i128 = p / ATTAINMENT_SCALE;
                if basis < edge {
                    basis
                } else {
                    edge
                }
            },
            None => basis,
        };
        if bound > taken {
            let slice = match pay_slice(v, i, bound - taken) {
                Ok(s) => s,
                Err(e) => {
                    proof {
                        marginal_stops(*v, basis as int, i + 1, v.bands.len() as int);
                    }
                    return Err(e);
                },
            };
            let ghost was = slices@;
            slices.push(slice);
            assert(slices_view(slices@) =~= slices_view(was).push(slice@));
            total = total + slice.commission_cents;
            taken = bound;
        }
        i = i + 1;
    }
    Ok((total, slices))
}

/// A refusal at a band stays the refusal of the whole.
proof fn marginal_stops(v: PlanVersion, basis: int, m: int, n: int)
    requires
        0 <= m <= n,
        marginal_parts(v, basis, m) is Err,
    ensures
        marginal_parts(v, basis, n) == marginal_parts(v, basis, m),
    decreases n,
{
    if m < n {
        marginal_stops(v, basis, m, n - 1);
    }
}

/// The commission on revenue under a version, with the slices behind it.
pub fn commission_parts(v: &PlanVersion, revenue: i128) -> (r: Result<
    (i128, Vec<BandSlice>),
    EngineError,
>)
    requires
        payable(*v),
    ensures
        (match r {
            Ok(x) => parts_of(*v, revenue as int) == Ok::<PartsView, EngineFault>(
                PartsView { total: x.0 as int, slices: slices_view(x.1@) },
            ) && 0 <= x.0 && (revenue >= 0 ==> x.0 <= revenue),
            Err(e) => parts_of(*v, revenue as int) == Err::<PartsView, EngineFault>(e@),
        }),
{
    if revenue <= 0 {
        let none: Vec<BandSlice> = Vec::new();
        assert(slices_view(none@) =~= Seq::<SliceView>::empty());
        return Ok((0, none));
    }
    let basis: i128 = match v.windfall_cap_ppm {
        Some(cap) => {
            let p: i128 = match checked_mul(cap as i128, v.quota_cents, "windfall cap revenue") {
                Ok(p) => p,
                Err(e) => return Err(e),
            };
            assert(p >= 0) by (nonlinear_arith)
                requires
                    p == cap * v.quota_cents,
                    v.quota_cents > 0,
            ;
            let most: i128 = p / ATTAINMENT_SCALE;
            if most < revenue {
                most
            } else {
                revenue
            }
        },
        None => revenue,
    };
    if basis <= 0 {
        let none: Vec<BandSlice> = Vec::new();
        assert(slices_view(none@) =~= Seq::<SliceView>::empty());
        return Ok((0, none));
    }
    match v.band_mode {
        BandMode::Cliff => cliff_commission(v, revenue, basis),
        BandMode::Marginal => marginal_commission(v, basis),
    }
}

/// The commission on revenue under a version.
pub fn commission_total(v: &PlanVersion, revenue: i128) -> (r: Result<i128, EngineError>)
    requires
        payable(*v),
    ensures
        (match r {
            Ok(x) => parts_of(*v, revenue as int) matches Ok(p) && p.total == x && 0 <= x && (
            revenue >= 0 ==> x <= revenue),
            Err(e) => parts_of(*v, revenue as int) == Err::<PartsView, EngineFault>(e@),
        }),
{
    match commission_parts(v, revenue) {
        Ok(x) => Ok(x.0),
        Err(e) => Err(e),
    }
}

} // verus!
