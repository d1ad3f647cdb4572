//! Which plans and which files are accepted.

use vstd::prelude::*;

use crate::commission::config;
use crate::commission::config::{Band, PlanConfig, PlanVersion, RoleWeight};
use crate::commission::explain;
use crate::commission::input;
use crate::commission::input::{TxnKind, TxnView};
use crate::commission::laws;
use crate::order;
use crate::text;

verus! {

// ---- files ----

/// Whether a return names a sale of the file.
pub open spec fn names_a_sale(s: Seq<TxnView>, t: TxnView) -> bool {
    t.original is Some && exists|k: int|
        0 <= k < s.len() && (#[trigger] s[k]).transaction_id == t.original->0 && s[k].kind
            == TxnKind::Sale
}

/// Whether a transaction is filled in: it has an id and a positive amount; a
/// sale has credits, each with a rep and a role, and names no other sale; a
/// return has no credits and names a sale of the file.
pub open spec fn is_filled_in(s: Seq<TxnView>, t: TxnView) -> bool {
    &&& !text::is_blank(t.transaction_id)
    &&& t.amount_cents > 0
    &&& t.kind == TxnKind::Sale ==> t.credits.len() > 0 && t.original is None
    &&& t.kind == TxnKind::Return ==> t.credits.len() == 0 && names_a_sale(s, t)
    &&& forall|k: int|
        0 <= k < t.credits.len() ==> !text::is_blank((#[trigger] t.credits[k]).rep_id)
            && !text::is_blank(t.credits[k].role)
}

proof fn txns_clear(s: Seq<TxnView>, i: int)
    requires
        0 <= i,
        forall|k: int| #![trigger s[k]] i <= k < s.len() ==> input::txn_error(s, k) is None,
    ensures
        input::txns_error(s, i) is None,
    decreases s.len() - i,
{
    if i < s.len() {
        assert(s[i] == s[i]);
        txns_clear(s, i + 1);
    }
}

proof fn references_clear(s: Seq<TxnView>, i: int)
    requires
        0 <= i,
        forall|k: int| #![trigger s[k]] i <= k < s.len() ==> input::reference_error(s, k) is None,
    ensures
        input::references_error(s, i) is None,
    decreases s.len() - i,
{
    if i < s.len() {
        assert(s[i] == s[i]);
        references_clear(s, i + 1);
    }
}

/// A file is accepted exactly when it holds transactions, their ids differ,
/// and each is filled in.
pub proof fn valid_files_hold_together(s: Seq<TxnView>)
    ensures
        input::file_error(s) is None <==> {
            &&& s.len() > 0
            &&& forall|i: int, j: int|
                0 <= i < j < s.len() ==> (#[trigger] s[i]).transaction_id != (
                #[trigger] s[j]).transaction_id
            &&& forall|i: int| 0 <= i < s.len() ==> is_filled_in(s, #[trigger] s[i])
        },
{
    if input::file_error(s) is None {
        laws::valid_files_have_different_ids(s);
        assert forall|i: int| 0 <= i < s.len() implies is_filled_in(s, #[trigger] s[i]) by {
            laws::valid_txn(s, 0, i);
            laws::valid_reference(s, 0, i);
            if s[i].kind == TxnKind::Return {
                laws::found_txn(s, s[i].original->0, 0);
                let k = input::find_txn(s, s[i].original->0, 0)->0;
                assert(s[k].transaction_id == s[i].original->0);
            }
        }
    }
    if s.len() > 0 && laws::ids_differ(s) && forall|i: int|
        0 <= i < s.len() ==> is_filled_in(s, #[trigger] s[i]) {
        assert forall|k: int| #![trigger s[k]] 0 <= k < s.len() implies input::txn_error(
            s,
            k,
        ) is None by {
            assert(is_filled_in(s, s[k]));
            if input::id_seen(s, k, s[k].transaction_id) {
                let j = choose|j: int|
                    0 <= j < k && (#[trigger] s[j]).transaction_id == s[k].transaction_id;
                assert(s[j].transaction_id != s[k].transaction_id);
            }
            if s[k].kind == TxnKind::Return {
                let m = choose|m: int|
                    0 <= m < s.len() && (#[trigger] s[m]).transaction_id == s[k].original->0
                        && s[m].kind == TxnKind::Sale;
                assert(is_filled_in(s, s[m]));
                if s[k].original->0 == s[k].transaction_id {
                    if m < k {
                        assert(s[m].transaction_id != s[k].transaction_id);
                    } else if k < m {
                        assert(s[k].transaction_id != s[m].transaction_id);
                    }
                }
            }
        }
        assert forall|k: int| #![trigger s[k]] 0 <= k < s.len() implies input::reference_error(
            s,
            k,
        ) is None by {
            assert(is_filled_in(s, s[k]));
            if s[k].kind == TxnKind::Return {
                let m = choose|m: int|
                    0 <= m < s.len() && (#[trigger] s[m]).transaction_id == s[k].original->0
                        && s[m].kind == TxnKind::Sale;
                laws::found_txn(s, s[k].original->0, 0);
                let f = input::find_txn(s, s[k].original->0, 0)->0;
                if m < f {
                    assert(s[m].transaction_id != s[f].transaction_id);
                } else if f < m {
                    assert(s[f].transaction_id != s[m].transaction_id);
                }
            }
        }
        txns_clear(s, 0);
        references_clear(s, 0);
    }
}

// ---- plans ----

/// Whether the bands of a version rise: each has a rate of one to ten
/// thousand basis points; each but the last ends, above the one before and
/// above nothing.
pub open spec fn bands_rise(bands: Seq<Band>) -> bool {
    &&& bands.len() > 0
    &&& forall|i: int| 0 <= i < bands.len() ==> 1 <= (#[trigger] bands[i]).rate_bps <= 10_000
    &&& forall|i: int|
        0 <= i < bands.len() && (#[trigger] bands[i]).up_to_ppm is None ==> i == bands.len() - 1
    &&& forall|i: int|
        0 <= i < bands.len() && (#[trigger] bands[i]).up_to_ppm is Some ==> bands[i].up_to_ppm->0
            > 0
    &&& forall|i: int, j: int|
        0 <= i < j < bands.len() && (#[trigger] bands[j]).up_to_ppm is Some ==> (
        #[trigger] bands[i]).up_to_ppm->0 < bands[j].up_to_ppm->0
}

/// Whether the weights of a version are in order: each has a role of its own
/// and weighs something, and they sum to ten thousand.
pub open spec fn weights_sum_up(weights: Seq<RoleWeight>) -> bool {
    &&& weights.len() > 0
    &&& forall|i: int|
        0 <= i < weights.len() ==> !text::is_blank((#[trigger] weights[i]).role@)
            && weights[i].weight_bps > 0
    &&& forall|i: int, j: int|
        0 <= i < j < weights.len() ==> (#[trigger] weights[i]).role@ != (
        #[trigger] weights[j]).role@
    &&& order::sum_of(weights, |w: RoleWeight| w.weight_bps as int) == 10_000
}

/// Whether a version is in order on its own.
pub open spec fn is_in_order(v: PlanVersion) -> bool {
    &&& v.quota_cents > 0
    &&& v.effective_to is Some ==> v.effective_from.day() <= v.effective_to->0.day()
    &&& v.windfall_cap_ppm is Some ==> v.windfall_cap_ppm->0 > 0
    &&& bands_rise(v.bands@)
    &&& weights_sum_up(v.role_weights@)
    &&& v.max_spread_bps is Some ==> forall|i: int, j: int|
        0 <= i < v.bands.len() && 0 <= j < v.bands.len() ==> (#[trigger] v.bands@[i]).rate_bps - (
        #[trigger] v.bands@[j]).rate_bps <= v.max_spread_bps->0
}

proof fn bands_clear(v: PlanVersion, i: int)
    requires
        0 <= i <= v.bands.len(),
    ensures
        config::bands_error(v, i) is None <==> forall|k: int|
            #![trigger v.bands@[k]]
            i <= k < v.bands.len() ==> config::band_error(v, k) is None,
    decreases v.bands.len() - i,
{
    if i < v.bands.len() {
        bands_clear(v, i + 1);
        assert(v.bands@[i] == v.bands@[i]);
    }
}

proof fn bounds_rise(v: PlanVersion, i: int, j: int)
    requires
        0 <= i < j < v.bands.len(),
        forall|k: int|
            #![trigger v.bands@[k]]
            0 <= k < v.bands.len() ==> config::band_error(v, k) is None,
        v.bands@[j].up_to_ppm is Some,
    ensures
        v.bands@[i].up_to_ppm->0 < v.bands@[j].up_to_ppm->0,
    decreases j - i,
{
    assert(config::band_error(v, j) is None);
    assert(v.bands@[j - 1] == v.bands@[j - 1]);
    assert(config::band_error(v, j - 1) is None);
    if i < j - 1 {
        bounds_rise(v, i, j - 1);
    }
}

proof fn bands_judged(v: PlanVersion)
    ensures
        v.bands.len() > 0 && config::bands_error(v, 0) is None <==> bands_rise(v.bands@),
{
    let bands = v.bands@;
    bands_clear(v, 0);
    if bands.len() > 0 && config::bands_error(v, 0) is None {
        assert forall|i: int, j: int|
            0 <= i < j < bands.len() && (#[trigger] bands[j]).up_to_ppm is Some implies (
        #[trigger] bands[i]).up_to_ppm->0 < bands[j].up_to_ppm->0 by {
            bounds_rise(v, i, j);
        }
        assert forall|i: int| 0 <= i < bands.len() implies 1 <= (#[trigger] bands[i]).rate_bps
            <= 10_000 by {
            assert(config::band_error(v, i) is None);
        }
        assert forall|i: int|
            0 <= i < bands.len() && (#[trigger] bands[i]).up_to_ppm is None implies i == bands.len()
            - 1 by {
            assert(config::band_error(v, i) is None);
        }
        assert forall|i: int|
            0 <= i < bands.len() && (
            #[trigger] bands[i]).up_to_ppm is Some implies bands[i].up_to_ppm->0 > 0 by {
            assert(config::band_error(v, i) is None);
        }
    }
    if bands_rise(bands) {
        assert forall|k: int| #![trigger v.bands@[k]] 0 <= k < v.bands.len() implies
            config::band_error(v, k) is None by {
            if k > 0 {
                assert(bands[k - 1] == v.bands@[k - 1]);
            }
        }
    }
}

proof fn rates_bound(bands: Seq<Band>, n: int)
    requires
        1 <= n <= bands.len(),
    ensures
        forall|k: int|
            0 <= k < n ==> config::lowest_rate(bands, n) <= (#[trigger] bands[k]).rate_bps
                <= config::highest_rate(bands, n),
        exists|k: int|
            0 <= k < n && (#[trigger] bands[k]).rate_bps == config::lowest_rate(bands, n),
        exists|k: int|
            0 <= k < n && (#[trigger] bands[k]).rate_bps == config::highest_rate(bands, n),
    decreases n,
{
    if n > 1 {
        rates_bound(bands, n - 1);
        assert(bands[n - 1] == bands[n - 1]);
    } else {
        assert(bands[0].rate_bps == config::lowest_rate(bands, n));
    }
}

proof fn spread_judged(bands: Seq<Band>, most: int)
    requires
        bands.len() > 0,
    ensures
        config::spread(bands) <= most <==> forall|i: int, j: int|
            0 <= i < bands.len() && 0 <= j < bands.len() ==> (#[trigger] bands[i]).rate_bps - (
            #[trigger] bands[j]).rate_bps <= most,
{
    let n = bands.len() as int;
    rates_bound(bands, n);
    let low = choose|k: int|
        0 <= k < n && (#[trigger] bands[k]).rate_bps == config::lowest_rate(bands, n);
    let high = choose|k: int|
        0 <= k < n && (#[trigger] bands[k]).rate_bps == config::highest_rate(bands, n);
    assert(bands[high].rate_bps - bands[low].rate_bps == config::spread(bands));
}

proof fn weights_clear(v: PlanVersion, i: int)
    requires
        0 <= i <= v.role_weights.len(),
    ensures
        config::weights_error(v, i) is None <==> forall|k: int|
            #![trigger v.role_weights@[k]]
            i <= k < v.role_weights.len() ==> config::weight_error(v, k) is None,
    decreases v.role_weights.len() - i,
{
    if i < v.role_weights.len() {
        weights_clear(v, i + 1);
        assert(v.role_weights@[i] == v.role_weights@[i]);
    }
}

proof fn weight_sums(weights: Seq<RoleWeight>, n: int)
    requires
        0 <= n <= weights.len(),
    ensures
        config::weight_sum(weights, n) == order::sum_of(
            weights.take(n),
            |w: RoleWeight| w.weight_bps as int,
        ),
    decreases n,
{
    if n > 0 {
        weight_sums(weights, n - 1);
        assert(weights.take(n).drop_last() =~= weights.take(n - 1));
    }
}

proof fn weights_judged(v: PlanVersion)
    ensures
        ({
            let n = v.role_weights.len() as int;
            n > 0 && config::weights_error(v, 0) is None && config::weight_sum(v.role_weights@, n)
                == 10_000 <==> weights_sum_up(v.role_weights@)
        }),
{
    let w = v.role_weights@;
    let n = w.len() as int;
    weights_clear(v, 0);
    weight_sums(w, n);
    assert(w.take(n) =~= w);
    if config::weights_error(v, 0) is None {
        assert forall|i: int, j: int| 0 <= i < j < w.len() implies (#[trigger] w[i]).role@ != (
        #[trigger] w[j]).role@ by {
            assert(config::weight_error(v, j) is None);
            assert(!config::role_seen(w, j, w[j].role@));
        }
        assert forall|i: int| 0 <= i < w.len() implies !text::is_blank((#[trigger] w[i]).role@)
            && w[i].weight_bps > 0 by {
            assert(config::weight_error(v, i) is None);
        }
    }
    if weights_sum_up(w) {
        assert forall|k: int| #![trigger v.role_weights@[k]] 0 <= k < n implies
            config::weight_error(v, k) is None by {
            if config::role_seen(w, k, w[k].role@) {
                let j = choose|j: int| 0 <= j < k && #[trigger] w[j].role@ == w[k].role@;
                assert(w[j].role@ != w[k].role@);
            }
        }
    }
}

proof fn version_judged(versions: Seq<PlanVersion>, i: int)
    requires
        0 <= i < versions.len(),
    ensures
        config::placed_error(versions, i) is None ==> is_in_order(versions[i]),
        is_in_order(versions[i]) && !config::number_seen(versions, i, versions[i].version) && (i > 0
            ==> versions[i - 1].effective_to is Some && versions[i - 1].effective_from.day()
            <= versions[i - 1].effective_to->0.day() && versions[i - 1].effective_to->0.day()
            < versions[i].effective_from.day()) ==> config::placed_error(versions, i) is None,
{
    let v = versions[i];
    bands_judged(v);
    weights_judged(v);
    if v.bands.len() > 0 && v.max_spread_bps is Some {
        spread_judged(v.bands@, v.max_spread_bps->0 as int);
    }
}

proof fn versions_clear(versions: Seq<PlanVersion>, i: int)
    requires
        0 <= i,
        forall|k: int|
            #![trigger versions[k]]
            i <= k < versions.len() ==> config::placed_error(versions, k) is None,
    ensures
        config::versions_error(versions, i) is None,
    decreases versions.len() - i,
{
    if i < versions.len() {
        assert(versions[i] == versions[i]);
        versions_clear(versions, i + 1);
    }
}

/// A plan is accepted exactly when it has an id and versions, the numbers of
/// the versions differ, each is in order on its own, and each begins after
/// the one before has ended.
pub proof fn valid_plans_hold_together(p: PlanConfig)
    ensures
        config::plan_error(p) is None <==> {
            let vs = p.versions@;
            &&& !text::is_blank(p.plan_id@)
            &&& vs.len() > 0
            &&& forall|i: int| 0 <= i < vs.len() ==> is_in_order(#[trigger] vs[i])
            &&& forall|i: int, j: int|
                0 <= i < j < vs.len() ==> (#[trigger] vs[i]).version != (#[trigger] vs[j]).version
            &&& forall|i: int, j: int|
                0 <= i < j < vs.len() ==> (#[trigger] vs[i]).effective_to is Some
                    && vs[i].effective_to->0.day() < (#[trigger] vs[j]).effective_from.day()
        },
{
    let vs = p.versions@;
    if config::plan_error(p) is None {
        assert forall|i: int| 0 <= i < vs.len() implies is_in_order(#[trigger] vs[i]) by {
            laws::placed(vs, 0, i);
            version_judged(vs, i);
        }
        assert forall|i: int, j: int| 0 <= i < j < vs.len() implies (#[trigger] vs[i]).version != (
        #[trigger] vs[j]).version by {
            laws::placed(vs, 0, j);
            assert(!config::number_seen(vs, j, vs[j].version));
        }
        assert forall|i: int, j: int| 0 <= i < j < vs.len() implies (
        #[trigger] vs[i]).effective_to is Some && vs[i].effective_to->0.day() < (
        #[trigger] vs[j]).effective_from.day() by {
            starts_later(vs, i, j);
        }
    }
    if {
        &&& !text::is_blank(p.plan_id@)
        &&& vs.len() > 0
        &&& forall|i: int| 0 <= i < vs.len() ==> is_in_order(#[trigger] vs[i])
        &&& forall|i: int, j: int|
            0 <= i < j < vs.len() ==> (#[trigger] vs[i]).version != (#[trigger] vs[j]).version
        &&& forall|i: int, j: int|
            0 <= i < j < vs.len() ==> (#[trigger] vs[i]).effective_to is Some
                && vs[i].effective_to->0.day() < (#[trigger] vs[j]).effective_from.day()
    } {
        assert forall|k: int| #![trigger vs[k]] 0 <= k < vs.len() implies config::placed_error(
            vs,
            k,
        ) is None by {
            if config::number_seen(vs, k, vs[k].version) {
                let j = choose|j: int| 0 <= j < k && (#[trigger] vs[j]).version == vs[k].version;
                assert(vs[j].version != vs[k].version);
            }
            if k > 0 {
                assert(is_in_order(vs[k - 1]));
                assert(vs[k - 1].effective_to is Some);
            }
            version_judged(vs, k);
        }
        versions_clear(vs, 0);
    }
}

proof fn starts_later(vs: Seq<PlanVersion>, i: int, j: int)
    requires
        0 <= i < j < vs.len(),
        config::versions_error(vs, 0) is None,
    ensures
        vs[i].effective_to is Some,
        vs[i].effective_to->0.day() < vs[j].effective_from.day(),
    decreases j - i,
{
    laws::placed(vs, 0, j);
    laws::placed(vs, 0, j - 1);
    if i < j - 1 {
        starts_later(vs, i, j - 1);
    }
}

proof fn quota_found(versions: Seq<PlanVersion>, i: int, from: int)
    requires
        0 <= from <= i < versions.len(),
        forall|j: int| 0 <= j < i ==> (#[trigger] versions[j]).version != versions[i].version,
    ensures
        explain::quota_of(versions, versions[i].version, from) == versions[i].quota_cents,
    decreases i - from,
{
    if from < i {
        assert(versions[from].version != versions[i].version);
        quota_found(versions, i, from + 1);
    }
}

/// The quota that is told of a version of a valid plan is its own.
pub proof fn quotas_are_told_by_number(p: PlanConfig, i: int)
    requires
        config::plan_error(p) is None,
        0 <= i < p.versions.len(),
    ensures
        explain::quota_of(p.versions@, p.versions@[i].version, 0) == p.versions@[i].quota_cents,
{
    valid_plans_hold_together(p);
    quota_found(p.versions@, i, 0);
}

} // verus!
