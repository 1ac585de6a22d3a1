//! What holds of merged metrics, whatever the providers say.
use crate::merge::{
    absence, after_invalid, after_reports, candidate_before, candidate_place, candidates,
    first_fresh, is_percentage, lemma_candidates, lemma_ranked, ranked, reason_weight, selection,
    stale, stale_absence, valid, AbsenceModel, CandidateKey,
};
use crate::model::{numeric, MetricKey, MetricObservation};
use crate::ordered::{
    arranged, is_arrangement, lemma_ranks_before_asymmetric, lemma_stable_order_exists,
    ranks_before, stable_order_of, Ordered,
};
use crate::provider::ProviderMetadata;
use vstd::prelude::*;

verus! {

pub proof fn lemma_first_fresh(observations: Seq<MetricObservation>, now_ms: u64)
    ensures
        0 <= first_fresh(observations, now_ms) <= observations.len(),
        first_fresh(observations, now_ms) < observations.len() ==> !stale(
            observations[first_fresh(observations, now_ms)],
            now_ms,
        ),
        forall|i: int|
            0 <= i < first_fresh(observations, now_ms) ==> stale(
                #[trigger] observations[i],
                now_ms,
            ),
    decreases observations.len(),
{
    if observations.len() > 0 {
        lemma_first_fresh(observations.drop_last(), now_ms);
        let at = first_fresh(observations.drop_last(), now_ms);
        assert forall|i: int| 0 <= i < first_fresh(observations, now_ms) implies stale(
            #[trigger] observations[i],
            now_ms,
        ) by {
            if i < observations.len() - 1 {
                assert(observations.drop_last()[i] == observations[i]);
            }
        }
    }
}

/// Every candidate stands somewhere in the ranking, and the ranking never descends.
pub proof fn lemma_ranking(
    metrics: Seq<MetricObservation>,
    providers: Map<Seq<char>, ProviderMetadata>,
    now_ms: u64,
    key: MetricKey,
)
    ensures
        ({
            let ranking = ranked(metrics, providers, now_ms, key);
            &&& forall|o: MetricObservation|
                #[trigger] metrics.contains(o) && o.metric == key && valid(o) ==> ranking.contains(
                    o,
                )
            &&& forall|i: int, j: int|
                0 <= i < j < ranking.len() ==> !candidate_before(
                    candidate_place(#[trigger] ranking[j], providers, now_ms),
                    candidate_place(#[trigger] ranking[i], providers, now_ms),
                )
        }),
{
    let all = candidates(metrics, key);
    let keys = all.map_values(|o: MetricObservation| candidate_place(o, providers, now_ms));
    lemma_stable_order_exists::<CandidateKey>(keys);
    let order = stable_order_of::<CandidateKey>(keys);
    let ranking = ranked(metrics, providers, now_ms, key);
    lemma_candidates(metrics, key);
    assert forall|o: MetricObservation|
        #[trigger] metrics.contains(o) && o.metric == key && valid(o) implies ranking.contains(
        o,
    ) by {
        assert(all.contains(o));
        let i = choose|i: int| 0 <= i < all.len() && all[i] == o;
        assert(order.contains(i));
        let p = choose|p: int| 0 <= p < order.len() && order[p] == i;
        assert(ranking[p] == o);
    }
    assert forall|i: int, j: int| 0 <= i < j < ranking.len() implies !candidate_before(
        candidate_place(#[trigger] ranking[j], providers, now_ms),
        candidate_place(#[trigger] ranking[i], providers, now_ms),
    ) by {
        assert(ranks_before::<CandidateKey>(keys, order[i], order[j]));
        lemma_ranks_before_asymmetric::<CandidateKey>(keys, order[i], order[j]);
    }
}

/// A selected value was observed, is a number in the range of its metric, and is not stale.
pub proof fn law_selected_is_valid_and_fresh(
    metrics: Seq<MetricObservation>,
    providers: Map<Seq<char>, ProviderMetadata>,
    now_ms: u64,
    key: MetricKey,
)
    ensures
        match selection(metrics, providers, now_ms, key) {
            Some(observation) => {
                &&& metrics.contains(observation)
                &&& observation.metric == key
                &&& valid(observation)
                &&& !stale(observation, now_ms)
            },
            None => true,
        },
{
    lemma_ranked(metrics, providers, now_ms, key);
    lemma_first_fresh(ranked(metrics, providers, now_ms, key), now_ms);
}

/// A selected percentage lies between 0 and 100.
pub proof fn law_selected_percentages_are_in_range(
    metrics: Seq<MetricObservation>,
    providers: Map<Seq<char>, ProviderMetadata>,
    now_ms: u64,
    key: MetricKey,
)
    requires
        is_percentage(key),
        selection(metrics, providers, now_ms, key) is Some,
    ensures
        numeric(selection(metrics, providers, now_ms, key)->0.value) is Some,
        numeric(selection(metrics, providers, now_ms, key)->0.value)->0.percent(),
{
    law_selected_is_valid_and_fresh(metrics, providers, now_ms, key);
}

/// Where a valid observation is not stale, some observation of the metric is selected.
pub proof fn law_fresh_values_are_not_lost(
    metrics: Seq<MetricObservation>,
    providers: Map<Seq<char>, ProviderMetadata>,
    now_ms: u64,
    observation: MetricObservation,
)
    requires
        metrics.contains(observation),
        valid(observation),
        !stale(observation, now_ms),
    ensures
        selection(metrics, providers, now_ms, observation.metric) is Some,
{
    let key = observation.metric;
    lemma_ranking(metrics, providers, now_ms, key);
    lemma_first_fresh(ranked(metrics, providers, now_ms, key), now_ms);
    let ranking = ranked(metrics, providers, now_ms, key);
    let p = choose|p: int| 0 <= p < ranking.len() && ranking[p] == observation;
}

/// No fresh valid observation outranks the selected one: none has a higher score, and none with
/// the same score has a source that comes before.
pub proof fn law_selected_is_best(
    metrics: Seq<MetricObservation>,
    providers: Map<Seq<char>, ProviderMetadata>,
    now_ms: u64,
    observation: MetricObservation,
)
    requires
        metrics.contains(observation),
        valid(observation),
        !stale(observation, now_ms),
        selection(metrics, providers, now_ms, observation.metric) is Some,
    ensures
        !candidate_before(
            candidate_place(observation, providers, now_ms),
            candidate_place(
                selection(metrics, providers, now_ms, observation.metric)->0,
                providers,
                now_ms,
            ),
        ),
{
    let key = observation.metric;
    lemma_ranking(metrics, providers, now_ms, key);
    lemma_first_fresh(ranked(metrics, providers, now_ms, key), now_ms);
    let ranking = ranked(metrics, providers, now_ms, key);
    let p = choose|p: int| 0 <= p < ranking.len() && ranking[p] == observation;
    let at = first_fresh(ranking, now_ms);
    if p == at {
        CandidateKey::less_irreflexive(candidate_place(observation, providers, now_ms));
    } else {
        assert(at < p);
        assert(!candidate_before(
            candidate_place(ranking[p], providers, now_ms),
            candidate_place(ranking[at], providers, now_ms),
        ));
    }
}

/// No provider gives two valid values of the metric.
pub open spec fn one_value_per_source(metrics: Seq<MetricObservation>, key: MetricKey) -> bool {
    forall|a: MetricObservation, b: MetricObservation|
        #[trigger] metrics.contains(a) && #[trigger] metrics.contains(b) && a.metric == key
            && b.metric == key && valid(a) && valid(b) && a.source@ == b.source@ ==> a == b
}

/// Which value is selected does not depend on the order in which the observations come, unless
/// one provider gives several values of the metric.
pub proof fn law_selection_does_not_depend_on_order(
    metrics: Seq<MetricObservation>,
    providers: Map<Seq<char>, ProviderMetadata>,
    now_ms: u64,
    key: MetricKey,
    shuffle: Seq<int>,
)
    requires
        is_arrangement(metrics.len(), shuffle),
        one_value_per_source(metrics, key),
    ensures
        selection(arranged(metrics, shuffle), providers, now_ms, key) == selection(
            metrics,
            providers,
            now_ms,
            key,
        ),
{
    let other = arranged(metrics, shuffle);
    assert forall|o: MetricObservation|
        #![trigger metrics.contains(o)]
        #![trigger other.contains(o)]
        metrics.contains(o) <==> other.contains(o) by {
        if metrics.contains(o) {
            let i = choose|i: int| 0 <= i < metrics.len() && metrics[i] == o;
            assert(shuffle.contains(i));
            let k = choose|k: int| 0 <= k < shuffle.len() && shuffle[k] == i;
            assert(other[k] == o);
        }
        if other.contains(o) {
            let k = choose|k: int| 0 <= k < other.len() && other[k] == o;
            assert(metrics[shuffle[k]] == o);
        }
    }
    law_selected_is_valid_and_fresh(metrics, providers, now_ms, key);
    law_selected_is_valid_and_fresh(other, providers, now_ms, key);
    let a = selection(metrics, providers, now_ms, key);
    let b = selection(other, providers, now_ms, key);
    if a is Some {
        law_fresh_values_are_not_lost(other, providers, now_ms, a->0);
    }
    if b is Some {
        law_fresh_values_are_not_lost(metrics, providers, now_ms, b->0);
    }
    if a is Some && b is Some {
        law_selected_is_best(metrics, providers, now_ms, b->0);
        law_selected_is_best(other, providers, now_ms, a->0);
        CandidateKey::less_total(
            candidate_place(a->0, providers, now_ms),
            candidate_place(b->0, providers, now_ms),
        );
    }
}

proof fn lemma_reports_weigh(
    current: Option<AbsenceModel>,
    unavailable: Seq<AbsenceModel>,
    key: MetricKey,
)
    ensures
        current is Some ==> after_reports(current, unavailable, key) is Some && reason_weight(
            after_reports(current, unavailable, key)->0.reason,
        ) >= reason_weight(current->0.reason),
        forall|o: AbsenceModel|
            #[trigger] unavailable.contains(o) && o.metric == key ==> after_reports(
                current,
                unavailable,
                key,
            ) is Some && reason_weight(after_reports(current, unavailable, key)->0.reason)
                >= reason_weight(o.reason),
    decreases unavailable.len(),
{
    if unavailable.len() > 0 {
        let rest = unavailable.drop_last();
        lemma_reports_weigh(current, rest, key);
        assert forall|o: AbsenceModel|
            #[trigger] unavailable.contains(o) && o.metric == key implies after_reports(
            current,
            unavailable,
            key,
        ) is Some && reason_weight(after_reports(current, unavailable, key)->0.reason)
            >= reason_weight(o.reason) by {
            let p = choose|p: int| 0 <= p < unavailable.len() && unavailable[p] == o;
            if p < rest.len() {
                assert(rest[p] == o);
                assert(rest.contains(o));
            }
        }
    }
}

proof fn lemma_invalid_weigh(
    current: Option<AbsenceModel>,
    metrics: Seq<MetricObservation>,
    key: MetricKey,
)
    ensures
        current is Some ==> after_invalid(current, metrics, key) is Some && reason_weight(
            after_invalid(current, metrics, key)->0.reason,
        ) >= reason_weight(current->0.reason),
        forall|o: MetricObservation|
            #[trigger] metrics.contains(o) && o.metric == key && !valid(o) ==> after_invalid(
                current,
                metrics,
                key,
            ) is Some,
    decreases metrics.len(),
{
    if metrics.len() > 0 {
        let rest = metrics.drop_last();
        lemma_invalid_weigh(current, rest, key);
        assert forall|o: MetricObservation|
            #[trigger] metrics.contains(o) && o.metric == key && !valid(o) implies after_invalid(
            current,
            metrics,
            key,
        ) is Some by {
            let p = choose|p: int| 0 <= p < metrics.len() && metrics[p] == o;
            if p < rest.len() {
                assert(rest[p] == o);
                assert(rest.contains(o));
            }
        }
    }
}

/// A metric is never both selected and explained as missing.
pub proof fn law_selected_metrics_are_not_missing(
    metrics: Seq<MetricObservation>,
    unavailable: Seq<AbsenceModel>,
    providers: Map<Seq<char>, ProviderMetadata>,
    now_ms: u64,
    key: MetricKey,
)
    requires
        selection(metrics, providers, now_ms, key) is Some,
    ensures
        absence(metrics, unavailable, providers, now_ms, key) is None,
{
}

/// An observation is never passed over in silence: its metric is selected or explained.
pub proof fn law_observed_metrics_are_answered(
    metrics: Seq<MetricObservation>,
    unavailable: Seq<AbsenceModel>,
    providers: Map<Seq<char>, ProviderMetadata>,
    now_ms: u64,
    observation: MetricObservation,
)
    requires
        metrics.contains(observation),
    ensures
        selection(metrics, providers, now_ms, observation.metric) is Some || absence(
            metrics,
            unavailable,
            providers,
            now_ms,
            observation.metric,
        ) is Some,
{
    let key = observation.metric;
    let ranking = ranked(metrics, providers, now_ms, key);
    let start = if ranking.len() > 0 {
        Some(stale_absence(ranking[0]))
    } else {
        None
    };
    lemma_ranking(metrics, providers, now_ms, key);
    lemma_reports_weigh(start, unavailable, key);
    lemma_invalid_weigh(after_reports(start, unavailable, key), metrics, key);
    if valid(observation) {
        assert(ranking.contains(observation));
    }
}

/// A provider's account of a missing metric is answered, with a reason that weighs no less,
/// unless a value is selected.
pub proof fn law_reported_absences_are_answered(
    metrics: Seq<MetricObservation>,
    unavailable: Seq<AbsenceModel>,
    providers: Map<Seq<char>, ProviderMetadata>,
    now_ms: u64,
    account: AbsenceModel,
)
    requires
        unavailable.contains(account),
        selection(metrics, providers, now_ms, account.metric) is None,
    ensures
        absence(metrics, unavailable, providers, now_ms, account.metric) is Some,
        reason_weight(
            absence(metrics, unavailable, providers, now_ms, account.metric)->0.reason,
        ) >= reason_weight(account.reason),
{
    let key = account.metric;
    let ranking = ranked(metrics, providers, now_ms, key);
    let start = if ranking.len() > 0 {
        Some(stale_absence(ranking[0]))
    } else {
        None
    };
    lemma_reports_weigh(start, unavailable, key);
    lemma_invalid_weigh(after_reports(start, unavailable, key), metrics, key);
}

} // verus!
