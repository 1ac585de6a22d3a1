//! Which of several observations of a metric counts.
use crate::model::{
    metric_place, numeric, quality_score, MergeCandidateDiagnostic, MetricKey,
    MetricMergeDiagnostic, MetricObservation, MetricQuality, MetricValue, ProviderId,
    UnavailableObservation, UnavailableReason,
};
use crate::ordered::{arranged, indices, models, stable_order, stable_order_of, Ordered, Relation};
use crate::provider::ProviderMetadata;
use crate::sorted_map::{lists_keys, SortedMap};
use crate::text::{owned, relate_text, text_less};
use vstd::prelude::*;

verus! {

/// An observation older than this is stale.
pub const STALE_AFTER_MS: u64 = 30_000;

/// What is known of each provider, by its name.
pub type ProviderTable = SortedMap<ProviderId, ProviderMetadata>;

/// An account of why a metric is missing, by its contents.
pub struct AbsenceModel {
    pub device_id: Seq<char>,
    pub metric: MetricKey,
    pub reason: UnavailableReason,
    pub source: Option<Seq<char>>,
    pub message: Option<Seq<char>>,
}

/// A text that may be missing.
pub open spec fn text_view(text: Option<String>) -> Option<Seq<char>> {
    match text {
        Some(text) => Some(text@),
        None => None,
    }
}

impl View for UnavailableObservation {
    type V = AbsenceModel;

    open spec fn view(&self) -> AbsenceModel {
        AbsenceModel {
            device_id: self.device_id@,
            metric: self.metric,
            reason: self.reason,
            source: text_view(self.source),
            message: text_view(self.message),
        }
    }
}

/// A value of a metric, by its contents.
pub struct ValueModel {
    pub device_id: Seq<char>,
    pub metric: MetricKey,
    pub value: MetricValue,
    pub source: Seq<char>,
    pub quality: MetricQuality,
    pub sampled_at: u64,
    pub interval_ms: Option<u64>,
    pub definition: Option<Seq<char>>,
}

impl View for MetricObservation {
    type V = ValueModel;

    open spec fn view(&self) -> ValueModel {
        ValueModel {
            device_id: self.device_id@,
            metric: self.metric,
            value: self.value,
            source: self.source@,
            quality: self.quality,
            sampled_at: self.sampled_at,
            interval_ms: self.interval_ms,
            definition: text_view(self.definition),
        }
    }
}

/// The contents of values.
pub open spec fn values(observations: Seq<MetricObservation>) -> Seq<ValueModel> {
    observations.map_values(|observation: MetricObservation| observation@)
}

/// How many of the values are of the metric.
pub open spec fn value_entries(values: Seq<ValueModel>, key: MetricKey) -> nat
    decreases values.len(),
{
    if values.len() == 0 {
        0
    } else if values.last().metric == key {
        value_entries(values.drop_last(), key) + 1
    } else {
        value_entries(values.drop_last(), key)
    }
}

/// How many of the accounts are of the metric.
pub open spec fn absence_entries(absences: Seq<AbsenceModel>, key: MetricKey) -> nat
    decreases absences.len(),
{
    if absences.len() == 0 {
        0
    } else if absences.last().metric == key {
        absence_entries(absences.drop_last(), key) + 1
    } else {
        absence_entries(absences.drop_last(), key)
    }
}

/// The contents of accounts of missing metrics.
pub open spec fn absences(accounts: Seq<UnavailableObservation>) -> Seq<AbsenceModel> {
    accounts.map_values(|account: UnavailableObservation| account@)
}

pub struct MergedMetrics {
    pub selected: SortedMap<MetricKey, MetricObservation>,
    pub unavailable: SortedMap<MetricKey, UnavailableObservation>,
    pub diagnostics: Vec<MetricMergeDiagnostic>,
}

impl Default for MergedMetrics {
    fn default() -> (merged: Self)
        ensures
            merged.selected@ == Map::<MetricKey, MetricObservation>::empty(),
            merged.unavailable@ == Map::<MetricKey, UnavailableObservation>::empty(),
            merged.diagnostics@.len() == 0,
    {
        MergedMetrics {
            selected: SortedMap::new(),
            unavailable: SortedMap::new(),
            diagnostics: Vec::new(),
        }
    }
}

/// Metrics whose values are percentages.
pub open spec fn is_percentage(metric: MetricKey) -> bool {
    ||| metric == MetricKey::UtilizationOverall
    ||| metric == MetricKey::UtilizationGraphics
    ||| metric == MetricKey::UtilizationCompute
    ||| metric == MetricKey::UtilizationCopy
    ||| metric == MetricKey::UtilizationMemoryController
    ||| metric == MetricKey::UtilizationEncoder
    ||| metric == MetricKey::UtilizationDecoder
    ||| metric == MetricKey::MemoryBandwidthUtilizationPercent
    ||| metric == MetricKey::FanPercent
}

/// Metrics whose values are temperatures.
pub open spec fn is_temperature(metric: MetricKey) -> bool {
    ||| metric == MetricKey::TemperatureCoreCelsius
    ||| metric == MetricKey::TemperatureEdgeCelsius
    ||| metric == MetricKey::TemperatureHotspotCelsius
    ||| metric == MetricKey::TemperatureMemoryCelsius
}

/// The value is a number, finite, and in the range of its metric: 0 to 100 for a percentage, -100
/// to 300 for a temperature, at least 0 for any other. The list of processes has no number.
pub open spec fn valid(observation: MetricObservation) -> bool {
    match numeric(observation.value) {
        None => false,
        Some(value) => value.finite() && if observation.metric == MetricKey::Processes {
            false
        } else if is_percentage(observation.metric) {
            value.percent()
        } else if is_temperature(observation.metric) {
            value.plausible_celsius()
        } else {
            value.order() >= 0
        },
    }
}

pub fn validate_metric(observation: &MetricObservation) -> (ok: bool)
    ensures
        ok == valid(*observation),
{
    let value = match observation.value.as_f64() {
        Some(value) => value,
        None => {
            return false;
        },
    };
    if !value.is_finite() {
        return false;
    }
    match observation.metric {
        MetricKey::UtilizationOverall
        | MetricKey::UtilizationGraphics
        | MetricKey::UtilizationCompute
        | MetricKey::UtilizationCopy
        | MetricKey::UtilizationMemoryController
        | MetricKey::UtilizationEncoder
        | MetricKey::UtilizationDecoder
        | MetricKey::MemoryBandwidthUtilizationPercent
        | MetricKey::FanPercent => value.is_percent(),
        MetricKey::MemoryDedicatedUsedBytes
        | MetricKey::MemorySharedUsedBytes
        | MetricKey::MemoryUnifiedUsedBytes
        | MetricKey::MemoryBudgetBytes
        | MetricKey::PowerDrawWatts
        | MetricKey::PowerLimitWatts
        | MetricKey::PowerEnergyJoules
        | MetricKey::ClockGraphicsMhz
        | MetricKey::ClockComputeMhz
        | MetricKey::ClockMemoryMhz
        | MetricKey::ClockVideoMhz
        | MetricKey::FanRpm => value.is_non_negative(),
        MetricKey::TemperatureCoreCelsius
        | MetricKey::TemperatureEdgeCelsius
        | MetricKey::TemperatureHotspotCelsius
        | MetricKey::TemperatureMemoryCelsius => value.is_plausible_celsius(),
        MetricKey::Processes => false,
    }
}

/// The age of an observation, zero where it was made after `now_ms`.
pub open spec fn age(observation: MetricObservation, now_ms: u64) -> int {
    if now_ms >= observation.sampled_at {
        now_ms - observation.sampled_at
    } else {
        0
    }
}

pub open spec fn stale(observation: MetricObservation, now_ms: u64) -> bool {
    age(observation, now_ms) > STALE_AFTER_MS
}

fn age_of(observation: &MetricObservation, now_ms: u64) -> (result: u64)
    ensures
        result == age(*observation, now_ms),
{
    if now_ms >= observation.sampled_at {
        now_ms - observation.sampled_at
    } else {
        0
    }
}

pub fn is_stale(observation: &MetricObservation, now_ms: u64) -> (result: bool)
    ensures
        result == stale(*observation, now_ms),
{
    age_of(observation, now_ms) > STALE_AFTER_MS
}

/// What is taken off the score of an observation for its age.
pub open spec fn age_penalty(observation: MetricObservation, now_ms: u64) -> int {
    let age = age(observation, now_ms);
    if age > STALE_AFTER_MS {
        100_000 + if age <= i64::MAX {
            age
        } else {
            i64::MAX as int
        }
    } else {
        age / 10
    }
}

/// How much an observation counts, before it is cut to the range of machine integers.
pub open spec fn weight(
    observation: MetricObservation,
    providers: Map<Seq<char>, ProviderMetadata>,
    now_ms: u64,
) -> int {
    let known = if providers.contains_key(observation.source@) {
        let metadata = providers[observation.source@];
        metadata.priority(observation.metric) * 100_000 + metadata.specificity * 1_000
            + metadata.reliability * 10
    } else {
        0
    };
    known + quality_score(observation.quality) - age_penalty(observation, now_ms)
}

/// How much an observation counts. Only an age of hundreds of millions of years is cut.
pub open spec fn score_of(
    observation: MetricObservation,
    providers: Map<Seq<char>, ProviderMetadata>,
    now_ms: u64,
) -> i64 {
    let weight = weight(observation, providers, now_ms);
    if weight < i64::MIN {
        i64::MIN
    } else {
        weight as i64
    }
}

pub fn score(observation: &MetricObservation, providers: &ProviderTable, now_ms: u64) -> (score: i64)
    ensures
        score == score_of(*observation, providers@, now_ms),
        score == weight(*observation, providers@, now_ms) || weight(
            *observation,
            providers@,
            now_ms,
        ) < i64::MIN,
{
    let (priority, specificity, reliability): (i128, i128, i128) = match providers.get(
        &observation.source,
    ) {
        Some(metadata) => (
            metadata.metric_priority(observation.metric) as i128,
            metadata.specificity as i128,
            metadata.reliability as i128,
        ),
        None => (0, 0, 0),
    };
    let age: u64 = age_of(observation, now_ms);
    let penalty: i128 = if age > STALE_AFTER_MS {
        100_000 + if age <= i64::MAX as u64 {
            age as i128
        } else {
            i64::MAX as i128
        }
    } else {
        (age / 10) as i128
    };
    let weight: i128 = priority * 100_000 + specificity * 1_000 + reliability * 10
        + observation.quality.score() as i128 - penalty;
    if weight < i64::MIN as i128 {
        i64::MIN
    } else {
        weight as i64
    }
}

/// What the candidates for a metric are ordered by: the higher score first, then the source.
pub struct CandidateKey {
    pub score: i64,
    pub source: String,
}

/// A candidate key by its contents.
pub struct CandidatePlace {
    pub score: i64,
    pub source: Seq<char>,
}

pub open spec fn candidate_before(a: CandidatePlace, b: CandidatePlace) -> bool {
    if a.score != b.score {
        a.score > b.score
    } else {
        text_less(a.source, b.source)
    }
}

impl Ordered for CandidateKey {
    type Model = CandidatePlace;

    open spec fn model(&self) -> CandidatePlace {
        CandidatePlace { score: self.score, source: self.source@ }
    }

    open spec fn less(a: CandidatePlace, b: CandidatePlace) -> bool {
        candidate_before(a, b)
    }

    proof fn less_irreflexive(a: CandidatePlace) {
        String::less_irreflexive(a.source);
    }

    proof fn less_transitive(a: CandidatePlace, b: CandidatePlace, c: CandidatePlace) {
        if a.score == b.score && b.score == c.score {
            String::less_transitive(a.source, b.source, c.source);
        }
    }

    proof fn less_total(a: CandidatePlace, b: CandidatePlace) {
        String::less_total(a.source, b.source);
    }

    fn relation(&self, other: &Self) -> (relation: Relation) {
        if self.score > other.score {
            Relation::Before
        } else if self.score < other.score {
            Relation::After
        } else {
            relate_text(self.source.as_str(), other.source.as_str())
        }
    }
}

pub open spec fn candidate_place(
    observation: MetricObservation,
    providers: Map<Seq<char>, ProviderMetadata>,
    now_ms: u64,
) -> CandidatePlace {
    CandidatePlace {
        score: score_of(observation, providers, now_ms),
        source: observation.source@,
    }
}

/// The valid observations of a metric, in the order in which they came.
pub open spec fn candidates(metrics: Seq<MetricObservation>, key: MetricKey) -> Seq<
    MetricObservation,
>
    decreases metrics.len(),
{
    if metrics.len() == 0 {
        Seq::empty()
    } else if valid(metrics.last()) && metrics.last().metric == key {
        candidates(metrics.drop_last(), key).push(metrics.last())
    } else {
        candidates(metrics.drop_last(), key)
    }
}

/// The valid observations of a metric, the best first.
pub open spec fn ranked(
    metrics: Seq<MetricObservation>,
    providers: Map<Seq<char>, ProviderMetadata>,
    now_ms: u64,
    key: MetricKey,
) -> Seq<MetricObservation> {
    let all = candidates(metrics, key);
    arranged(
        all,
        stable_order_of::<CandidateKey>(
            all.map_values(|o: MetricObservation| candidate_place(o, providers, now_ms)),
        ),
    )
}

/// The position of the first observation that is not stale, the length where all are.
pub open spec fn first_fresh(observations: Seq<MetricObservation>, now_ms: u64) -> int
    decreases observations.len(),
{
    if observations.len() == 0 {
        0
    } else if first_fresh(observations.drop_last(), now_ms) < observations.len() - 1 {
        first_fresh(observations.drop_last(), now_ms)
    } else if stale(observations.last(), now_ms) {
        observations.len() as int
    } else {
        observations.len() - 1
    }
}

/// The observation of a metric that counts: the best valid one that is not stale.
pub open spec fn selection(
    metrics: Seq<MetricObservation>,
    providers: Map<Seq<char>, ProviderMetadata>,
    now_ms: u64,
    key: MetricKey,
) -> Option<MetricObservation> {
    let ranked = ranked(metrics, providers, now_ms, key);
    let at = first_fresh(ranked, now_ms);
    if at < ranked.len() {
        Some(ranked[at])
    } else {
        None
    }
}

/// What the diagnostics say of the candidates of a metric.
pub open spec fn candidate_notes(
    metrics: Seq<MetricObservation>,
    providers: Map<Seq<char>, ProviderMetadata>,
    now_ms: u64,
    key: MetricKey,
) -> Seq<MergeCandidateDiagnostic> {
    let ranked = ranked(metrics, providers, now_ms, key);
    Seq::new(
        ranked.len(),
        |i: int|
            MergeCandidateDiagnostic {
                source: ranked[i].source,
                score: score_of(ranked[i], providers, now_ms),
                selected: i == first_fresh(ranked, now_ms),
                quality: ranked[i].quality,
                sampled_at: ranked[i].sampled_at,
            },
    )
}

/// How much a reason counts when several are given.
pub open spec fn reason_weight(reason: UnavailableReason) -> int {
    match reason {
        UnavailableReason::PermissionDenied => 7,
        UnavailableReason::DeviceLost => 6,
        UnavailableReason::DriverLibraryMissing => 5,
        UnavailableReason::FirstSample => 4,
        UnavailableReason::ProviderError => 3,
        UnavailableReason::TemporarilyUnavailable => 2,
        UnavailableReason::Unsupported => 1,
    }
}

pub fn unavailable_score(reason: UnavailableReason) -> (score: i8)
    ensures
        score == reason_weight(reason),
{
    match reason {
        UnavailableReason::PermissionDenied => 7,
        UnavailableReason::DeviceLost => 6,
        UnavailableReason::DriverLibraryMissing => 5,
        UnavailableReason::FirstSample => 4,
        UnavailableReason::ProviderError => 3,
        UnavailableReason::TemporarilyUnavailable => 2,
        UnavailableReason::Unsupported => 1,
    }
}

/// What is said of a metric whose observations are all stale.
pub open spec fn stale_absence(observation: MetricObservation) -> AbsenceModel {
    AbsenceModel {
        device_id: observation.device_id@,
        metric: observation.metric,
        reason: UnavailableReason::TemporarilyUnavailable,
        source: Some(observation.source@),
        message: Some("all provider observations for this metric are stale"@),
    }
}

/// What is said of an observation with an invalid value.
pub open spec fn invalid_absence(observation: MetricObservation) -> AbsenceModel {
    AbsenceModel {
        device_id: observation.device_id@,
        metric: observation.metric,
        reason: UnavailableReason::ProviderError,
        source: Some(observation.source@),
        message: Some("provider returned a non-finite or out-of-range value"@),
    }
}

/// The heavier of two accounts, the earlier one where they weigh the same.
pub open spec fn heavier(current: Option<AbsenceModel>, next: AbsenceModel) -> Option<
    AbsenceModel,
> {
    match current {
        None => Some(next),
        Some(earlier) => if reason_weight(next.reason) > reason_weight(earlier.reason) {
            Some(next)
        } else {
            current
        },
    }
}

/// `current` after the accounts of `key` in `unavailable`.
pub open spec fn after_reports(
    current: Option<AbsenceModel>,
    unavailable: Seq<AbsenceModel>,
    key: MetricKey,
) -> Option<AbsenceModel>
    decreases unavailable.len(),
{
    if unavailable.len() == 0 {
        current
    } else {
        let before = after_reports(current, unavailable.drop_last(), key);
        if unavailable.last().metric == key {
            heavier(before, unavailable.last())
        } else {
            before
        }
    }
}

/// `current` after the invalid observations of `key` in `metrics`.
pub open spec fn after_invalid(
    current: Option<AbsenceModel>,
    metrics: Seq<MetricObservation>,
    key: MetricKey,
) -> Option<AbsenceModel>
    decreases metrics.len(),
{
    if metrics.len() == 0 {
        current
    } else {
        let before = after_invalid(current, metrics.drop_last(), key);
        if metrics.last().metric == key && !valid(metrics.last()) {
            heavier(before, invalid_absence(metrics.last()))
        } else {
            before
        }
    }
}

/// Why a metric is missing, where something is known of it and no observation counts: the
/// heaviest reason among stale values, the providers' own accounts, and invalid values.
pub open spec fn absence(
    metrics: Seq<MetricObservation>,
    unavailable: Seq<AbsenceModel>,
    providers: Map<Seq<char>, ProviderMetadata>,
    now_ms: u64,
    key: MetricKey,
) -> Option<AbsenceModel> {
    if selection(metrics, providers, now_ms, key) is Some {
        None
    } else {
        let ranked = ranked(metrics, providers, now_ms, key);
        let start = if ranked.len() > 0 {
            Some(stale_absence(ranked[0]))
        } else {
            None
        };
        after_invalid(after_reports(start, unavailable, key), metrics, key)
    }
}

/// The diagnostics of a merge, by their contents.
pub open spec fn note_keys(diagnostics: Seq<MetricMergeDiagnostic>) -> Seq<MetricKey> {
    diagnostics.map_values(|note: MetricMergeDiagnostic| note.metric)
}

/// The selected observation of a metric is the wanted one, or there is none.
pub open spec fn selected_is(
    selected: Map<MetricKey, MetricObservation>,
    key: MetricKey,
    wanted: Option<MetricObservation>,
) -> bool {
    match wanted {
        Some(observation) => selected.contains_key(key) && selected[key] == observation,
        None => !selected.contains_key(key),
    }
}

/// The account of a missing metric is the wanted one, or there is none.
pub open spec fn explained_is(
    explained: Map<MetricKey, UnavailableObservation>,
    key: MetricKey,
    wanted: Option<AbsenceModel>,
) -> bool {
    match wanted {
        Some(model) => explained.contains_key(key) && explained[key]@ == model,
        None => !explained.contains_key(key),
    }
}

impl MergedMetrics {
    /// The outcome of a merge: the observation that counts for each metric that has one, the
    /// account of each other metric that something is known of, and the candidates of each metric
    /// that has any, in the order of the metrics.
    pub open spec fn is_merge_of(
        &self,
        metrics: Seq<MetricObservation>,
        unavailable: Seq<AbsenceModel>,
        providers: Map<Seq<char>, ProviderMetadata>,
        now_ms: u64,
    ) -> bool {
        &&& forall|key: MetricKey|
            #![trigger self.selected@.dom().contains(key)]
            #![trigger selection(metrics, providers, now_ms, key)]
            selected_is(self.selected@, key, selection(metrics, providers, now_ms, key))
        &&& forall|key: MetricKey|
            #![trigger self.unavailable@.dom().contains(key)]
            #![trigger absence(metrics, unavailable, providers, now_ms, key)]
            explained_is(
                self.unavailable@,
                key,
                absence(metrics, unavailable, providers, now_ms, key),
            )
        &&& lists_keys::<MetricKey>(
            note_keys(self.diagnostics@),
            Set::new(|key: MetricKey| candidates(metrics, key).len() > 0),
        )
        &&& forall|i: int|
            0 <= i < self.diagnostics@.len() ==> (#[trigger] self.diagnostics@[i]).candidates@
                == candidate_notes(metrics, providers, now_ms, self.diagnostics@[i].metric)
    }
}

/// The valid observations of a metric, the best first, as indices.
fn rank_candidates(
    metrics: &Vec<MetricObservation>,
    providers: &ProviderTable,
    now_ms: u64,
    key: MetricKey,
) -> (order: Vec<usize>)
    ensures
        forall|k: int| 0 <= k < order@.len() ==> #[trigger] order@[k] < metrics@.len(),
        Seq::new(order@.len(), |k: int| metrics@[order@[k] as int]) == ranked(
            metrics@,
            providers@,
            now_ms,
            key,
        ),
        order@.len() == candidates(metrics@, key).len(),
{
    let mut found: Vec<usize> = Vec::new();
    let mut keys: Vec<CandidateKey> = Vec::new();
    let mut i: usize = 0;
    while i < metrics.len()
        invariant
            i <= metrics.len(),
            keys.len() == found.len(),
            candidates(metrics@.take(i as int), key).len() == found.len(),
            forall|k: int|
                0 <= k < found.len() ==> #[trigger] found@[k] < metrics@.len() && candidates(
                    metrics@.take(i as int),
                    key,
                )[k] == metrics@[found@[k] as int],
            forall|k: int|
                0 <= k < keys.len() ==> (#[trigger] keys@[k]).model() == candidate_place(
                    metrics@[found@[k] as int],
                    providers@,
                    now_ms,
                ),
        decreases metrics.len() - i,
    {
        assert(metrics@.take(i + 1).drop_last() == metrics@.take(i as int));
        if metrics[i].metric == key && validate_metric(&metrics[i]) {
            keys.push(
                CandidateKey {
                    score: score(&metrics[i], providers, now_ms),
                    source: metrics[i].source.clone(),
                },
            );
            found.push(i);
        }
        i = i + 1;
    }
    assert(metrics@.take(i as int) == metrics@);
    let places = stable_order(&keys);
    let mut order: Vec<usize> = Vec::new();
    let mut p: usize = 0;
    while p < places.len()
        invariant
            p <= places.len(),
            places.len() == found.len(),
            forall|k: int| 0 <= k < found@.len() ==> #[trigger] found@[k] < metrics@.len(),
            forall|k: int| 0 <= k < places@.len() ==> #[trigger] places@[k] < found@.len(),
            order.len() == p,
            forall|k: int| 0 <= k < p ==> #[trigger] order@[k] == found@[places@[k] as int],
        decreases places.len() - p,
    {
        order.push(found[places[p]]);
        p = p + 1;
    }
    proof {
        let all = candidates(metrics@, key);
        let keyed = all.map_values(
            |o: MetricObservation| candidate_place(o, providers@, now_ms),
        );
        assert(models(keys@) == keyed);
        let made = Seq::new(order@.len(), |k: int| metrics@[order@[k] as int]);
        let expected = ranked(metrics@, providers@, now_ms, key);
        assert forall|k: int| 0 <= k < order@.len() implies made[k] == expected[k]
            && #[trigger] order@[k] < metrics@.len() by {
            assert(indices(places@)[k] == places@[k]);
            assert(order@[k] == found@[places@[k] as int]);
        }
        assert(made == expected);
    }
    order
}

/// The first of the ranked observations that is not stale.
fn pick_fresh(metrics: &Vec<MetricObservation>, order: &Vec<usize>, now_ms: u64) -> (at: usize)
    requires
        forall|k: int| 0 <= k < order@.len() ==> #[trigger] order@[k] < metrics@.len(),
    ensures
        at == first_fresh(Seq::new(order@.len(), |k: int| metrics@[order@[k] as int]), now_ms),
        at <= order@.len(),
{
    let ghost all = Seq::new(order@.len(), |k: int| metrics@[order@[k] as int]);
    let mut at: usize = order.len();
    let mut k: usize = 0;
    while k < order.len()
        invariant
            k <= order.len(),
            at == order.len() || at < k,
            forall|k: int| 0 <= k < order@.len() ==> #[trigger] order@[k] < metrics@.len(),
            all == Seq::new(order@.len(), |k: int| metrics@[order@[k] as int]),
            first_fresh(all.take(k as int), now_ms) == if at < k {
                at as int
            } else {
                k as int
            },
        decreases order.len() - k,
    {
        assert(all.take(k + 1).drop_last() == all.take(k as int));
        if at == order.len() && !is_stale(&metrics[order[k]], now_ms) {
            at = k;
        }
        k = k + 1;
    }
    assert(all.take(k as int) == all);
    at
}

fn note_candidates(
    metrics: &Vec<MetricObservation>,
    order: &Vec<usize>,
    fresh: usize,
    providers: &ProviderTable,
    now_ms: u64,
) -> (notes: Vec<MergeCandidateDiagnostic>)
    requires
        forall|k: int| 0 <= k < order@.len() ==> #[trigger] order@[k] < metrics@.len(),
    ensures
        notes@.len() == order@.len(),
        forall|k: int|
            0 <= k < order@.len() ==> #[trigger] notes@[k] == (MergeCandidateDiagnostic {
                source: metrics@[order@[k] as int].source,
                score: score_of(metrics@[order@[k] as int], providers@, now_ms),
                selected: k == fresh,
                quality: metrics@[order@[k] as int].quality,
                sampled_at: metrics@[order@[k] as int].sampled_at,
            }),
{
    let mut notes: Vec<MergeCandidateDiagnostic> = Vec::new();
    let mut k: usize = 0;
    while k < order.len()
        invariant
            k <= order.len(),
            notes.len() == k,
            forall|k: int| 0 <= k < order@.len() ==> #[trigger] order@[k] < metrics@.len(),
            forall|i: int|
                0 <= i < k ==> #[trigger] notes@[i] == (MergeCandidateDiagnostic {
                    source: metrics@[order@[i] as int].source,
                    score: score_of(metrics@[order@[i] as int], providers@, now_ms),
                    selected: i == fresh,
                    quality: metrics@[order@[i] as int].quality,
                    sampled_at: metrics@[order@[i] as int].sampled_at,
                }),
        decreases order.len() - k,
    {
        let observation = &metrics[order[k]];
        notes.push(
            MergeCandidateDiagnostic {
                source: observation.source.clone(),
                score: score(observation, providers, now_ms),
                selected: k == fresh,
                quality: observation.quality,
                sampled_at: observation.sampled_at,
            },
        );
        k = k + 1;
    }
    notes
}

/// The view of an account that may be missing.
pub open spec fn absence_view(account: Option<UnavailableObservation>) -> Option<AbsenceModel> {
    match account {
        Some(account) => Some(account@),
        None => None,
    }
}

/// Keeps the heavier of two accounts.
fn keep_heavier(
    current: Option<UnavailableObservation>,
    next: UnavailableObservation,
) -> (kept: Option<UnavailableObservation>)
    ensures
        absence_view(kept) == heavier(absence_view(current), next@),
{
    match current {
        None => Some(next),
        Some(earlier) => if unavailable_score(next.reason) > unavailable_score(earlier.reason) {
            Some(next)
        } else {
            Some(earlier)
        },
    }
}

/// The account of a metric that no observation counts for.
fn explain_absence(
    metrics: &Vec<MetricObservation>,
    unavailable: &Vec<UnavailableObservation>,
    best: Option<usize>,
    key: MetricKey,
) -> (account: Option<UnavailableObservation>)
    requires
        match best {
            Some(best) => best < metrics@.len() && metrics@[best as int].metric == key,
            None => true,
        },
    ensures
        absence_view(account) == after_invalid(
            after_reports(
                match best {
                    Some(best) => Some(stale_absence(metrics@[best as int])),
                    None => None,
                },
                absences(unavailable@),
                key,
            ),
            metrics@,
            key,
        ),
{
    let ghost start = match best {
        Some(best) => Some(stale_absence(metrics@[best as int])),
        None => None,
    };
    let mut account: Option<UnavailableObservation> = match best {
        None => None,
        Some(best) => Some(
            UnavailableObservation {
                device_id: metrics[best].device_id.clone(),
                metric: key,
                reason: UnavailableReason::TemporarilyUnavailable,
                source: Some(metrics[best].source.clone()),
                message: Some(owned("all provider observations for this metric are stale")),
            },
        ),
    };
    let mut i: usize = 0;
    while i < unavailable.len()
        invariant
            i <= unavailable.len(),
            absence_view(account) == after_reports(
                start,
                absences(unavailable@).take(i as int),
                key,
            ),
        decreases unavailable.len() - i,
    {
        assert(absences(unavailable@).take(i + 1).drop_last() == absences(unavailable@).take(
            i as int,
        ));
        if unavailable[i].metric == key {
            account = keep_heavier(account, unavailable[i].clone());
        }
        i = i + 1;
    }
    assert(absences(unavailable@).take(i as int) == absences(unavailable@));
    let ghost reported = absence_view(account);
    let mut i: usize = 0;
    while i < metrics.len()
        invariant
            i <= metrics.len(),
            absence_view(account) == after_invalid(reported, metrics@.take(i as int), key),
        decreases metrics.len() - i,
    {
        assert(metrics@.take(i + 1).drop_last() == metrics@.take(i as int));
        if metrics[i].metric == key && !validate_metric(&metrics[i]) {
            let next = UnavailableObservation {
                device_id: metrics[i].device_id.clone(),
                metric: metrics[i].metric,
                reason: UnavailableReason::ProviderError,
                source: Some(metrics[i].source.clone()),
                message: Some(owned("provider returned a non-finite or out-of-range value")),
            };
            account = keep_heavier(account, next);
        }
        i = i + 1;
    }
    assert(metrics@.take(i as int) == metrics@);
    account
}

pub proof fn lemma_candidates(metrics: Seq<MetricObservation>, key: MetricKey)
    ensures
        forall|k: int|
            0 <= k < candidates(metrics, key).len() ==> {
                let o = #[trigger] candidates(metrics, key)[k];
                o.metric == key && valid(o) && metrics.contains(o)
            },
        forall|o: MetricObservation|
            #[trigger] metrics.contains(o) && o.metric == key && valid(o) ==> candidates(
                metrics,
                key,
            ).contains(o),
    decreases metrics.len(),
{
    if metrics.len() > 0 {
        let rest = metrics.drop_last();
        lemma_candidates(rest, key);
        let before = candidates(rest, key);
        let now = candidates(metrics, key);
        assert forall|k: int| 0 <= k < now.len() implies {
            let o = #[trigger] now[k];
            o.metric == key && valid(o) && metrics.contains(o)
        } by {
            if k < before.len() {
                assert(now[k] == before[k]);
                let p = choose|p: int| 0 <= p < rest.len() && rest[p] == before[k];
                assert(metrics[p] == before[k]);
            } else {
                assert(metrics[metrics.len() - 1] == now[k]);
            }
        }
        assert forall|o: MetricObservation|
            #[trigger] metrics.contains(o) && o.metric == key && valid(o) implies now.contains(
            o,
        ) by {
            let p = choose|p: int| 0 <= p < metrics.len() && metrics[p] == o;
            if p < rest.len() {
                assert(rest[p] == o);
                assert(rest.contains(o));
                let q = choose|q: int| 0 <= q < before.len() && before[q] == o;
                assert(now[q] == o);
            } else {
                assert(now[now.len() - 1] == o);
            }
        }
    }
}

/// The metrics before `place` are selected as they should be, the others not at all.
spec fn selected_so_far(
    selected: Map<MetricKey, MetricObservation>,
    metrics: Seq<MetricObservation>,
    providers: Map<Seq<char>, ProviderMetadata>,
    now_ms: u64,
    place: int,
    key: MetricKey,
) -> bool {
    match selection(metrics, providers, now_ms, key) {
        Some(observation) => if metric_place(key) < place {
            selected.contains_key(key) && selected[key] == observation
        } else {
            !selected.contains_key(key)
        },
        None => !selected.contains_key(key),
    }
}

/// The absence of the metrics before `place` is explained as it should be, of the others not yet.
spec fn explained_so_far(
    explained: Map<MetricKey, UnavailableObservation>,
    metrics: Seq<MetricObservation>,
    unavailable: Seq<AbsenceModel>,
    providers: Map<Seq<char>, ProviderMetadata>,
    now_ms: u64,
    place: int,
    key: MetricKey,
) -> bool {
    match absence(metrics, unavailable, providers, now_ms, key) {
        Some(model) => if metric_place(key) < place {
            explained.contains_key(key) && explained[key]@ == model
        } else {
            !explained.contains_key(key)
        },
        None => !explained.contains_key(key),
    }
}

/// Merges what the providers say of one device.
pub fn merge_metrics(
    metrics: Vec<MetricObservation>,
    unavailable: Vec<UnavailableObservation>,
    providers: &ProviderTable,
    now_ms: u64,
) -> (merged: MergedMetrics)
    ensures
        merged.is_merge_of(metrics@, absences(unavailable@), providers@, now_ms),
{
    let mut merged = MergedMetrics::default();
    let ghost noted = Set::new(|key: MetricKey| candidates(metrics@, key).len() > 0);
    let mut place: u8 = 0;
    assert(note_keys(merged.diagnostics@) == Seq::<MetricKey>::empty());
    while place < 26
        invariant
            place <= 26,
            noted == Set::new(|key: MetricKey| candidates(metrics@, key).len() > 0),
            forall|key: MetricKey| #[trigger]
                selected_so_far(merged.selected@, metrics@, providers@, now_ms, place as int, key),
            forall|key: MetricKey| #[trigger]
                explained_so_far(
                    merged.unavailable@,
                    metrics@,
                    absences(unavailable@),
                    providers@,
                    now_ms,
                    place as int,
                    key,
                ),
            lists_keys::<MetricKey>(
                note_keys(merged.diagnostics@),
                noted.filter(|key: MetricKey| metric_place(key) < place),
            ),
            forall|i: int|
                0 <= i < merged.diagnostics@.len()
                    ==> (#[trigger] merged.diagnostics@[i]).candidates@ == candidate_notes(
                    metrics@,
                    providers@,
                    now_ms,
                    merged.diagnostics@[i].metric,
                ),
        decreases 26 - place,
    {
        let key = MetricKey::at(place);
        let order = rank_candidates(&metrics, providers, now_ms, key);
        let fresh = pick_fresh(&metrics, &order, now_ms);
        let ghost ranking = ranked(metrics@, providers@, now_ms, key);
        let ghost before = note_keys(merged.diagnostics@);
        let ghost seen = noted.filter(|key: MetricKey| metric_place(key) < place);
        let ghost now = noted.filter(|key: MetricKey| metric_place(key) < place + 1);
        if order.len() > 0 {
            let candidates = note_candidates(&metrics, &order, fresh, providers, now_ms);
            assert(candidates@ == candidate_notes(metrics@, providers@, now_ms, key)) by {
                assert forall|k: int| 0 <= k < candidates@.len() implies candidates@[k]
                    == candidate_notes(metrics@, providers@, now_ms, key)[k] by {
                    assert(ranking[k] == metrics@[order@[k] as int]);
                }
            }
            merged.diagnostics.push(MetricMergeDiagnostic { metric: key, candidates });
            assert(note_keys(merged.diagnostics@) == before.push(key));
        }
        proof {
            lemma_note_added(before, seen, now, key, place as int, order@.len() > 0, noted);
        }
        let ghost chosen = merged.selected@;
        let ghost explained = merged.unavailable@;
        assert(selection(metrics@, providers@, now_ms, key) == if fresh < order@.len() {
            Some(metrics@[order@[fresh as int] as int])
        } else {
            None
        }) by {
            if fresh < order@.len() {
                assert(ranking[fresh as int] == metrics@[order@[fresh as int] as int]);
            }
        }
        if fresh < order.len() {
            merged.selected.insert(key, metrics[order[fresh]].clone());
        } else {
            let best: Option<usize> = if order.len() > 0 {
                Some(order[0])
            } else {
                None
            };
            proof {
                if order@.len() > 0 {
                    assert(ranking[0] == metrics@[order@[0] as int]);
                    lemma_ranked(metrics@, providers@, now_ms, key);
                }
            }
            if let Some(account) = explain_absence(&metrics, &unavailable, best, key) {
                merged.unavailable.insert(key, account);
            }
        }
        proof {
            assert forall|k: MetricKey| #[trigger]
                selected_so_far(merged.selected@, metrics@, providers@, now_ms, place + 1, k) by {
                assert(selected_so_far(chosen, metrics@, providers@, now_ms, place as int, k));
                assert(metric_place(k) == place ==> k == key);
            }
            assert forall|k: MetricKey| #[trigger]
                explained_so_far(
                    merged.unavailable@,
                    metrics@,
                    absences(unavailable@),
                    providers@,
                    now_ms,
                    place + 1,
                    k,
                ) by {
                assert(explained_so_far(
                    explained,
                    metrics@,
                    absences(unavailable@),
                    providers@,
                    now_ms,
                    place as int,
                    k,
                ));
                assert(metric_place(k) == place ==> k == key);
            }
        }
        place = place + 1;
    }
    assert(noted.filter(|key: MetricKey| metric_place(key) < place) == noted);
    assert forall|key: MetricKey|
        #![trigger merged.selected@.dom().contains(key)]
        #![trigger selection(metrics@, providers@, now_ms, key)]
        selected_is(merged.selected@, key, selection(metrics@, providers@, now_ms, key)) by {
        assert(selected_so_far(merged.selected@, metrics@, providers@, now_ms, 26, key));
    }
    assert forall|key: MetricKey|
        #![trigger merged.unavailable@.dom().contains(key)]
        #![trigger absence(metrics@, absences(unavailable@), providers@, now_ms, key)]
        explained_is(
            merged.unavailable@,
            key,
            absence(metrics@, absences(unavailable@), providers@, now_ms, key),
        ) by {
        assert(explained_so_far(
            merged.unavailable@,
            metrics@,
            absences(unavailable@),
            providers@,
            now_ms,
            26,
            key,
        ));
    }
    merged
}

pub proof fn lemma_note_added(
    before: Seq<MetricKey>,
    seen: Set<MetricKey>,
    now: Set<MetricKey>,
    key: MetricKey,
    place: int,
    present: bool,
    noted: Set<MetricKey>,
)
    requires
        lists_keys::<MetricKey>(before, seen),
        metric_place(key) == place,
        present == noted.contains(key),
        seen == noted.filter(|key: MetricKey| metric_place(key) < place),
        now == noted.filter(|key: MetricKey| metric_place(key) < place + 1),
    ensures
        lists_keys::<MetricKey>(
            if present {
                before.push(key)
            } else {
                before
            },
            now,
        ),
{
    let after = if present {
        before.push(key)
    } else {
        before
    };
    assert forall|k: MetricKey| after.contains(k) <==> #[trigger] now.contains(k) by {
        assert(before.contains(k) <==> seen.contains(k));
        if present {
            assert(after[after.len() - 1] == key);
            if before.contains(k) {
                let p = choose|p: int| 0 <= p < before.len() && before[p] == k;
                assert(after[p] == k);
            }
            if after.contains(k) && k != key {
                let p = choose|p: int| 0 <= p < after.len() && after[p] == k;
                assert(before[p] == k);
            }
        }
    }
    assert forall|i: int, j: int| 0 <= i < j < after.len() implies metric_place(
        #[trigger] after[i],
    ) < metric_place(#[trigger] after[j]) by {
        if j == before.len() {
            assert(before.contains(before[i]));
            assert(seen.contains(before[i]));
        }
    }
}

/// The ranked observations are the candidates.
pub proof fn lemma_ranked(
    metrics: Seq<MetricObservation>,
    providers: Map<Seq<char>, ProviderMetadata>,
    now_ms: u64,
    key: MetricKey,
)
    ensures
        forall|k: int|
            0 <= k < ranked(metrics, providers, now_ms, key).len() ==> {
                let o = #[trigger] ranked(metrics, providers, now_ms, key)[k];
                o.metric == key && valid(o) && metrics.contains(o)
            },
{
    let all = candidates(metrics, key);
    let keyed = all.map_values(|o: MetricObservation| candidate_place(o, providers, now_ms));
    crate::ordered::lemma_stable_order_exists::<CandidateKey>(keyed);
    let order = stable_order_of::<CandidateKey>(keyed);
    lemma_candidates(metrics, key);
    let ranking = ranked(metrics, providers, now_ms, key);
    assert forall|k: int| 0 <= k < ranking.len() implies {
        let o = #[trigger] ranking[k];
        o.metric == key && valid(o) && metrics.contains(o)
    } by {
        assert(0 <= order[k] < all.len());
        assert(ranking[k] == all[order[k]]);
    }
}

} // verus!
