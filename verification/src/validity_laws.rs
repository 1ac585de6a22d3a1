//! Which values of a metric count, and how they are weighed against each other.
use crate::binary64::Binary64;
use crate::float_arithmetic::{lemma_integer_bound, nearest_bits};
use crate::float_laws::lemma_bits_by;
use crate::float_order::lemma_monotone;
use crate::merge::{
    absence, after_invalid, after_reports, candidate_before, candidate_notes, candidate_place,
    candidates, first_fresh, lemma_ranked, ranked, score_of, selection, stale, stale_absence,
    valid, AbsenceModel, MergedMetrics,
};
use crate::merge_laws::{
    law_fresh_values_are_not_lost, law_selected_is_valid_and_fresh, lemma_first_fresh,
    lemma_ranking,
};
use crate::model::{
    MergeCandidateDiagnostic, MetricKey, MetricObservation, MetricQuality, MetricValue,
    UnavailableReason,
};
use crate::provider::ProviderMetadata;
use vstd::prelude::*;

verus! {

/// Memory, power, energy, clocks and fan speeds.
pub open spec fn is_amount(key: MetricKey) -> bool {
    ||| key == MetricKey::MemoryDedicatedUsedBytes
    ||| key == MetricKey::MemorySharedUsedBytes
    ||| key == MetricKey::MemoryUnifiedUsedBytes
    ||| key == MetricKey::MemoryBudgetBytes
    ||| key == MetricKey::PowerDrawWatts
    ||| key == MetricKey::PowerLimitWatts
    ||| key == MetricKey::PowerEnergyJoules
    ||| key == MetricKey::ClockGraphicsMhz
    ||| key == MetricKey::ClockComputeMhz
    ||| key == MetricKey::ClockMemoryMhz
    ||| key == MetricKey::ClockVideoMhz
    ||| key == MetricKey::FanRpm
}

/// Utilizations and other shares of a whole.
pub open spec fn is_share(key: MetricKey) -> bool {
    ||| key == MetricKey::UtilizationOverall
    ||| key == MetricKey::UtilizationGraphics
    ||| key == MetricKey::UtilizationCompute
    ||| key == MetricKey::UtilizationCopy
    ||| key == MetricKey::UtilizationMemoryController
    ||| key == MetricKey::UtilizationEncoder
    ||| key == MetricKey::UtilizationDecoder
    ||| key == MetricKey::MemoryBandwidthUtilizationPercent
    ||| key == MetricKey::FanPercent
}

/// Temperatures.
pub open spec fn is_heat(key: MetricKey) -> bool {
    ||| key == MetricKey::TemperatureCoreCelsius
    ||| key == MetricKey::TemperatureEdgeCelsius
    ||| key == MetricKey::TemperatureHotspotCelsius
    ||| key == MetricKey::TemperatureMemoryCelsius
}

/// An amount counts where it is finite and at least zero, however large it is. The bits of such a
/// number are those below infinity, and those of the negative zero.
pub proof fn law_amounts_are_finite_and_not_negative(o: MetricObservation, value: Binary64)
    requires
        is_amount(o.metric),
        o.value == MetricValue::Number(value),
    ensures
        valid(o) <==> value.bits < 0x7ff0_0000_0000_0000 || value.bits == 0x8000_0000_0000_0000,
{
}

/// A share counts where it lies between zero and one hundred; the double one hundred has the bits
/// of the bound.
pub proof fn law_shares_lie_between_zero_and_one_hundred(o: MetricObservation, value: Binary64)
    requires
        is_share(o.metric),
        o.value == MetricValue::Number(value),
    ensures
        valid(o) <==> value.bits <= 0x4059_0000_0000_0000 || value.bits == 0x8000_0000_0000_0000,
{
}

/// A temperature counts where it lies between one hundred degrees below zero and three hundred
/// above.
pub proof fn law_temperatures_are_plausible(o: MetricObservation, value: Binary64)
    requires
        is_heat(o.metric),
        o.value == MetricValue::Number(value),
    ensures
        valid(o) <==> value.bits <= 0x4072_c000_0000_0000 || (0x8000_0000_0000_0000 <= value.bits
            && value.bits <= 0xc059_0000_0000_0000),
{
}

/// What is no number does not count, and the list of processes is no number.
pub proof fn law_only_numbers_count(o: MetricObservation)
    ensures
        valid(o) ==> o.value is Number || o.value is Integer,
        valid(o) ==> o.metric != MetricKey::Processes,
        valid(o) ==> is_amount(o.metric) || is_share(o.metric) || is_heat(o.metric),
{
}

/// A whole number counts as an amount; as a share or as a temperature it counts up to the limit.
pub proof fn law_whole_numbers_count(o: MetricObservation, n: u64)
    requires
        o.value == MetricValue::Integer(n),
    ensures
        is_amount(o.metric) ==> valid(o),
        is_share(o.metric) && n <= 100 ==> valid(o),
        is_heat(o.metric) && n <= 300 ==> valid(o),
        is_share(o.metric) && n >= 101 ==> !valid(o),
        is_heat(o.metric) && n >= 301 ==> !valid(o),
{
    lemma_integer_bound(n as nat);
    lemma_small_integers();
    if n <= 100 {
        lemma_monotone(n as nat, 100, 1, 1074);
    } else {
        lemma_monotone(101, n as nat, 1, 1074);
    }
    if n <= 300 {
        lemma_monotone(n as nat, 300, 1, 1074);
    } else {
        lemma_monotone(301, n as nat, 1, 1074);
    }
}

proof fn lemma_small_integers()
    ensures
        nearest_bits(100) == 0x4059_0000_0000_0000,
        nearest_bits(101) == 0x4059_4000_0000_0000,
        nearest_bits(300) == 0x4072_c000_0000_0000,
        nearest_bits(301) == 0x4072_d000_0000_0000,
{
    vstd::arithmetic::power2::lemma2_to64();
    vstd::arithmetic::power2::lemma2_to64_rest();
    lemma_bits_by(100, 46);
    lemma_bits_by(101, 46);
    lemma_bits_by(300, 44);
    lemma_bits_by(301, 44);
}

/// The age at which an observation is no longer fresh is thirty seconds.
pub proof fn law_observations_stay_fresh_for_thirty_seconds(o: MetricObservation, now_ms: u64)
    ensures
        stale(o, now_ms) <==> now_ms > o.sampled_at + 30_000,
{
}

/// The only observation of a metric is selected where it is valid and fresh.
pub proof fn law_the_only_fresh_value_is_selected(
    merged: MergedMetrics,
    metrics: Seq<MetricObservation>,
    unavailable: Seq<AbsenceModel>,
    providers: Map<Seq<char>, ProviderMetadata>,
    now_ms: u64,
    i: int,
    value: Binary64,
)
    requires
        merged.is_merge_of(metrics, unavailable, providers, now_ms),
        0 <= i < metrics.len(),
        forall|j: int|
            0 <= j < metrics.len() && (#[trigger] metrics[j]).metric == metrics[i].metric ==> j
                == i,
        now_ms <= metrics[i].sampled_at + 30_000,
        metrics[i].value == MetricValue::Number(value),
        is_amount(metrics[i].metric) ==> value.bits < 0x7ff0_0000_0000_0000,
        is_share(metrics[i].metric) ==> value.bits <= 0x4059_0000_0000_0000,
        is_heat(metrics[i].metric) ==> value.bits <= 0x4072_c000_0000_0000 || (
        0x8000_0000_0000_0000 <= value.bits && value.bits <= 0xc059_0000_0000_0000),
        metrics[i].metric != MetricKey::Processes,
    ensures
        merged.selected@.contains_key(metrics[i].metric),
        merged.selected@[metrics[i].metric] == metrics[i],
        !merged.unavailable@.contains_key(metrics[i].metric),
{
    let o = metrics[i];
    let key = o.metric;
    assert(is_amount(key) || is_share(key) || is_heat(key));
    assert(metrics.contains(o));
    law_fresh_values_are_not_lost(metrics, providers, now_ms, o);
    law_selected_is_valid_and_fresh(metrics, providers, now_ms, key);
    let chosen = selection(metrics, providers, now_ms, key)->0;
    let j = choose|j: int| 0 <= j < metrics.len() && metrics[j] == chosen;
    assert(metrics[j].metric == metrics[i].metric);
    assert(crate::merge::selected_is(
        merged.selected@,
        key,
        selection(metrics, providers, now_ms, key),
    ));
    assert(crate::merge::explained_is(
        merged.unavailable@,
        key,
        absence(metrics, unavailable, providers, now_ms, key),
    ));
}

/// The two observations differ in their quality alone, as far as they are weighed.
pub open spec fn differ_in_quality(a: MetricObservation, b: MetricObservation) -> bool {
    &&& a.metric == b.metric
    &&& a.source@ == b.source@
    &&& a.sampled_at == b.sampled_at
}

/// Beside one that was derived, a direct reading counts for a hundred more, and beside an
/// estimated one for two hundred more.
pub proof fn law_direct_readings_count_more(
    a: MetricObservation,
    b: MetricObservation,
    providers: Map<Seq<char>, ProviderMetadata>,
    now_ms: u64,
)
    requires
        differ_in_quality(a, b),
        now_ms <= a.sampled_at + 30_000,
    ensures
        a.quality == MetricQuality::Direct && b.quality == MetricQuality::Derived ==> score_of(
            a,
            providers,
            now_ms,
        ) == score_of(b, providers, now_ms) + 100,
        a.quality == MetricQuality::Derived && b.quality == MetricQuality::Estimated ==> score_of(
            a,
            providers,
            now_ms,
        ) == score_of(b, providers, now_ms) + 100,
        a.quality == b.quality ==> score_of(a, providers, now_ms) == score_of(
            b,
            providers,
            now_ms,
        ),
{
}

/// A fresh observation loses one point for every ten milliseconds of its age.
pub proof fn law_age_costs_points(
    a: MetricObservation,
    b: MetricObservation,
    providers: Map<Seq<char>, ProviderMetadata>,
    now_ms: u64,
)
    requires
        a.metric == b.metric,
        a.source@ == b.source@,
        a.quality == b.quality,
        b.sampled_at <= now_ms,
        now_ms <= b.sampled_at + 30_000,
        a.sampled_at == now_ms,
    ensures
        score_of(b, providers, now_ms) == score_of(a, providers, now_ms) - (now_ms - b.sampled_at)
            / 10,
{
}

/// A provider's word counts for one hundred thousand points for each point of its priority for the
/// metric, for one thousand for each of its specificity, and for ten for each of its reliability.
/// Beside it a provider that is not known has none.
pub proof fn law_providers_are_weighed(
    o: MetricObservation,
    providers: Map<Seq<char>, ProviderMetadata>,
    others: Map<Seq<char>, ProviderMetadata>,
    now_ms: u64,
)
    requires
        providers.contains_key(o.source@),
        !others.contains_key(o.source@),
        now_ms <= o.sampled_at + 30_000,
    ensures
        ({
            let metadata = providers[o.source@];
            let priority: int = if metadata.metric_priorities@.contains_key(o.metric) {
                metadata.metric_priorities@[o.metric] as int
            } else {
                0
            };
            score_of(o, providers, now_ms) - score_of(o, others, now_ms) == 100_000 * priority
                + 1_000 * metadata.specificity + 10 * metadata.reliability
        }),
{
}

/// What a direct and fresh observation of an unknown provider counts for.
pub proof fn law_unknown_providers_count_by_quality(
    o: MetricObservation,
    providers: Map<Seq<char>, ProviderMetadata>,
)
    requires
        !providers.contains_key(o.source@),
        o.quality == MetricQuality::Direct,
    ensures
        score_of(o, providers, o.sampled_at) == 300,
{
}

/// How grave a reason is.
pub open spec fn is_graver(a: UnavailableReason, b: UnavailableReason) -> bool {
    match a {
        UnavailableReason::PermissionDenied => b != UnavailableReason::PermissionDenied,
        UnavailableReason::DeviceLost => b != UnavailableReason::PermissionDenied && b
            != UnavailableReason::DeviceLost,
        UnavailableReason::DriverLibraryMissing => b == UnavailableReason::FirstSample || b
            == UnavailableReason::ProviderError || b == UnavailableReason::TemporarilyUnavailable
            || b == UnavailableReason::Unsupported,
        UnavailableReason::FirstSample => b == UnavailableReason::ProviderError || b
            == UnavailableReason::TemporarilyUnavailable || b == UnavailableReason::Unsupported,
        UnavailableReason::ProviderError => b == UnavailableReason::TemporarilyUnavailable || b
            == UnavailableReason::Unsupported,
        UnavailableReason::TemporarilyUnavailable => b == UnavailableReason::Unsupported,
        UnavailableReason::Unsupported => false,
    }
}

proof fn lemma_gravest(
    current: Option<AbsenceModel>,
    unavailable: Seq<AbsenceModel>,
    key: MetricKey,
)
    ensures
        match after_reports(current, unavailable, key) {
            Some(kept) => {
                &&& current == Some(kept) || (unavailable.contains(kept) && kept.metric == key)
                &&& forall|j: int|
                    0 <= j < unavailable.len() && (#[trigger] unavailable[j]).metric == key
                        ==> !is_graver(unavailable[j].reason, kept.reason)
                &&& current is Some ==> !is_graver(current->0.reason, kept.reason)
            },
            None => current is None && forall|j: int|
                0 <= j < unavailable.len() ==> (#[trigger] unavailable[j]).metric != key,
        },
    decreases unavailable.len(),
{
    if unavailable.len() > 0 {
        let shorter = unavailable.drop_last();
        let last = unavailable.len() - 1;
        lemma_gravest(current, shorter, key);
        assert(unavailable[last] == unavailable.last());
        if let Some(before) = after_reports(current, shorter, key) {
            if shorter.contains(before) {
                let j = choose|j: int| 0 <= j < shorter.len() && shorter[j] == before;
                assert(unavailable[j] == before);
            }
        }
        if let Some(kept) = after_reports(current, unavailable, key) {
            assert forall|j: int|
                0 <= j < unavailable.len() && (#[trigger] unavailable[j]).metric == key implies
                !is_graver(unavailable[j].reason, kept.reason) by {
                if j < last {
                    assert(shorter[j] == unavailable[j]);
                }
            }
        } else {
            assert forall|j: int| 0 <= j < unavailable.len() implies (
            #[trigger] unavailable[j]).metric != key by {
                if j < last {
                    assert(shorter[j] == unavailable[j]);
                }
            }
        }
    }
}

/// Where nothing was observed of a metric, the gravest of the accounts of its absence counts: a
/// denied permission before a lost device, that before a missing driver library, a first sample, a
/// failure of the provider, a temporary absence, and what is not supported.
pub proof fn law_the_gravest_account_counts(
    metrics: Seq<MetricObservation>,
    unavailable: Seq<AbsenceModel>,
    providers: Map<Seq<char>, ProviderMetadata>,
    now_ms: u64,
    key: MetricKey,
)
    requires
        forall|j: int| 0 <= j < metrics.len() ==> (#[trigger] metrics[j]).metric != key,
        exists|j: int| 0 <= j < unavailable.len() && (#[trigger] unavailable[j]).metric == key,
    ensures
        match absence(metrics, unavailable, providers, now_ms, key) {
            Some(kept) => {
                &&& unavailable.contains(kept) && kept.metric == key
                &&& forall|j: int|
                    0 <= j < unavailable.len() && (#[trigger] unavailable[j]).metric == key
                        ==> !is_graver(unavailable[j].reason, kept.reason)
            },
            None => false,
        },
{
    lemma_no_candidates(metrics, key);
    lemma_nothing_invalid(after_reports(None, unavailable, key), metrics, key);
    lemma_ranked(metrics, providers, now_ms, key);
    lemma_gravest(None, unavailable, key);
    if ranked(metrics, providers, now_ms, key).len() > 0 {
        let first = ranked(metrics, providers, now_ms, key)[0];
        assert(ranked(metrics, providers, now_ms, key).contains(first));
        assert(metrics.contains(first));
        let j = choose|j: int| 0 <= j < metrics.len() && metrics[j] == first;
        assert(metrics[j].metric == key);
    }
}

proof fn lemma_first_of_equals(unavailable: Seq<AbsenceModel>, key: MetricKey, i: int)
    requires
        0 <= i < unavailable.len(),
        unavailable[i].metric == key,
        forall|j: int|
            0 <= j < i && (#[trigger] unavailable[j]).metric == key ==> is_graver(
                unavailable[i].reason,
                unavailable[j].reason,
            ),
        forall|j: int|
            i < j < unavailable.len() && (#[trigger] unavailable[j]).metric == key ==> !is_graver(
                unavailable[j].reason,
                unavailable[i].reason,
            ),
    ensures
        after_reports(None, unavailable, key) == Some(unavailable[i]),
    decreases unavailable.len(),
{
    let shorter = unavailable.drop_last();
    let last = unavailable.len() - 1;
    assert(unavailable[last] == unavailable.last());
    assert forall|j: int| 0 <= j < shorter.len() implies #[trigger] shorter[j] == unavailable[j] by {
    }
    if i < last {
        lemma_first_of_equals(shorter, key, i);
    } else {
        lemma_gravest(None, shorter, key);
        if let Some(before) = after_reports(None, shorter, key) {
            let j = choose|j: int| 0 <= j < shorter.len() && shorter[j] == before;
            assert(unavailable[j] == before);
        }
    }
}

/// Of several accounts that are equally grave, the first one counts.
pub proof fn law_the_first_of_equal_accounts_counts(
    metrics: Seq<MetricObservation>,
    unavailable: Seq<AbsenceModel>,
    providers: Map<Seq<char>, ProviderMetadata>,
    now_ms: u64,
    key: MetricKey,
    i: int,
)
    requires
        forall|j: int| 0 <= j < metrics.len() ==> (#[trigger] metrics[j]).metric != key,
        0 <= i < unavailable.len(),
        unavailable[i].metric == key,
        forall|j: int|
            0 <= j < i && (#[trigger] unavailable[j]).metric == key ==> is_graver(
                unavailable[i].reason,
                unavailable[j].reason,
            ),
        forall|j: int|
            i < j < unavailable.len() && (#[trigger] unavailable[j]).metric == key ==> !is_graver(
                unavailable[j].reason,
                unavailable[i].reason,
            ),
    ensures
        absence(metrics, unavailable, providers, now_ms, key) == Some(unavailable[i]),
{
    lemma_no_candidates(metrics, key);
    lemma_nothing_invalid(after_reports(None, unavailable, key), metrics, key);
    lemma_ranked(metrics, providers, now_ms, key);
    lemma_first_of_equals(unavailable, key, i);
    if ranked(metrics, providers, now_ms, key).len() > 0 {
        let first = ranked(metrics, providers, now_ms, key)[0];
        assert(ranked(metrics, providers, now_ms, key).contains(first));
        assert(metrics.contains(first));
        let j = choose|j: int| 0 <= j < metrics.len() && metrics[j] == first;
        assert(metrics[j].metric == key);
    }
}

proof fn lemma_no_candidates(metrics: Seq<MetricObservation>, key: MetricKey)
    requires
        forall|j: int| 0 <= j < metrics.len() ==> (#[trigger] metrics[j]).metric != key,
    ensures
        candidates(metrics, key).len() == 0,
    decreases metrics.len(),
{
    if metrics.len() > 0 {
        lemma_no_candidates(metrics.drop_last(), key);
    }
}

proof fn lemma_nothing_invalid(
    current: Option<AbsenceModel>,
    metrics: Seq<MetricObservation>,
    key: MetricKey,
)
    requires
        forall|j: int| 0 <= j < metrics.len() ==> (#[trigger] metrics[j]).metric != key,
    ensures
        after_invalid(current, metrics, key) == current,
    decreases metrics.len(),
{
    if metrics.len() > 0 {
        lemma_nothing_invalid(current, metrics.drop_last(), key);
    }
}

/// A metric of which the only observation is out of range is missing for a failure of the
/// provider, and one of which the only observation is old is missing for the time being.
pub proof fn law_the_only_bad_value_is_explained(
    o: MetricObservation,
    providers: Map<Seq<char>, ProviderMetadata>,
    now_ms: u64,
)
    ensures
        !valid(o) ==> (absence(seq![o], Seq::empty(), providers, now_ms, o.metric) matches Some(
            kept,
        ) && kept.reason == UnavailableReason::ProviderError && kept.source == Some(o.source@)
            && kept.metric == o.metric && kept.device_id == o.device_id@ && kept.message == Some(
            "provider returned a non-finite or out-of-range value"@,
        )),
        valid(o) && now_ms > o.sampled_at + 30_000 ==> (absence(
            seq![o],
            Seq::empty(),
            providers,
            now_ms,
            o.metric,
        ) matches Some(kept) && kept.reason == UnavailableReason::TemporarilyUnavailable
            && kept.source == Some(o.source@) && kept.metric == o.metric && kept.device_id
            == o.device_id@ && kept.message == Some(
            "all provider observations for this metric are stale"@,
        )),
{
    let metrics = seq![o];
    let key = o.metric;
    law_selected_is_valid_and_fresh(metrics, providers, now_ms, key);
    lemma_ranking(metrics, providers, now_ms, key);
    lemma_ranked(metrics, providers, now_ms, key);
    assert(metrics.drop_last() =~= Seq::<MetricObservation>::empty());
    assert(candidates(metrics.drop_last(), key).len() == 0);
    if selection(metrics, providers, now_ms, key) is Some {
        let chosen = selection(metrics, providers, now_ms, key)->0;
        let j = choose|j: int| 0 <= j < metrics.len() && metrics[j] == chosen;
    }
    let ranking = ranked(metrics, providers, now_ms, key);
    assert(metrics[0] == o);
    assert(metrics.contains(o));
    if ranking.len() > 0 {
        assert(ranking.contains(ranking[0]));
        let j = choose|j: int| 0 <= j < metrics.len() && metrics[j] == ranking[0];
    }
    let start = if ranking.len() > 0 {
        Some(stale_absence(ranking[0]))
    } else {
        None
    };
    assert(after_reports(start, Seq::empty(), key) == start);
    assert(after_invalid(start, metrics.drop_last(), key) == start);
}

/// The diagnostics hold a note of each valid value of a metric, with its own source, quality and
/// time and with what it counts for, those that count for more first. The one that is marked is
/// the one that was selected.
pub proof fn law_candidates_are_noted(
    merged: MergedMetrics,
    metrics: Seq<MetricObservation>,
    unavailable: Seq<AbsenceModel>,
    providers: Map<Seq<char>, ProviderMetadata>,
    now_ms: u64,
    n: int,
)
    requires
        merged.is_merge_of(metrics, unavailable, providers, now_ms),
        0 <= n < merged.diagnostics@.len(),
    ensures
        ({
            let key = merged.diagnostics@[n].metric;
            let notes = merged.diagnostics@[n].candidates@;
            &&& forall|o: MetricObservation| #[trigger]
                metrics.contains(o) && o.metric == key && valid(o) ==> exists|i: int|
                    0 <= i < notes.len() && is_note_of(#[trigger] notes[i], o, providers, now_ms)
            &&& forall|i: int|
                0 <= i < notes.len() ==> exists|o: MetricObservation| #[trigger]
                    metrics.contains(o) && o.metric == key && valid(o) && is_note_of(
                        #[trigger] notes[i],
                        o,
                        providers,
                        now_ms,
                    )
            &&& forall|i: int, j: int|
                0 <= i < j < notes.len() ==> (#[trigger] notes[i]).score >= (
                #[trigger] notes[j]).score
            &&& forall|i: int|
                0 <= i < notes.len() && (#[trigger] notes[i]).selected
                    ==> merged.selected@.contains_key(key) && is_note_of(
                    notes[i],
                    merged.selected@[key],
                    providers,
                    now_ms,
                )
            &&& merged.selected@.contains_key(key) ==> exists|i: int|
                0 <= i < notes.len() && (#[trigger] notes[i]).selected
            &&& forall|i: int, j: int|
                0 <= i < j < notes.len() ==> !((#[trigger] notes[i]).selected && (
                #[trigger] notes[j]).selected)
        }),
{
    let key = merged.diagnostics@[n].metric;
    let notes = merged.diagnostics@[n].candidates@;
    let ranking = ranked(metrics, providers, now_ms, key);
    lemma_ranking(metrics, providers, now_ms, key);
    lemma_ranked(metrics, providers, now_ms, key);
    assert(crate::merge::selected_is(
        merged.selected@,
        key,
        selection(metrics, providers, now_ms, key),
    ));
    assert(notes == candidate_notes(metrics, providers, now_ms, key));
    assert forall|o: MetricObservation| #[trigger]
        metrics.contains(o) && o.metric == key && valid(o) implies exists|i: int|
        0 <= i < notes.len() && is_note_of(#[trigger] notes[i], o, providers, now_ms) by {
        assert(ranking.contains(o));
        let i = choose|i: int| 0 <= i < ranking.len() && ranking[i] == o;
        assert(is_note_of(notes[i], o, providers, now_ms));
    }
    assert forall|i: int| 0 <= i < notes.len() implies exists|o: MetricObservation| #[trigger]
        metrics.contains(o) && o.metric == key && valid(o) && is_note_of(
            #[trigger] notes[i],
            o,
            providers,
            now_ms,
        ) by {
        let o = ranking[i];
        assert(metrics.contains(o));
        assert(is_note_of(notes[i], o, providers, now_ms));
    }
    assert forall|i: int, j: int| 0 <= i < j < notes.len() implies (#[trigger] notes[i]).score >= (
    #[trigger] notes[j]).score by {
        assert(!candidate_before(
            candidate_place(ranking[j], providers, now_ms),
            candidate_place(ranking[i], providers, now_ms),
        ));
    }
    let at = first_fresh(ranking, now_ms);
    lemma_first_fresh(ranking, now_ms);
    if at < ranking.len() {
        assert(notes[at].selected);
    }
}

/// The note tells the source, the quality and the time of the observation, and what it counts for.
pub open spec fn is_note_of(
    note: MergeCandidateDiagnostic,
    o: MetricObservation,
    providers: Map<Seq<char>, ProviderMetadata>,
    now_ms: u64,
) -> bool {
    &&& note.source@ == o.source@
    &&& note.quality == o.quality
    &&& note.sampled_at == o.sampled_at
    &&& note.score == score_of(o, providers, now_ms)
}

} // verus!
