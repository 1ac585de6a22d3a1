//! How the answers of the providers become one sample, one list of devices and one account.
use crate::canonical::GpuModel;
use crate::error::{error_text, ErrorModel, GpuError};
use crate::json::{with_fields, Json, JsonModel};
use crate::merge::{absences, AbsenceModel};
use crate::model::{
    metric_place, CanonicalGpu, DeviceObservation, MetricKey, MetricObservation,
    ProviderDiagnostic, SampleRequest, UnavailableReason,
};
use crate::monitor::{
    asked_of, best_processes, count_set, device_position, enumerated, failure_details,
    given_absences, given_metrics, inventory_warnings, metric_at, noted, provider_table,
    reported_processes, required_verdict, sample_warnings, vendor_warnings, with_offers,
    with_vendor_replies, with_vendor_reply, Offer, ProviderReply,
};
use vstd::prelude::*;

verus! {

/// What the later providers say stands behind what the earlier ones say, and adds to it.
pub proof fn law_answers_are_taken_in_order(
    first: Seq<ProviderReply>,
    second: Seq<ProviderReply>,
    device: String,
    request: SampleRequest,
)
    ensures
        given_metrics(first + second, device) == given_metrics(first, device) + given_metrics(
            second,
            device,
        ),
        given_absences(first + second, device@, request) == given_absences(first, device@, request)
            + given_absences(second, device@, request),
        sample_warnings(first + second, device@) == sample_warnings(first, device@)
            + sample_warnings(second, device@),
    decreases second.len(),
{
    let whole = first + second;
    if second.len() == 0 {
        assert(whole == first);
        assert(given_metrics(first, device) + given_metrics(second, device) == given_metrics(
            first,
            device,
        ));
        assert(given_absences(first, device@, request) + given_absences(second, device@, request)
            == given_absences(first, device@, request));
        assert(sample_warnings(first, device@) + sample_warnings(second, device@)
            == sample_warnings(first, device@));
    } else {
        let rest = second.drop_last();
        assert(whole.drop_last() == first + rest);
        law_answers_are_taken_in_order(first, rest, device, request);
        assert(whole.last() == second.last());
        assert(given_metrics(whole, device) =~= given_metrics(first, device) + given_metrics(
            second,
            device,
        ));
        assert(given_absences(whole, device@, request) =~= given_absences(first, device@, request)
            + given_absences(second, device@, request));
        assert(sample_warnings(whole, device@) =~= sample_warnings(first, device@)
            + sample_warnings(second, device@));
    }
}

/// A value that a provider gives is taken as it is, under the name of the device.
pub proof fn law_values_are_taken_as_given(reply: ProviderReply, device: String, k: int)
    requires
        reply.reply is Ok,
        0 <= k < reply.reply->Ok_0.metrics@.len(),
    ensures
        ({
            let taken = given_metrics(seq![reply], device);
            let given = reply.reply->Ok_0.metrics@;
            &&& taken.len() == given.len()
            &&& taken[k].device_id == device
            &&& taken[k].metric == given[k].metric
            &&& taken[k].value == given[k].value
            &&& taken[k].source == given[k].source
            &&& taken[k].quality == given[k].quality
            &&& taken[k].sampled_at == given[k].sampled_at
            &&& taken[k].interval_ms == given[k].interval_ms
            &&& taken[k].definition == given[k].definition
        }),
{
    assert(seq![reply].drop_last() == Seq::<ProviderReply>::empty());
    assert(given_metrics(Seq::<ProviderReply>::empty(), device) == Seq::<
        MetricObservation,
    >::empty());
}

/// An account that a provider gives of a missing metric is taken as it is, under the name of the
/// device.
pub proof fn law_absences_are_taken_as_given(
    reply: ProviderReply,
    device: Seq<char>,
    request: SampleRequest,
    k: int,
)
    requires
        reply.reply is Ok,
        0 <= k < reply.reply->Ok_0.unavailable@.len(),
    ensures
        ({
            let taken = given_absences(seq![reply], device, request);
            let given = reply.reply->Ok_0.unavailable@;
            &&& taken.len() == given.len()
            &&& taken[k].device_id == device
            &&& taken[k].metric == given[k].metric
            &&& taken[k].reason == given[k].reason
            &&& given[k].source is Some ==> taken[k].source == Some(given[k].source->0@)
            &&& given[k].source is None ==> taken[k].source is None
            &&& given[k].message is Some ==> taken[k].message == Some(given[k].message->0@)
            &&& given[k].message is None ==> taken[k].message is None
        }),
{
    assert(seq![reply].drop_last() == Seq::<ProviderReply>::empty());
    lemma_nobody(Seq::empty(), device, request);
    assert(absences(reply.reply->Ok_0.unavailable@)[k] == reply.reply->Ok_0.unavailable@[k]@);
}

proof fn lemma_nobody(replies: Seq<ProviderReply>, device: Seq<char>, request: SampleRequest)
    requires
        replies.len() == 0,
    ensures
        given_absences(replies, device, request) == Seq::<AbsenceModel>::empty(),
{
}

/// A provider that answers adds no warning; one that fails adds one, and gives no value.
pub proof fn law_failures_are_noted(reply: ProviderReply, device: String)
    ensures
        reply.reply is Ok ==> sample_warnings(seq![reply], device@).len() == 0,
        reply.reply is Err ==> sample_warnings(seq![reply], device@) == seq![
            reply.id@ + " sample failed for "@ + device@ + ": "@ + error_text(
                reply.reply->Err_0@,
            ),
        ],
        reply.reply is Err ==> given_metrics(seq![reply], device).len() == 0,
{
    assert(seq![reply].drop_last() == Seq::<ProviderReply>::empty());
    assert(sample_warnings(Seq::<ProviderReply>::empty(), device@) == Seq::<Seq<char>>::empty());
    assert(given_metrics(Seq::<ProviderReply>::empty(), device) == Seq::<
        MetricObservation,
    >::empty());
}

proof fn lemma_metric_at(metric: MetricKey)
    ensures
        metric_at(metric_place(metric)) == metric,
        0 <= metric_place(metric) < 26,
{
    let found = metric_at(metric_place(metric));
    assert(metric_place(found) == metric_place(metric));
}

proof fn lemma_asked(set: Set<MetricKey>, request: SampleRequest, n: int, metric: MetricKey)
    requires
        n <= 26,
    ensures
        asked_of(set, request, n).contains(metric) <==> metric_place(metric) < n && set.contains(
            metric,
        ) && request.asks_for(metric),
    decreases n,
{
    lemma_metric_at(metric);
    if n > 0 {
        lemma_asked(set, request, n - 1, metric);
        let before = asked_of(set, request, n - 1);
        let after = asked_of(set, request, n);
        if before.contains(metric) {
            let i = choose|i: int| 0 <= i < before.len() && before[i] == metric;
            assert(after[i] == metric);
        }
        if after.contains(metric) && !before.contains(metric) {
            let i = choose|i: int| 0 <= i < after.len() && after[i] == metric;
            if i < before.len() {
                assert(before[i] == metric);
            }
            assert(metric == metric_at(n - 1));
            assert(exists|key: MetricKey| metric_place(key) == n - 1) by {
                lemma_place_is_taken(n - 1);
            }
            assert(metric_place(metric) == n - 1);
        }
        if metric_place(metric) == n - 1 && set.contains(metric) && request.asks_for(metric) {
            assert(after.last() == metric);
        }
    }
}

pub proof fn lemma_place_is_taken(place: int)
    requires
        0 <= place < 26,
    ensures
        exists|key: MetricKey| metric_place(key) == place,
{
    let key = if place == 0 {
        MetricKey::UtilizationOverall
    } else if place == 1 {
        MetricKey::UtilizationGraphics
    } else if place == 2 {
        MetricKey::UtilizationCompute
    } else if place == 3 {
        MetricKey::UtilizationCopy
    } else if place == 4 {
        MetricKey::UtilizationMemoryController
    } else if place == 5 {
        MetricKey::UtilizationEncoder
    } else if place == 6 {
        MetricKey::UtilizationDecoder
    } else if place == 7 {
        MetricKey::MemoryDedicatedUsedBytes
    } else if place == 8 {
        MetricKey::MemorySharedUsedBytes
    } else if place == 9 {
        MetricKey::MemoryUnifiedUsedBytes
    } else if place == 10 {
        MetricKey::MemoryBudgetBytes
    } else if place == 11 {
        MetricKey::MemoryBandwidthUtilizationPercent
    } else if place == 12 {
        MetricKey::TemperatureCoreCelsius
    } else if place == 13 {
        MetricKey::TemperatureEdgeCelsius
    } else if place == 14 {
        MetricKey::TemperatureHotspotCelsius
    } else if place == 15 {
        MetricKey::TemperatureMemoryCelsius
    } else if place == 16 {
        MetricKey::PowerDrawWatts
    } else if place == 17 {
        MetricKey::PowerLimitWatts
    } else if place == 18 {
        MetricKey::PowerEnergyJoules
    } else if place == 19 {
        MetricKey::ClockGraphicsMhz
    } else if place == 20 {
        MetricKey::ClockComputeMhz
    } else if place == 21 {
        MetricKey::ClockMemoryMhz
    } else if place == 22 {
        MetricKey::ClockVideoMhz
    } else if place == 23 {
        MetricKey::FanPercent
    } else if place == 24 {
        MetricKey::FanRpm
    } else {
        MetricKey::Processes
    };
    assert(metric_place(key) == place);
}

/// A failed provider accounts for a metric exactly where it offers the metric and the request asks
/// for it. The account names the provider and the device.
pub proof fn law_failed_providers_account_for_what_was_asked(
    reply: ProviderReply,
    device: Seq<char>,
    request: SampleRequest,
    metric: MetricKey,
)
    requires
        reply.reply is Err,
    ensures
        ({
            let accounts = given_absences(seq![reply], device, request);
            let offered = reply.capabilities.metric_set().contains(metric) && (
            request.metrics is None || request.metrics->0@.contains(metric));
            &&& offered <==> exists|k: int|
                0 <= k < accounts.len() && (#[trigger] accounts[k]).metric == metric
            &&& forall|k: int|
                0 <= k < accounts.len() ==> {
                    &&& (#[trigger] accounts[k]).device_id == device
                    &&& accounts[k].source == Some(reply.id@)
                    &&& accounts[k].message is Some
                    &&& reply.reply->Err_0 is Provider ==> accounts[k].reason
                        == reply.reply->Err_0->reason && accounts[k].message->0
                        == reply.reply->Err_0->message@
                    &&& reply.reply->Err_0 is DeviceNotFound ==> accounts[k].reason
                        == UnavailableReason::DeviceLost
                    &&& !(reply.reply->Err_0 is Provider) && !(reply.reply->Err_0
                        is DeviceNotFound) ==> accounts[k].reason
                        == UnavailableReason::ProviderError
                    &&& !(reply.reply->Err_0 is Provider) ==> accounts[k].message->0
                        == error_text(reply.reply->Err_0@)
                }
        }),
{
    assert(seq![reply].drop_last() == Seq::<ProviderReply>::empty());
    lemma_nobody(Seq::empty(), device, request);
    let keys = asked_of(reply.capabilities.metric_set(), request, 26);
    let accounts = given_absences(seq![reply], device, request);
    assert(accounts.len() == keys.len());
    lemma_metric_at(metric);
    lemma_asked(reply.capabilities.metric_set(), request, 26, metric);
    if keys.contains(metric) {
        let k = choose|k: int| 0 <= k < keys.len() && keys[k] == metric;
        assert(accounts[k].metric == metric);
    }
    if exists|k: int| 0 <= k < accounts.len() && (#[trigger] accounts[k]).metric == metric {
        let k = choose|k: int| 0 <= k < accounts.len() && (#[trigger] accounts[k]).metric == metric;
        assert(keys[k] == metric);
    }
}

/// A provider's own words explain its failure; a device that was not found is lost; every other
/// failure is one of the provider.
pub proof fn law_failures_have_their_reasons(error: ErrorModel)
    ensures
        error is Provider ==> failure_details(error) == (error->reason, error->message),
        error is DeviceNotFound ==> failure_details(error).0 == UnavailableReason::DeviceLost,
        !(error is Provider) && !(error is DeviceNotFound) ==> failure_details(error).0
            == UnavailableReason::ProviderError,
        !(error is Provider) ==> failure_details(error).1 == error_text(error),
{
}

/// The reply gives a list of processes.
pub open spec fn lists_processes(reply: ProviderReply) -> bool {
    reply.reply is Ok && reply.reply->Ok_0.processes is Some
}

/// Processes are those of the most specific provider that lists them, and of the first of these.
pub proof fn law_most_specific_processes_count(replies: Seq<ProviderReply>, i: int)
    requires
        0 <= i < replies.len(),
        lists_processes(replies[i]),
        forall|j: int|
            0 <= j < replies.len() && lists_processes(#[trigger] replies[j]) ==> if j < i {
                replies[j].metadata.specificity < replies[i].metadata.specificity
            } else {
                replies[j].metadata.specificity <= replies[i].metadata.specificity
            },
    ensures
        best_processes(replies) == Some(
            (replies[i].metadata.specificity, replies[i].reply->Ok_0.processes->0@),
        ),
    decreases replies.len(),
{
    let n = replies.len();
    let rest = replies.drop_last();
    if i < n - 1 {
        assert forall|j: int| 0 <= j < rest.len() && lists_processes(#[trigger] rest[j]) implies if j
            < i {
            rest[j].metadata.specificity < rest[i].metadata.specificity
        } else {
            rest[j].metadata.specificity <= rest[i].metadata.specificity
        } by {
            assert(rest[j] == replies[j]);
        }
        assert(rest[i] == replies[i]);
        law_most_specific_processes_count(rest, i);
        assert(replies[n - 1] == replies.last());
    } else {
        lemma_best_processes(rest);
        match best_processes(rest) {
            Some(best) => {
                let j = choose|j: int|
                    0 <= j < rest.len() && lists_processes(#[trigger] rest[j])
                        && rest[j].metadata.specificity == best.0;
                assert(rest[j] == replies[j]);
            },
            None => {},
        }
    }
}

proof fn lemma_best_processes(replies: Seq<ProviderReply>)
    ensures
        best_processes(replies) is Some ==> exists|j: int|
            0 <= j < replies.len() && lists_processes(#[trigger] replies[j])
                && replies[j].metadata.specificity == (best_processes(replies)->0).0,
        best_processes(replies) is None ==> forall|j: int|
            0 <= j < replies.len() ==> !lists_processes(#[trigger] replies[j]),
    decreases replies.len(),
{
    if replies.len() > 0 {
        let rest = replies.drop_last();
        lemma_best_processes(rest);
        if best_processes(rest) is Some {
            let j = choose|j: int|
                0 <= j < rest.len() && lists_processes(#[trigger] rest[j])
                    && rest[j].metadata.specificity == (best_processes(rest)->0).0;
            assert(rest[j] == replies[j]);
        }
        assert(replies[replies.len() - 1] == replies.last());
        assert forall|j: int|
            0 <= j < replies.len() && best_processes(replies) is None implies !lists_processes(
            #[trigger] replies[j],
        ) by {
            if j < rest.len() {
                assert(rest[j] == replies[j]);
            }
        }
    }
}

/// Processes are reported where they were asked for and some provider lists them, and only there.
pub proof fn law_processes_are_reported_on_request(
    replies: Seq<ProviderReply>,
    request: SampleRequest,
)
    ensures
        reported_processes(replies, request) is Some <==> request.include_processes && exists|j:
            int|
            0 <= j < replies.len() && lists_processes(#[trigger] replies[j]),
{
    lemma_best_processes(replies);
}

/// A provider is weighed by what it last said of itself.
pub proof fn law_providers_are_weighed_by_their_own_word(replies: Seq<ProviderReply>, i: int)
    requires
        0 <= i < replies.len(),
        forall|j: int|
            i < j < replies.len() ==> (#[trigger] replies[j]).metadata.id@
                != replies[i].metadata.id@,
    ensures
        provider_table(replies).contains_key(replies[i].metadata.id@),
        provider_table(replies)[replies[i].metadata.id@] == replies[i].metadata,
    decreases replies.len(),
{
    let n = replies.len();
    if i < n - 1 {
        let rest = replies.drop_last();
        assert(rest[i] == replies[i]);
        assert forall|j: int| i < j < rest.len() implies (#[trigger] rest[j]).metadata.id@
            != rest[i].metadata.id@ by {
            assert(rest[j] == replies[j]);
        }
        law_providers_are_weighed_by_their_own_word(rest, i);
        assert(replies[n - 1].metadata.id@ != replies[i].metadata.id@);
    }
}

/// Nobody is weighed who did not answer.
pub proof fn law_only_those_who_answer_are_weighed(replies: Seq<ProviderReply>, id: Seq<char>)
    requires
        provider_table(replies).contains_key(id),
    ensures
        exists|i: int| 0 <= i < replies.len() && (#[trigger] replies[i]).metadata.id@ == id,
    decreases replies.len(),
{
    if replies.len() > 0 {
        let rest = replies.drop_last();
        if replies.last().metadata.id@ == id {
            assert(replies[replies.len() - 1].metadata.id@ == id);
        } else {
            law_only_those_who_answer_are_weighed(rest, id);
            let i = choose|i: int| 0 <= i < rest.len() && (#[trigger] rest[i]).metadata.id@ == id;
            assert(replies[i].metadata.id@ == id);
        }
    }
}

/// The devices that the later providers list stand behind those of the earlier ones.
pub proof fn law_devices_are_listed_in_order(
    first: Seq<Result<Vec<DeviceObservation>, GpuError>>,
    second: Seq<Result<Vec<DeviceObservation>, GpuError>>,
)
    ensures
        enumerated(first + second) == enumerated(first) + enumerated(second),
    decreases second.len(),
{
    let whole = first + second;
    if second.len() == 0 {
        assert(whole == first);
        assert(enumerated(first) + enumerated(second) == enumerated(first));
    } else {
        let rest = second.drop_last();
        assert(whole.drop_last() == first + rest);
        law_devices_are_listed_in_order(first, rest);
        assert(enumerated(whole) =~= enumerated(first) + enumerated(second));
    }
}

/// A provider that answers adds what it lists; one that fails adds nothing but a warning.
pub proof fn law_listings_are_taken_as_given(
    id: Seq<char>,
    reply: Result<Vec<DeviceObservation>, GpuError>,
)
    ensures
        reply is Ok ==> enumerated(seq![reply]) == reply->Ok_0@,
        reply is Err ==> enumerated(seq![reply]).len() == 0,
        reply is Ok ==> inventory_warnings(seq![id], seq![reply]).len() == 0,
        reply is Err ==> inventory_warnings(seq![id], seq![reply]) == seq![
            id + " inventory failed: "@ + error_text(reply->Err_0@),
        ],
{
    let nobody = Seq::<Result<Vec<DeviceObservation>, GpuError>>::empty();
    assert(seq![reply].drop_last() == nobody);
    assert(enumerated(nobody) == Seq::<DeviceObservation>::empty());
    assert(inventory_warnings(seq![id], nobody) == Seq::<Seq<char>>::empty());
    if reply is Ok {
        assert(enumerated(seq![reply]) =~= reply->Ok_0@);
    }
}

/// The warnings about the listings stand in the order of the providers.
pub proof fn law_inventory_warnings_are_in_order(
    first_ids: Seq<Seq<char>>,
    first: Seq<Result<Vec<DeviceObservation>, GpuError>>,
    second_ids: Seq<Seq<char>>,
    second: Seq<Result<Vec<DeviceObservation>, GpuError>>,
)
    requires
        first_ids.len() == first.len(),
        second_ids.len() == second.len(),
    ensures
        inventory_warnings(first_ids + second_ids, first + second) == inventory_warnings(
            first_ids,
            first,
        ) + inventory_warnings(second_ids, second),
    decreases second.len(),
{
    let whole = first + second;
    let ids = first_ids + second_ids;
    if second.len() == 0 {
        assert(whole == first);
        assert(ids == first_ids);
        assert(inventory_warnings(first_ids, first) + inventory_warnings(second_ids, second)
            == inventory_warnings(first_ids, first));
    } else {
        let rest = second.drop_last();
        let rest_ids = second_ids.drop_last();
        assert(whole.drop_last() == first + rest);
        law_inventory_warnings_are_in_order(first_ids, first, rest_ids, rest);
        lemma_inventory_warnings(ids, first_ids + rest_ids, first + rest);
        lemma_inventory_warnings(second_ids, rest_ids, rest);
        assert(inventory_warnings(ids, whole) =~= inventory_warnings(first_ids, first)
            + inventory_warnings(second_ids, second));
    }
}

proof fn lemma_inventory_warnings(
    ids: Seq<Seq<char>>,
    others: Seq<Seq<char>>,
    replies: Seq<Result<Vec<DeviceObservation>, GpuError>>,
)
    requires
        replies.len() <= ids.len(),
        replies.len() <= others.len(),
        forall|k: int| 0 <= k < replies.len() ==> #[trigger] ids[k] == others[k],
    ensures
        inventory_warnings(ids, replies) == inventory_warnings(others, replies),
    decreases replies.len(),
{
    if replies.len() > 0 {
        lemma_inventory_warnings(ids, others, replies.drop_last());
        assert(ids[replies.len() - 1] == others[replies.len() - 1]);
    }
}

/// A warning is kept once: what was noted stays where it is, what is new comes behind it, and
/// nothing is noted twice.
pub proof fn law_warnings_are_noted_once(warnings: Seq<Seq<char>>, new: Seq<Seq<char>>)
    ensures
        warnings.len() <= noted(warnings, new).len(),
        noted(warnings, new).take(warnings.len() as int) == warnings,
        forall|text: Seq<char>| #[trigger]
            noted(warnings, new).contains(text) <==> warnings.contains(text) || new.contains(text),
        warnings.no_duplicates() ==> noted(warnings, new).no_duplicates(),
    decreases new.len(),
{
    if new.len() == 0 {
        assert(warnings.take(warnings.len() as int) == warnings);
    } else {
        let rest = new.drop_last();
        law_warnings_are_noted_once(warnings, rest);
        let before = noted(warnings, rest);
        let after = noted(warnings, new);
        assert(after.take(warnings.len() as int) == before.take(warnings.len() as int));
        assert forall|text: Seq<char>| #[trigger] after.contains(text) <==> warnings.contains(text)
            || new.contains(text) by {
            lemma_contained(before, after, text);
            lemma_last_contained(new, text);
            assert(before.contains(text) <==> warnings.contains(text) || rest.contains(text));
            if !before.contains(new.last()) {
                lemma_last_contained(after, text);
                assert(after.drop_last() == before);
            }
        }
    }
}

proof fn lemma_contained(before: Seq<Seq<char>>, after: Seq<Seq<char>>, text: Seq<char>)
    requires
        before.len() <= after.len(),
        forall|k: int| 0 <= k < before.len() ==> #[trigger] after[k] == before[k],
    ensures
        before.contains(text) ==> after.contains(text),
{
    if before.contains(text) {
        let k = choose|k: int| 0 <= k < before.len() && before[k] == text;
        assert(after[k] == text);
    }
}

proof fn lemma_last_contained(list: Seq<Seq<char>>, text: Seq<char>)
    requires
        list.len() > 0,
    ensures
        list.contains(text) <==> list.drop_last().contains(text) || list.last() == text,
{
    let rest = list.drop_last();
    if list.contains(text) {
        let k = choose|k: int| 0 <= k < list.len() && list[k] == text;
        if k < rest.len() {
            assert(rest[k] == text);
        }
    }
    if rest.contains(text) {
        let k = choose|k: int| 0 <= k < rest.len() && rest[k] == text;
        assert(list[k] == text);
    }
    if list.last() == text {
        assert(list[list.len() - 1] == text);
    }
}

/// A device is found by its public name: the first that has it, and none where none has it.
pub proof fn law_devices_are_found_by_their_names(devices: Seq<CanonicalGpu>, id: Seq<char>)
    ensures
        0 <= device_position(devices, id) <= devices.len(),
        forall|d: int|
            0 <= d < device_position(devices, id) ==> (#[trigger] devices[d]).identity.id@ != id,
        device_position(devices, id) < devices.len() ==> devices[device_position(
            devices,
            id,
        )].identity.id@ == id,
    decreases devices.len(),
{
    if devices.len() > 0 {
        let rest = devices.drop_last();
        law_devices_are_found_by_their_names(rest, id);
        assert forall|d: int| 0 <= d < device_position(devices, id) implies (
        #[trigger] devices[d]).identity.id@ != id by {
            if d < rest.len() {
                assert(rest[d] == devices[d]);
            }
        }
    }
}

/// A device has an extension where it was seen with it or some provider offers it.
pub proof fn law_extensions_are_those_offered(gpu: GpuModel, offers: Seq<Offer>, name: Seq<char>)
    ensures
        with_offers(gpu, offers).extensions.contains(name) <==> gpu.extensions.contains(name)
            || exists|p: int|
            0 <= p < offers.len() && (#[trigger] offers[p]).extensions.contains(name),
    decreases offers.len(),
{
    if offers.len() > 0 {
        let rest = offers.drop_last();
        law_extensions_are_those_offered(gpu, rest, name);
        if exists|p: int| 0 <= p < rest.len() && (#[trigger] rest[p]).extensions.contains(name) {
            let p = choose|p: int|
                0 <= p < rest.len() && (#[trigger] rest[p]).extensions.contains(name);
            assert(offers[p].extensions.contains(name));
        }
        if exists|p: int| 0 <= p < offers.len() && (#[trigger] offers[p]).extensions.contains(
            name,
        ) {
            let p = choose|p: int|
                0 <= p < offers.len() && (#[trigger] offers[p]).extensions.contains(name);
            if p < rest.len() {
                assert(rest[p].extensions.contains(name));
            }
        }
        if offers.last().extensions.contains(name) {
            assert(offers[offers.len() - 1].extensions.contains(name));
        }
    }
}

/// Offers change nothing of a device but what it offers.
pub proof fn law_offers_leave_the_device_alone(gpu: GpuModel, offers: Seq<Offer>)
    ensures
        with_offers(gpu, offers) == (GpuModel {
            metrics: with_offers(gpu, offers).metrics,
            extensions: with_offers(gpu, offers).extensions,
            ..gpu
        }),
    decreases offers.len(),
{
    if offers.len() > 0 {
        law_offers_leave_the_device_alone(gpu, offers.drop_last());
    }
}

/// A required provider that is loaded is no hindrance; one that is not gives its own reason and
/// words, where it has any; an unknown name is an invalid argument.
pub proof fn law_required_providers_are_judged(
    name: Seq<char>,
    diagnostic: Option<ProviderDiagnostic>,
)
    ensures
        ({
            let verdict = required_verdict(name, diagnostic);
            &&& verdict is None <==> diagnostic is Some && diagnostic->0.loaded
            &&& diagnostic is None ==> verdict->0 == ErrorModel::InvalidArgument(
                "unknown required provider: "@ + name,
            )
            &&& diagnostic is Some && !diagnostic->0.loaded ==> {
                &&& verdict->0 is Provider
                &&& verdict->0->provider == name
                &&& diagnostic->0.reason is Some ==> verdict->0->reason == diagnostic->0.reason->0
                &&& diagnostic->0.reason is None ==> verdict->0->reason
                    == UnavailableReason::ProviderError
                &&& diagnostic->0.message is Some ==> verdict->0->message
                    == diagnostic->0.message->0@
                &&& diagnostic->0.message is None ==> verdict->0->message
                    == "required provider did not initialize"@
            }
        }),
{
}

/// The last field of a name is the one that counts.
pub proof fn law_last_field_of_a_name_counts(
    map: Map<Seq<char>, JsonModel>,
    fields: Seq<(Seq<char>, JsonModel)>,
    k: int,
)
    requires
        0 <= k < fields.len(),
        forall|j: int| k < j < fields.len() ==> (#[trigger] fields[j]).0 != fields[k].0,
    ensures
        with_fields(map, fields).contains_key(fields[k].0),
        with_fields(map, fields)[fields[k].0] == fields[k].1,
    decreases fields.len(),
{
    let n = fields.len();
    if k < n - 1 {
        let rest = fields.drop_last();
        assert(rest[k] == fields[k]);
        assert forall|j: int| k < j < rest.len() implies (#[trigger] rest[j]).0 != rest[k].0 by {
            assert(fields[j].0 != fields[k].0);
        }
        law_last_field_of_a_name_counts(map, rest, k);
        assert(fields[n - 1].0 != fields[k].0);
    }
}

/// What an object does not name stays as it is.
pub proof fn law_other_fields_stay(
    map: Map<Seq<char>, JsonModel>,
    fields: Seq<(Seq<char>, JsonModel)>,
    name: Seq<char>,
)
    requires
        forall|k: int| 0 <= k < fields.len() ==> (#[trigger] fields[k]).0 != name,
    ensures
        with_fields(map, fields).contains_key(name) == map.contains_key(name),
        map.contains_key(name) ==> with_fields(map, fields)[name] == map[name],
    decreases fields.len(),
{
    let n = fields.len();
    if n > 0 {
        let rest = fields.drop_last();
        assert forall|k: int| 0 <= k < rest.len() implies (#[trigger] rest[k]).0 != name by {
            assert(fields[k].0 != name);
        }
        law_other_fields_stay(map, rest, name);
        assert(fields[n - 1].0 != name);
    }
}

/// An object adds its fields to the vendor data; another value stands under the name of its
/// provider; nothing, and a failure, add nothing.
pub proof fn law_vendor_answers_are_added(
    info: Map<Seq<char>, JsonModel>,
    id: Seq<char>,
    reply: Result<Json, GpuError>,
)
    ensures
        ({
            let after = with_vendor_reply(info, id, reply);
            &&& reply is Err ==> after == info
            &&& reply is Ok && reply->Ok_0@ is Null ==> after == info
            &&& reply is Ok && reply->Ok_0@ is Object ==> after == with_fields(
                info,
                reply->Ok_0@->Object_0,
            )
            &&& reply is Ok && !(reply->Ok_0@ is Null) && !(reply->Ok_0@ is Object) ==> after
                == info.insert(id, reply->Ok_0@)
        }),
{
}

/// The vendor data of the later providers is added to that of the earlier ones.
pub proof fn law_vendor_answers_are_taken_in_order(
    info: Map<Seq<char>, JsonModel>,
    ids: Seq<Seq<char>>,
    replies: Seq<Result<Json, GpuError>>,
    id: Seq<char>,
    reply: Result<Json, GpuError>,
)
    requires
        ids.len() == replies.len(),
    ensures
        with_vendor_replies(info, ids, Seq::empty()) == info,
        with_vendor_replies(info, ids.push(id), replies.push(reply)) == with_vendor_reply(
            with_vendor_replies(info, ids, replies),
            id,
            reply,
        ),
        vendor_warnings(ids.push(id), replies.push(reply)) == if reply is Ok {
            vendor_warnings(ids, replies)
        } else {
            vendor_warnings(ids, replies).push(
                id + " vendor info failed: "@ + error_text(reply->Err_0@),
            )
        },
{
    assert(replies.push(reply).drop_last() == replies);
    lemma_vendor_names(info, ids.push(id), ids, replies);
}

proof fn lemma_vendor_names(
    info: Map<Seq<char>, JsonModel>,
    ids: Seq<Seq<char>>,
    others: Seq<Seq<char>>,
    replies: Seq<Result<Json, GpuError>>,
)
    requires
        replies.len() <= ids.len(),
        replies.len() <= others.len(),
        forall|k: int| 0 <= k < replies.len() ==> #[trigger] ids[k] == others[k],
    ensures
        with_vendor_replies(info, ids, replies) == with_vendor_replies(info, others, replies),
        vendor_warnings(ids, replies) == vendor_warnings(others, replies),
    decreases replies.len(),
{
    if replies.len() > 0 {
        lemma_vendor_names(info, ids, others, replies.drop_last());
        assert(ids[replies.len() - 1] == others[replies.len() - 1]);
    }
}

/// As many devices are counted for a provider as it sees.
pub proof fn law_matches_are_counted(flags: Seq<bool>)
    ensures
        count_set(flags) == flags.to_multiset().count(true),
    decreases flags.len(),
{
    broadcast use vstd::seq_lib::group_to_multiset_ensures;

    if flags.len() > 0 {
        let rest = flags.drop_last();
        law_matches_are_counted(rest);
        assert(flags == rest.push(flags.last()));
    }
}

} // verus!
