//! What holds of a monitor whatever its providers answer.
use crate::canonical::GpuModel;
use crate::correlation::{correlated, gpu_models};
use crate::error::{ErrorModel, GpuError};
use crate::model::{DeviceObservation, MetricKey, ProviderDiagnostic};
use crate::monitor::{
    all_met, all_with_offers, enumerated, go_on, is_met, may_be_offered, may_state, provider_ids,
    required_verdict, stop_counts, with_offers, GpuMonitor, Offer,
};
use crate::provider::{one_more, Provider};
use vstd::prelude::*;

verus! {

/// A monitor has worked on, or was closed.
pub open spec fn follows<P: Provider>(before: GpuMonitor<P>, after: GpuMonitor<P>) -> bool {
    after.has_gone_on(&before) || after.has_closed(&before)
}

pub open spec fn follows_at<P: Provider>(history: Seq<GpuMonitor<P>>, i: int) -> bool {
    follows(history[i], history[i + 1])
}

/// The states of a monitor, each with what was done next.
pub open spec fn is_history<P: Provider>(history: Seq<GpuMonitor<P>>) -> bool {
    &&& history.len() > 0
    &&& forall|i: int| 0 <= i < history.len() - 1 ==> #[trigger] follows_at(history, i)
}

/// A monitor tells each of its providers to stop exactly once, when it is closed for the first
/// time, however often it is closed and whatever else is asked of it. Before that it tells none.
pub proof fn law_closing_stops_each_provider_once<P: Provider>(history: Seq<GpuMonitor<P>>)
    requires
        is_history(history),
        !history[0].shut(),
    ensures
        ({
            let first = history[0].provider_list();
            let last = history.last().provider_list();
            &&& provider_ids(last) == provider_ids(first)
            &&& !history.last().shut() ==> stop_counts(last) == stop_counts(first)
            &&& history.last().shut() ==> forall|p: int|
                0 <= p < last.len() ==> {
                    &&& (#[trigger] last[p]).is_stopped()
                    &&& last[p].stops() == one_more(first[p].stops())
                }
        }),
    decreases history.len(),
{
    let n = history.len();
    if n > 1 {
        let shorter = history.drop_last();
        assert forall|i: int| 0 <= i < shorter.len() - 1 implies #[trigger] follows_at(
            shorter,
            i,
        ) by {
            assert(follows_at(history, i));
        }
        law_closing_stops_each_provider_once(shorter);
        assert(follows_at(history, n - 2));
        let first = history[0].provider_list();
        let before = history[n - 2].provider_list();
        let last = history.last().provider_list();
        assert(provider_ids(before).len() == provider_ids(first).len());
        assert(provider_ids(last).len() == provider_ids(before).len());
        if history.last().shut() && !history[n - 2].shut() {
            assert forall|p: int| 0 <= p < last.len() implies (#[trigger] last[p]).is_stopped()
                && last[p].stops() == one_more(first[p].stops()) by {
                assert(stop_counts(before)[p] == stop_counts(first)[p]);
            }
        }
    }
}

/// A closed monitor stays closed, and as it was.
pub proof fn law_closed_monitors_stay_closed<P: Provider>(history: Seq<GpuMonitor<P>>)
    requires
        is_history(history),
        history[0].shut(),
    ensures
        history.last() == history[0],
    decreases history.len(),
{
    if history.len() > 1 {
        let shorter = history.drop_last();
        assert forall|i: int| 0 <= i < shorter.len() - 1 implies #[trigger] follows_at(
            shorter,
            i,
        ) by {
            assert(follows_at(history, i));
        }
        law_closed_monitors_stay_closed(shorter);
        assert(follows_at(history, history.len() - 2));
    }
}

/// One of the offers holds the metric.
pub open spec fn is_offered(offers: Seq<Offer>, metric: MetricKey) -> bool {
    exists|p: int| 0 <= p < offers.len() && (#[trigger] offers[p]).metrics.contains(metric)
}

proof fn lemma_offered(gpu: GpuModel, offers: Seq<Offer>, metric: MetricKey)
    ensures
        with_offers(gpu, offers).metrics.contains(metric) <==> gpu.metrics.contains(metric)
            || is_offered(offers, metric),
    decreases offers.len(),
{
    if offers.len() > 0 {
        let shorter = offers.drop_last();
        lemma_offered(gpu, shorter, metric);
        if is_offered(shorter, metric) {
            let p = choose|p: int|
                0 <= p < shorter.len() && (#[trigger] shorter[p]).metrics.contains(metric);
            assert(offers[p].metrics.contains(metric));
        }
        if is_offered(offers, metric) && !offers.last().metrics.contains(metric) {
            let p = choose|p: int|
                0 <= p < offers.len() && (#[trigger] offers[p]).metrics.contains(metric);
            assert(shorter[p].metrics.contains(metric));
        }
        if offers.last().metrics.contains(metric) {
            assert(offers[offers.len() - 1].metrics.contains(metric));
        }
    }
}

/// The provider may have offered the metric for the device when it was asked.
pub open spec fn is_offered_by<P: Provider>(
    provider: &P,
    gpu: GpuModel,
    offers: Seq<Offer>,
    p: int,
    metric: MetricKey,
) -> bool {
    may_be_offered(provider, gpu, offers.take(p), offers[p]) && offers[p].metrics.contains(metric)
}

/// A device advertises a metric exactly where an observation of it does or a provider has offered
/// it for this device. What no observation shows and no provider offers is not advertised.
pub proof fn law_capabilities_reflect_the_providers<P: Provider>(
    monitor: GpuMonitor<P>,
    before: GpuMonitor<P>,
    replies: Seq<Result<Vec<DeviceObservation>, GpuError>>,
    offers: Seq<Seq<Offer>>,
    d: int,
    metric: MetricKey,
)
    requires
        monitor.is_refreshed(&before, replies, offers),
        0 <= d < monitor.device_list().len(),
    ensures
        ({
            let found = correlated(enumerated(replies))[d];
            let providers = monitor.provider_list();
            monitor.device_list()[d].capability_set.metric_set().contains(metric)
                <==> found.metrics.contains(metric) || exists|p: int|
                0 <= p < providers.len() && #[trigger] is_offered_by(
                    &providers[p],
                    found,
                    offers[d],
                    p,
                    metric,
                )
        }),
{
    let found = correlated(enumerated(replies))[d];
    let providers = monitor.provider_list();
    let models = gpu_models(monitor.device_list());
    assert(models == all_with_offers(correlated(enumerated(replies)), offers));
    assert(models[d] == monitor.device_list()[d]@);
    assert(models[d] == with_offers(found, offers[d]));
    lemma_offered(found, offers[d], metric);
    assert(provider_ids(providers).len() == provider_ids(before.provider_list()).len());
    if is_offered(offers[d], metric) {
        let p = choose|p: int|
            0 <= p < offers[d].len() && (#[trigger] offers[d][p]).metrics.contains(metric);
        assert(is_offered_by(&providers[p], found, offers[d], p, metric));
    }
    if exists|p: int|
        0 <= p < providers.len() && #[trigger] is_offered_by(
            &providers[p],
            found,
            offers[d],
            p,
            metric,
        ) {
        let p = choose|p: int|
            0 <= p < providers.len() && #[trigger] is_offered_by(
                &providers[p],
                found,
                offers[d],
                p,
                metric,
            );
        assert(offers[d][p].metrics.contains(metric));
    }
}

/// A monitor opens only where every required name is that of a given provider.
pub proof fn law_required_providers_are_there<P: Provider>(
    monitor: GpuMonitor<P>,
    providers: Seq<P>,
    required: Seq<String>,
    k: int,
)
    requires
        monitor.has_opened(providers),
        all_met(monitor.provider_list(), required, required.len() as int),
        0 <= k < required.len(),
    ensures
        provider_ids(providers).contains(required[k]@),
{
    let list = monitor.provider_list();
    assert(is_met(list, required[k]@));
    let state = choose|state: Option<ProviderDiagnostic>| #[trigger]
        may_state(list, required[k]@, state) && required_verdict(required[k]@, state) is None;
    let i = choose|i: int| 0 <= i < list.len() && (#[trigger] list[i]).id() == required[k]@;
    assert(provider_ids(list)[i] == required[k]@);
}

/// A required name is refused as unknown exactly where no given provider has it.
pub proof fn law_only_unknown_names_are_invalid<P: Provider>(
    monitor: GpuMonitor<P>,
    providers: Seq<P>,
    name: Seq<char>,
    state: Option<ProviderDiagnostic>,
)
    requires
        monitor.has_opened(providers),
        may_state(monitor.provider_list(), name, state),
    ensures
        required_verdict(name, state) == Some(
            ErrorModel::InvalidArgument("unknown required provider: "@ + name),
        ) <==> !provider_ids(providers).contains(name),
{
    let list = monitor.provider_list();
    assert(go_on(providers, list));
    match state {
        Some(state) => {
            let i = choose|i: int| 0 <= i < list.len() && (#[trigger] list[i]).id() == name;
            assert(provider_ids(list)[i] == name);
        },
        None => {
            if provider_ids(list).contains(name) {
                let i = choose|i: int|
                    0 <= i < list.len() && #[trigger] provider_ids(list)[i] == name;
                assert(list[i].id() == name);
            }
        },
    }
}

} // verus!
