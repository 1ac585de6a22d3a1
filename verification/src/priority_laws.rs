//! Whose values count more, by the weights that the providers have.
use crate::merge::{selection, stale, valid};
use crate::merge_laws::{
    law_fresh_values_are_not_lost, law_selected_is_best, law_selected_is_valid_and_fresh,
};
use crate::model::{MetricKey, MetricObservation};
use crate::provider::ProviderMetadata;
use crate::providers::nvml::nvml_name;
use crate::providers::nvml_inventory::is_nvml_metric;
use crate::providers::windows::pdh_array::pdh_name;
use vstd::prelude::*;

verus! {

/// The provider is weighed as NVML is.
pub open spec fn weighs_as_nvml(metadata: ProviderMetadata) -> bool {
    &&& metadata.specificity == 100
    &&& metadata.reliability == 95
    &&& forall|key: MetricKey|
        metadata.priority(key) == if is_nvml_metric(key) {
            100i16
        } else {
            0i16
        }
}

/// The provider is weighed as PDH is.
pub open spec fn weighs_as_pdh(metadata: ProviderMetadata) -> bool {
    &&& metadata.specificity == 60
    &&& metadata.reliability == 90
    &&& forall|key: MetricKey|
        metadata.priority(key) == if key == MetricKey::UtilizationOverall {
            10i16
        } else {
            0i16
        }
}

/// Where NVML has a value that is valid and fresh, no value of PDH is selected.
pub proof fn law_nvml_outranks_pdh(
    metrics: Seq<MetricObservation>,
    providers: Map<Seq<char>, ProviderMetadata>,
    now_ms: u64,
    key: MetricKey,
    observation: MetricObservation,
)
    requires
        providers.contains_key(nvml_name()),
        providers.contains_key(pdh_name()),
        weighs_as_nvml(providers[nvml_name()]),
        weighs_as_pdh(providers[pdh_name()]),
        is_nvml_metric(key),
        metrics.contains(observation),
        observation.metric == key,
        observation.source@ == nvml_name(),
        valid(observation),
        !stale(observation, now_ms),
    ensures
        selection(metrics, providers, now_ms, key) is Some,
        selection(metrics, providers, now_ms, key)->0.source@ != pdh_name(),
{
    law_fresh_values_are_not_lost(metrics, providers, now_ms, observation);
    law_selected_is_best(metrics, providers, now_ms, observation);
    law_selected_is_valid_and_fresh(metrics, providers, now_ms, key);
}

} // verus!
