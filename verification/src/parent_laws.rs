//! How parts of a device find the device that they are parts of.
use crate::canonical::GpuModel;
use crate::correlation::{device_named, knows_as, parent_id, parent_source, with_parents};
use crate::model::DeviceObservation;
use vstd::prelude::*;

verus! {

/// The observation is one of the device, and names a parent.
pub open spec fn names_parent(observation: DeviceObservation, gpu: GpuModel) -> bool {
    &&& gpu.device_ids.contains_key(observation.provider@)
    &&& gpu.device_ids[observation.provider@]@ == observation.provider_device_id@
    &&& observation.parent_provider_device_id is Some
}

proof fn lemma_parent_source(observations: Seq<DeviceObservation>, gpu: GpuModel)
    ensures
        parent_source(observations, gpu) is Some <==> exists|i: int|
            0 <= i < observations.len() && names_parent(#[trigger] observations[i], gpu),
        forall|i: int|
            0 <= i < observations.len() && names_parent(#[trigger] observations[i], gpu) && (
            forall|j: int|
                0 <= j < i ==> !names_parent(#[trigger] observations[j], gpu)) ==> parent_source(
                observations,
                gpu,
            ) == Some(observations[i]),
    decreases observations.len(),
{
    let n = observations.len();
    if n > 0 {
        let rest = observations.drop_last();
        lemma_parent_source(rest, gpu);
        assert(observations[n - 1] == observations.last());
        if exists|i: int| 0 <= i < rest.len() && names_parent(#[trigger] rest[i], gpu) {
            let i = choose|i: int| 0 <= i < rest.len() && names_parent(#[trigger] rest[i], gpu);
            assert(names_parent(observations[i], gpu));
        }
        if exists|i: int| 0 <= i < n && names_parent(#[trigger] observations[i], gpu) {
            let i = choose|i: int| 0 <= i < n && names_parent(#[trigger] observations[i], gpu);
            if i < n - 1 {
                assert(names_parent(rest[i], gpu));
            }
        }
        assert forall|i: int|
            0 <= i < n && names_parent(#[trigger] observations[i], gpu) && (forall|j: int|
                0 <= j < i ==> !names_parent(#[trigger] observations[j], gpu)) implies parent_source(
            observations,
            gpu,
        ) == Some(observations[i]) by {
            if i < n - 1 {
                assert(names_parent(rest[i], gpu));
                assert forall|j: int| 0 <= j < i implies !names_parent(
                    #[trigger] rest[j],
                    gpu,
                ) by {
                    assert(!names_parent(observations[j], gpu));
                }
            } else if parent_source(rest, gpu) is Some {
                let j = choose|j: int| 0 <= j < rest.len() && names_parent(#[trigger] rest[j], gpu);
                assert(names_parent(observations[j], gpu));
            }
        }
    }
}

proof fn lemma_device_named(gpus: Seq<GpuModel>, provider: Seq<char>, device: Seq<char>, k: int)
    requires
        0 <= k < gpus.len(),
        knows_as(gpus[k], provider, device),
        forall|j: int| k < j < gpus.len() ==> !knows_as(#[trigger] gpus[j], provider, device),
    ensures
        device_named(gpus, provider, device) == Some(gpus[k].id),
    decreases gpus.len(),
{
    if k < gpus.len() - 1 {
        let rest = gpus.drop_last();
        assert(!knows_as(gpus[gpus.len() - 1], provider, device));
        assert(rest[k] == gpus[k]);
        assert forall|j: int| k < j < rest.len() implies !knows_as(
            #[trigger] rest[j],
            provider,
            device,
        ) by {
            assert(rest[j] == gpus[j]);
        }
        lemma_device_named(rest, provider, device, k);
    }
}

proof fn lemma_nobody_named(gpus: Seq<GpuModel>, provider: Seq<char>, device: Seq<char>)
    requires
        forall|j: int| 0 <= j < gpus.len() ==> !knows_as(#[trigger] gpus[j], provider, device),
    ensures
        device_named(gpus, provider, device) is None,
    decreases gpus.len(),
{
    if gpus.len() > 0 {
        let rest = gpus.drop_last();
        assert(!knows_as(gpus[gpus.len() - 1], provider, device));
        assert forall|j: int| 0 <= j < rest.len() implies !knows_as(
            #[trigger] rest[j],
            provider,
            device,
        ) by {
            assert(rest[j] == gpus[j]);
        }
        lemma_nobody_named(rest, provider, device);
    }
}

/// A device has as its parent the device that the same provider knows by the name which the first
/// of the device's own observations gives for it.
pub proof fn law_parts_find_their_parent(
    observations: Seq<DeviceObservation>,
    gpus: Seq<GpuModel>,
    d: int,
    i: int,
    k: int,
)
    requires
        0 <= d < gpus.len(),
        0 <= i < observations.len(),
        0 <= k < gpus.len(),
        names_parent(observations[i], gpus[d]),
        forall|j: int| 0 <= j < i ==> !names_parent(#[trigger] observations[j], gpus[d]),
        gpus[k].device_ids.contains_key(observations[i].provider@),
        gpus[k].device_ids[observations[i].provider@]@
            == observations[i].parent_provider_device_id->0@,
        forall|j: int|
            k < j < gpus.len() && (#[trigger] gpus[j]).device_ids.contains_key(
                observations[i].provider@,
            ) ==> gpus[j].device_ids[observations[i].provider@]@
                != observations[i].parent_provider_device_id->0@,
    ensures
        with_parents(observations, gpus)[d].parent_device_id == Some(gpus[k].id),
        with_parents(observations, gpus)[d].id == gpus[d].id,
{
    lemma_parent_source(observations, gpus[d]);
    let provider = observations[i].provider@;
    let device = observations[i].parent_provider_device_id->0@;
    assert(knows_as(gpus[k], provider, device));
    lemma_device_named(gpus, provider, device, k);
    assert(parent_id(observations, gpus, gpus[d]) == Some(gpus[k].id));
}

/// A device whose observations name no parent has none.
pub proof fn law_devices_without_a_parent_have_none(
    observations: Seq<DeviceObservation>,
    gpus: Seq<GpuModel>,
    d: int,
)
    requires
        0 <= d < gpus.len(),
        forall|j: int|
            0 <= j < observations.len() ==> !names_parent(#[trigger] observations[j], gpus[d]),
    ensures
        with_parents(observations, gpus)[d].parent_device_id is None,
{
    lemma_parent_source(observations, gpus[d]);
}

/// A parent that nobody has seen is no parent.
pub proof fn law_unseen_parents_are_none(
    observations: Seq<DeviceObservation>,
    gpus: Seq<GpuModel>,
    d: int,
    i: int,
)
    requires
        0 <= d < gpus.len(),
        0 <= i < observations.len(),
        names_parent(observations[i], gpus[d]),
        forall|j: int| 0 <= j < i ==> !names_parent(#[trigger] observations[j], gpus[d]),
        forall|j: int|
            0 <= j < gpus.len() && (#[trigger] gpus[j]).device_ids.contains_key(
                observations[i].provider@,
            ) ==> gpus[j].device_ids[observations[i].provider@]@
                != observations[i].parent_provider_device_id->0@,
    ensures
        with_parents(observations, gpus)[d].parent_device_id is None,
{
    lemma_parent_source(observations, gpus[d]);
    lemma_nobody_named(
        gpus,
        observations[i].provider@,
        observations[i].parent_provider_device_id->0@,
    );
}

/// Finding the parents changes nothing else of the devices.
pub proof fn law_parents_change_nothing_else(
    observations: Seq<DeviceObservation>,
    gpus: Seq<GpuModel>,
    d: int,
)
    requires
        0 <= d < gpus.len(),
    ensures
        with_parents(observations, gpus).len() == gpus.len(),
        with_parents(observations, gpus)[d] == (GpuModel {
            parent_device_id: with_parents(observations, gpus)[d].parent_device_id,
            ..gpus[d]
        }),
{
}

} // verus!
