//! What holds of the metrics that sysfs gives.
use crate::merge::{absence_entries, value_entries};
use crate::model::{MetricKey, SampleRequest, TimestampMs};
use crate::ordered::Ordered;
use crate::providers::linux::inventory::{group_keys, groups_sources, LinuxDeviceRecord};
use crate::providers::linux::metric::{outcome, worst_error, ReadErrorModel, SourceModel};
use crate::providers::linux::provider::{
    first_working, group_outcome, sampled_absences, sampled_values, source_errors, was_read,
    GroupOutcome, GroupReading,
};
use vstd::prelude::*;

verus! {

/// Every metric has one group of sources.
pub open spec fn has_distinct_groups(record: LinuxDeviceRecord) -> bool {
    let groups = record.metric_sources@;
    forall|i: int, j: int|
        0 <= i < j < groups.len() ==> (#[trigger] groups[i]).key != (#[trigger] groups[j]).key
}

/// The groups that a device is planned with have one metric each.
pub proof fn law_planned_groups_are_distinct(
    record: LinuxDeviceRecord,
    sources: Seq<SourceModel>,
)
    requires
        groups_sources(record.metric_sources@, sources),
    ensures
        has_distinct_groups(record),
{
    let groups = record.metric_sources@;
    let keys = group_keys(groups);
    assert forall|i: int, j: int| 0 <= i < j < groups.len() implies (#[trigger] groups[i]).key != (
    #[trigger] groups[j]).key by {
        assert(MetricKey::less(keys[i], keys[j]));
    }
}

/// The group was read: some source of it, or the device was found to be gone.
pub open spec fn group_was_read(
    record: LinuxDeviceRecord,
    readings: Seq<GroupReading>,
    g: int,
) -> bool {
    let sources = record.metric_sources@[g].sources@;
    &&& g < readings.len()
    &&& readings[g].device_exists ==> exists|s: int|
        0 <= s < sources.len() && #[trigger] was_read(sources[s], readings[g].readings@, s)
}

/// Every wanted group was read.
pub open spec fn reads_all(
    record: LinuxDeviceRecord,
    readings: Seq<GroupReading>,
    request: SampleRequest,
) -> bool {
    forall|g: int|
        0 <= g < record.metric_sources@.len() && request.asks_for(
            (#[trigger] record.metric_sources@[g]).key,
        ) ==> group_was_read(record, readings, g)
}

proof fn lemma_working(
    record: LinuxDeviceRecord,
    reading: GroupReading,
    g: int,
    from: int,
    s: int,
)
    requires
        0 <= from <= s < record.metric_sources@[g].sources@.len(),
        was_read(record.metric_sources@[g].sources@[s], reading.readings@, s),
        outcome(
            record.metric_sources@[g].sources@[s].reader@,
            reading.readings@[s],
            record.device_path@,
        ) is Ok,
    ensures
        first_working(
            record.metric_sources@[g].sources@,
            reading.readings@,
            record.device_path@,
            from,
        ) <= s,
    decreases s - from,
{
    if from < s {
        lemma_working(record, reading, g, from + 1, s);
    }
}

proof fn lemma_failing(
    record: LinuxDeviceRecord,
    reading: GroupReading,
    g: int,
    s: int,
    n: int,
)
    requires
        0 <= s < n <= record.metric_sources@[g].sources@.len(),
        was_read(record.metric_sources@[g].sources@[s], reading.readings@, s),
        outcome(
            record.metric_sources@[g].sources@[s].reader@,
            reading.readings@[s],
            record.device_path@,
        ) is Err,
    ensures
        source_errors(
            record.metric_sources@[g].sources@,
            reading.readings@,
            record.device_path@,
            n,
        ).len() > 0,
    decreases n,
{
    if s < n - 1 {
        lemma_failing(record, reading, g, s, n - 1);
    }
}

proof fn lemma_worst(errors: Seq<ReadErrorModel>)
    requires
        errors.len() > 0,
    ensures
        worst_error(errors) is Some,
{
}

/// A group that was read has a value or an account, of its own metric.
proof fn lemma_group(
    record: LinuxDeviceRecord,
    readings: Seq<GroupReading>,
    device_id: Seq<char>,
    sampled_at: TimestampMs,
    g: int,
)
    requires
        0 <= g < record.metric_sources@.len(),
        group_was_read(record, readings, g),
    ensures
        match group_outcome(record, record.metric_sources@[g], readings[g], device_id, sampled_at) {
            GroupOutcome::Value(value) => value.metric == record.metric_sources@[g].key,
            GroupOutcome::Absent(account) => account.metric == record.metric_sources@[g].key,
            GroupOutcome::Nothing => false,
        },
{
    reveal(group_outcome);
    let sources = record.metric_sources@[g].sources@;
    let reading = readings[g];
    if reading.device_exists {
        let s = choose|s: int|
            0 <= s < sources.len() && #[trigger] was_read(sources[s], reading.readings@, s);
        if outcome(sources[s].reader@, reading.readings@[s], record.device_path@) is Ok {
            lemma_working(record, reading, g, 0, s);
        } else {
            lemma_failing(record, reading, g, s, sources.len() as int);
            lemma_worst(
                source_errors(
                    sources,
                    reading.readings@,
                    record.device_path@,
                    sources.len() as int,
                ),
            );
        }
    }
}

proof fn lemma_entries(
    record: LinuxDeviceRecord,
    readings: Seq<GroupReading>,
    request: SampleRequest,
    device_id: Seq<char>,
    sampled_at: TimestampMs,
    g: int,
    n: int,
)
    requires
        has_distinct_groups(record),
        reads_all(record, readings, request),
        0 <= g < record.metric_sources@.len(),
        0 <= n <= record.metric_sources@.len(),
    ensures
        value_entries(
            sampled_values(record, readings, request, device_id, sampled_at, n),
            record.metric_sources@[g].key,
        ) + absence_entries(
            sampled_absences(record, readings, request, device_id, sampled_at, n),
            record.metric_sources@[g].key,
        ) == if g < n && request.asks_for(record.metric_sources@[g].key) {
            1nat
        } else {
            0nat
        },
    decreases n,
{
    if n > 0 {
        lemma_entries(record, readings, request, device_id, sampled_at, g, n - 1);
        let group = record.metric_sources@[n - 1];
        if request.asks_for(group.key) {
            assert(group_was_read(record, readings, n - 1));
            lemma_group(record, readings, device_id, sampled_at, n - 1);
        }
        assert(group.key == record.metric_sources@[g].key ==> g == n - 1);
        let values = sampled_values(record, readings, request, device_id, sampled_at, n);
        let values_before = sampled_values(
            record,
            readings,
            request,
            device_id,
            sampled_at,
            n - 1,
        );
        if values != values_before {
            assert(values.drop_last() == values_before);
        }
        let accounts = sampled_absences(record, readings, request, device_id, sampled_at, n);
        let accounts_before = sampled_absences(
            record,
            readings,
            request,
            device_id,
            sampled_at,
            n - 1,
        );
        if accounts != accounts_before {
            assert(accounts.drop_last() == accounts_before);
        }
    }
}

/// A wanted metric of a device is reported exactly once, as a value or with the reason why there
/// is none; one that is not wanted is not reported.
pub proof fn law_wanted_metrics_are_reported_once(
    record: LinuxDeviceRecord,
    readings: Seq<GroupReading>,
    request: SampleRequest,
    device_id: Seq<char>,
    sampled_at: TimestampMs,
    g: int,
)
    requires
        has_distinct_groups(record),
        reads_all(record, readings, request),
        0 <= g < record.metric_sources@.len(),
    ensures
        ({
            let n = record.metric_sources@.len() as int;
            let key = record.metric_sources@[g].key;
            let values = sampled_values(record, readings, request, device_id, sampled_at, n);
            let accounts = sampled_absences(record, readings, request, device_id, sampled_at, n);
            value_entries(values, key) + absence_entries(accounts, key) == if request.asks_for(
                key,
            ) {
                1nat
            } else {
                0nat
            }
        }),
{
    lemma_entries(
        record,
        readings,
        request,
        device_id,
        sampled_at,
        g,
        record.metric_sources@.len() as int,
    );
}

} // verus!
