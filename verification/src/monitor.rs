//! The monitor: providers, the devices they see, and samples of them.
use crate::canonical::GpuModel;
use crate::correlation::{correlate, correlated, gpu_models};
use crate::error::{error_text, ErrorModel, GpuError};
use crate::json::{
    copy_json, copy_json_map, insert_fields, is_object_of, json_models, object_of, with_fields,
    Json, JsonMap, JsonModel,
};
use crate::merge::{absences, merge_metrics, AbsenceModel, MergedMetrics, ProviderTable};
use crate::model::{
    metric_place, now_millis, CanonicalGpu, CapabilitySet, DeviceMergeDiagnostics,
    DeviceObservation, Diagnostics, GpuProcessSnapshot, MergeCandidateDiagnostic, MetricKey,
    MetricMergeDiagnostic, MetricObservation, ProviderDiagnostic, ProviderSample, SampleRequest,
    TimestampMs, UnavailableObservation, UnavailableReason,
};
use crate::provider::{goes_on, one_more, Provider, ProviderMetadata};
use crate::snapshot::{
    awaits_second_sample, build_snapshot, process_view, snapshot_has_first_sample, GpuSnapshot,
};
use crate::sorted_map::{lists_keys, SortedMap};
use crate::text::{chars_of, extend_text, owned, same_text, string_of};
use vstd::prelude::*;

verus! {

/// What one provider answered when it was asked for a sample.
pub struct ProviderReply {
    pub id: String,
    pub metadata: ProviderMetadata,
    pub capabilities: CapabilitySet,
    pub reply: Result<ProviderSample, GpuError>,
}

/// The observations of a device with the device's own name.
pub open spec fn renamed(metrics: Seq<MetricObservation>, device: String) -> Seq<
    MetricObservation,
> {
    metrics.map_values(|m: MetricObservation| MetricObservation { device_id: device, ..m })
}

/// The values that the providers gave, in the order of the providers.
pub open spec fn given_metrics(replies: Seq<ProviderReply>, device: String) -> Seq<
    MetricObservation,
>
    decreases replies.len(),
{
    if replies.len() == 0 {
        Seq::empty()
    } else {
        let before = given_metrics(replies.drop_last(), device);
        match replies.last().reply {
            Ok(sample) => before + renamed(sample.metrics@, device),
            Err(error) => before,
        }
    }
}

/// The metric at a place in the list of all metrics.
pub open spec fn metric_at(place: int) -> MetricKey {
    choose|key: MetricKey| metric_place(key) == place
}

/// The metrics of `set` that the request asks for, among the first `n`, in order.
pub open spec fn asked_of(set: Set<MetricKey>, request: SampleRequest, n: int) -> Seq<MetricKey>
    decreases n,
{
    if n <= 0 {
        Seq::empty()
    } else {
        let before = asked_of(set, request, n - 1);
        if set.contains(metric_at(n - 1)) && request.asks_for(metric_at(n - 1)) {
            before.push(metric_at(n - 1))
        } else {
            before
        }
    }
}

/// Why and with which words a failed provider's metrics are missing.
pub open spec fn failure_details(error: ErrorModel) -> (UnavailableReason, Seq<char>) {
    match error {
        ErrorModel::Provider { provider, reason, message } => (reason, message),
        ErrorModel::DeviceNotFound(id) => (UnavailableReason::DeviceLost, error_text(error)),
        _ => (UnavailableReason::ProviderError, error_text(error)),
    }
}

pub fn provider_error_details(error: &GpuError) -> (details: (UnavailableReason, String))
    ensures
        (details.0, details.1@) == failure_details(error@),
{
    match error {
        GpuError::Provider { provider, reason, message } => (*reason, message.clone()),
        GpuError::DeviceNotFound(id) => (UnavailableReason::DeviceLost, error.message()),
        _ => (UnavailableReason::ProviderError, error.message()),
    }
}

/// The account of one metric of a failed provider.
pub open spec fn failure_absence(
    id: Seq<char>,
    error: ErrorModel,
    device: Seq<char>,
    metric: MetricKey,
) -> AbsenceModel {
    AbsenceModel {
        device_id: device,
        metric,
        reason: failure_details(error).0,
        source: Some(id),
        message: Some(failure_details(error).1),
    }
}

/// The accounts of the metrics that a failed provider offers and the request asks for, among the
/// first `n`.
pub open spec fn failure_absences(
    reply: ProviderReply,
    error: ErrorModel,
    device: Seq<char>,
    request: SampleRequest,
    n: int,
) -> Seq<AbsenceModel> {
    asked_of(reply.capabilities.metric_set(), request, n).map_values(
        |metric: MetricKey| failure_absence(reply.id@, error, device, metric),
    )
}

/// The accounts of missing metrics that the providers gave, or that follow from their failure.
pub open spec fn given_absences(
    replies: Seq<ProviderReply>,
    device: Seq<char>,
    request: SampleRequest,
) -> Seq<AbsenceModel>
    decreases replies.len(),
{
    if replies.len() == 0 {
        Seq::empty()
    } else {
        let before = given_absences(replies.drop_last(), device, request);
        match replies.last().reply {
            Ok(sample) => before + absences(sample.unavailable@).map_values(
                |a: AbsenceModel| AbsenceModel { device_id: device, ..a },
            ),
            Err(error) => before + failure_absences(replies.last(), error@, device, request, 26),
        }
    }
}

/// What is known of each provider that answered.
pub open spec fn provider_table(replies: Seq<ProviderReply>) -> Map<Seq<char>, ProviderMetadata>
    decreases replies.len(),
{
    if replies.len() == 0 {
        Map::empty()
    } else {
        provider_table(replies.drop_last()).insert(
            replies.last().metadata.id@,
            replies.last().metadata,
        )
    }
}

/// The list of processes of the most specific provider that gave one, the earlier one where two
/// are equally specific.
pub open spec fn best_processes(replies: Seq<ProviderReply>) -> Option<
    (i16, Seq<GpuProcessSnapshot>),
>
    decreases replies.len(),
{
    if replies.len() == 0 {
        None
    } else {
        let before = best_processes(replies.drop_last());
        let specificity = replies.last().metadata.specificity;
        match replies.last().reply {
            Ok(sample) => match (sample.processes, before) {
                (None, _) => before,
                (Some(list), None) => Some((specificity, list@)),
                (Some(list), Some(best)) => if specificity > best.0 {
                    Some((specificity, list@))
                } else {
                    before
                },
            },
            Err(error) => before,
        }
    }
}

/// What is noted of a provider that failed to give a sample.
pub open spec fn failure_warning(id: Seq<char>, device: Seq<char>, error: ErrorModel) -> Seq<char> {
    id + " sample failed for "@ + device + ": "@ + error_text(error)
}

/// What is noted of the providers that failed, in the order of the providers.
pub open spec fn sample_warnings(replies: Seq<ProviderReply>, device: Seq<char>) -> Seq<Seq<char>>
    decreases replies.len(),
{
    if replies.len() == 0 {
        Seq::empty()
    } else {
        let before = sample_warnings(replies.drop_last(), device);
        match replies.last().reply {
            Ok(sample) => before,
            Err(error) => before.push(failure_warning(replies.last().id@, device, error@)),
        }
    }
}

/// The processes that a sample reports: none unless they were asked for and a provider gave a list.
pub open spec fn reported_processes(
    replies: Seq<ProviderReply>,
    request: SampleRequest,
) -> Option<Seq<GpuProcessSnapshot>> {
    if request.include_processes {
        match best_processes(replies) {
            Some(best) => Some(best.1),
            None => None,
        }
    } else {
        None
    }
}

/// The views of texts.
pub open spec fn texts(list: Seq<String>) -> Seq<Seq<char>> {
    list.map_values(|text: String| text@)
}

/// A sample put together from the answers of the providers.
pub struct Assembly {
    pub snapshot: GpuSnapshot,
    pub diagnostics: Vec<MetricMergeDiagnostic>,
    pub warnings: Vec<String>,
}

impl Assembly {
    /// The sample of a device that the answers give at the given time.
    pub open spec fn is_made_of(
        &self,
        gpu: &CanonicalGpu,
        request: SampleRequest,
        replies: Seq<ProviderReply>,
        sampled_at: TimestampMs,
    ) -> bool {
        let metrics = given_metrics(replies, gpu.identity.id);
        let missing = given_absences(replies, gpu.identity.id@, request);
        &&& exists|merged: MergedMetrics|
            {
                &&& #[trigger] merged.is_merge_of(
                    metrics,
                    missing,
                    provider_table(replies),
                    sampled_at,
                )
                &&& self.snapshot.shows(gpu, merged.selected@, merged.unavailable@)
                &&& merged.diagnostics == self.diagnostics
            }
        &&& self.snapshot.sampled_at == sampled_at
        &&& process_view(self.snapshot.processes) == reported_processes(replies, request)
        &&& texts(self.warnings@) == sample_warnings(replies, gpu.identity.id@)
    }
}

/// Notes one after the other, each once.
pub open spec fn noted(warnings: Seq<Seq<char>>, new: Seq<Seq<char>>) -> Seq<Seq<char>>
    decreases new.len(),
{
    if new.len() == 0 {
        warnings
    } else {
        let before = noted(warnings, new.drop_last());
        if before.contains(new.last()) {
            before
        } else {
            before.push(new.last())
        }
    }
}

/// Adds a warning unless it was noted before.
pub fn record_warning(warnings: &mut Vec<String>, warning: String)
    ensures
        texts(final(warnings)@) == if texts(old(warnings)@).contains(warning@) {
            texts(old(warnings)@)
        } else {
            texts(old(warnings)@).push(warning@)
        },
{
    let ghost before = texts(warnings@);
    let mut i: usize = 0;
    while i < warnings.len()
        invariant
            i <= warnings.len(),
            before == texts(warnings@),
            forall|k: int| 0 <= k < i ==> #[trigger] before[k] != warning@,
        decreases warnings.len() - i,
    {
        if warnings[i] == warning {
            assert(before[i as int] == warning@);
            return ;
        }
        i = i + 1;
    }
    warnings.push(warning);
    assert(texts(warnings@) == before.push(warning@));
}

fn record_warnings(warnings: &mut Vec<String>, new: &Vec<String>)
    ensures
        texts(final(warnings)@) == noted(texts(old(warnings)@), texts(new@)),
{
    let ghost before = texts(warnings@);
    let ghost all = texts(new@);
    let mut i: usize = 0;
    assert(all.take(0) == Seq::<Seq<char>>::empty());
    while i < new.len()
        invariant
            i <= new.len(),
            all == texts(new@),
            texts(warnings@) == noted(before, all.take(i as int)),
        decreases new.len() - i,
    {
        assert(all.take(i + 1).drop_last() == all.take(i as int));
        record_warning(warnings, new[i].clone());
        i = i + 1;
    }
    assert(all.take(i as int) == all);
}

/// Takes over the values and accounts of one provider's sample.
fn collect_provider_sample(
    device: &String,
    sample: &ProviderSample,
    metrics: &mut Vec<MetricObservation>,
    unavailable: &mut Vec<UnavailableObservation>,
)
    ensures
        final(metrics)@ == old(metrics)@ + renamed(sample.metrics@, *device),
        absences(final(unavailable)@) == absences(old(unavailable)@) + absences(
            sample.unavailable@,
        ).map_values(|a: AbsenceModel| AbsenceModel { device_id: device@, ..a }),
{
    let ghost before = metrics@;
    let ghost new = renamed(sample.metrics@, *device);
    let mut i: usize = 0;
    while i < sample.metrics.len()
        invariant
            i <= sample.metrics.len(),
            new == renamed(sample.metrics@, *device),
            metrics@ == before + new.take(i as int),
        decreases sample.metrics.len() - i,
    {
        let mut metric = sample.metrics[i].clone();
        metric.device_id = device.clone();
        metrics.push(metric);
        i = i + 1;
        assert(new.take(i as int) == new.take(i - 1).push(new[i - 1]));
    }
    assert(new.take(i as int) == new);
    let ghost earlier = absences(unavailable@);
    let ghost accounts = absences(sample.unavailable@).map_values(
        |a: AbsenceModel| AbsenceModel { device_id: device@, ..a },
    );
    let mut i: usize = 0;
    while i < sample.unavailable.len()
        invariant
            i <= sample.unavailable.len(),
            accounts == absences(sample.unavailable@).map_values(
                |a: AbsenceModel| AbsenceModel { device_id: device@, ..a },
            ),
            absences(unavailable@) == earlier + accounts.take(i as int),
        decreases sample.unavailable.len() - i,
    {
        let ghost held = absences(unavailable@);
        let mut account = sample.unavailable[i].clone();
        account.device_id = device.clone();
        unavailable.push(account);
        i = i + 1;
        assert(absences(unavailable@) == held.push(account@));
        assert(account@ == accounts[i - 1]);
        assert(accounts.take(i as int) == accounts.take(i - 1).push(accounts[i - 1]));
    }
    assert(accounts.take(i as int) == accounts);
}

/// Accounts for the metrics that a failed provider offers and the request asks for.
fn collect_failure(
    device: &String,
    reply: &ProviderReply,
    error: &GpuError,
    request: &SampleRequest,
    unavailable: &mut Vec<UnavailableObservation>,
)
    ensures
        absences(final(unavailable)@) == absences(old(unavailable)@) + failure_absences(
            *reply,
            error@,
            device@,
            *request,
            26,
        ),
{
    let (reason, message) = provider_error_details(error);
    let ghost before = absences(unavailable@);
    let mut place: u8 = 0;
    while place < 26
        invariant
            place <= 26,
            (reason, message@) == failure_details(error@),
            absences(unavailable@) == before + failure_absences(
                *reply,
                error@,
                device@,
                *request,
                place as int,
            ),
        decreases 26 - place,
    {
        let key = MetricKey::at(place);
        assert(metric_at(place as int) == key) by {
            assert(metric_place(key) == place);
        }
        let ghost earlier = failure_absences(*reply, error@, device@, *request, place as int);
        let ghost held = absences(unavailable@);
        if reply.capabilities.supports(key) && request.wants(key) {
            let account = UnavailableObservation {
                device_id: device.clone(),
                metric: key,
                reason,
                source: Some(reply.id.clone()),
                message: Some(message.clone()),
            };
            unavailable.push(account);
            assert(absences(unavailable@) == held.push(account@));
            assert(failure_absences(*reply, error@, device@, *request, place + 1)
                == earlier.push(account@));
        }
        place = place + 1;
    }
}

/// Puts a sample together from the answers of the providers.
pub fn assemble_sample(
    gpu: &CanonicalGpu,
    request: &SampleRequest,
    replies: Vec<ProviderReply>,
    sampled_at: TimestampMs,
) -> (assembly: Assembly)
    ensures
        assembly.is_made_of(gpu, *request, replies@, sampled_at),
{
    let ghost all = replies@;
    let mut rest = replies;
    let mut metrics: Vec<MetricObservation> = Vec::new();
    let mut unavailable: Vec<UnavailableObservation> = Vec::new();
    let mut processes: Option<Vec<GpuProcessSnapshot>> = None;
    let mut specificity: i16 = 0;
    let mut table: ProviderTable = SortedMap::new();
    let mut warnings: Vec<String> = Vec::new();
    let ghost mut n: int = 0;
    assert(all.take(0) == Seq::<ProviderReply>::empty());
    assert(all.skip(0) == all);
    while rest.len() > 0
        invariant
            0 <= n <= all.len(),
            rest@ == all.skip(n),
            metrics@ == given_metrics(all.take(n), gpu.identity.id),
            absences(unavailable@) == given_absences(all.take(n), gpu.identity.id@, *request),
            table@ == provider_table(all.take(n)),
            texts(warnings@) == sample_warnings(all.take(n), gpu.identity.id@),
            best_processes(all.take(n)) == match processes {
                Some(list) => Some((specificity, list@)),
                None => None,
            },
        decreases rest.len(),
    {
        assert(all.take(n + 1).drop_last() == all.take(n));
        assert(all.take(n + 1).last() == rest@[0]);
        let next = rest.remove(0);
        match &next.reply {
            Ok(sample) => {
                collect_provider_sample(
                    &gpu.identity.id,
                    sample,
                    &mut metrics,
                    &mut unavailable,
                );
                if let Some(list) = &sample.processes {
                    if processes.is_none() || next.metadata.specificity > specificity {
                        processes = Some(crate::snapshot::copy_processes(list));
                        specificity = next.metadata.specificity;
                    }
                }
            },
            Err(error) => {
                collect_failure(&gpu.identity.id, &next, error, request, &mut unavailable);
                let mut text = chars_of(next.id.as_str());
                extend_text(&mut text, " sample failed for ");
                extend_text(&mut text, gpu.identity.id.as_str());
                extend_text(&mut text, ": ");
                let message = error.message();
                extend_text(&mut text, message.as_str());
                let ghost held = texts(warnings@);
                warnings.push(string_of(&text));
                assert(texts(warnings@) == held.push(text@));
            },
        }
        table.insert(owned(next.metadata.id), next.metadata);
        proof {
            assert(rest@ == all.skip(n + 1));
            n = n + 1;
        }
    }
    assert(all.take(n) == all);
    let merged = merge_metrics(metrics, unavailable, &table, sampled_at);
    let listed = if request.include_processes {
        processes
    } else {
        None
    };
    let snapshot = build_snapshot(gpu, &merged, sampled_at, listed);
    let ghost whole = merged;
    let MergedMetrics { selected, unavailable: missing, diagnostics } = merged;
    let assembly = Assembly { snapshot, diagnostics, warnings };
    assert(whole.diagnostics == assembly.diagnostics);
    assembly
}

/// What the monitor is asked to do beyond watching.
#[derive(Debug)]
pub struct MonitorOptions {
    pub required_providers: Vec<String>,
    pub enable_apple_private_telemetry: bool,
    pub include_software_adapters: bool,
}

impl Default for MonitorOptions {
    fn default() -> (options: Self)
        ensures
            options.required_providers@.len() == 0,
            options.enable_apple_private_telemetry,
            !options.include_software_adapters,
    {
        MonitorOptions {
            required_providers: Vec::new(),
            enable_apple_private_telemetry: true,
            include_software_adapters: false,
        }
    }
}

/// The observations of all providers that answered, in the order of the providers.
pub open spec fn enumerated(replies: Seq<Result<Vec<DeviceObservation>, GpuError>>) -> Seq<
    DeviceObservation,
>
    decreases replies.len(),
{
    if replies.len() == 0 {
        Seq::empty()
    } else {
        match replies.last() {
            Ok(list) => enumerated(replies.drop_last()) + list@,
            Err(error) => enumerated(replies.drop_last()),
        }
    }
}

/// What is noted of the providers that failed to list their devices.
pub open spec fn inventory_warnings(
    ids: Seq<Seq<char>>,
    replies: Seq<Result<Vec<DeviceObservation>, GpuError>>,
) -> Seq<Seq<char>>
    decreases replies.len(),
{
    if replies.len() == 0 {
        Seq::empty()
    } else {
        let before = inventory_warnings(ids, replies.drop_last());
        match replies.last() {
            Ok(list) => before,
            Err(error) => before.push(
                ids[replies.len() - 1] + " inventory failed: "@ + error_text(error@),
            ),
        }
    }
}

/// Capabilities that one provider offers for one device.
pub struct Offer {
    pub metrics: Set<MetricKey>,
    pub extensions: Set<Seq<char>>,
}

/// A device with the capabilities that providers offer for it.
pub open spec fn with_offers(gpu: GpuModel, offers: Seq<Offer>) -> GpuModel
    decreases offers.len(),
{
    if offers.len() == 0 {
        gpu
    } else {
        let before = with_offers(gpu, offers.drop_last());
        GpuModel {
            metrics: before.metrics.union(offers.last().metrics),
            extensions: before.extensions.union(offers.last().extensions),
            ..before
        }
    }
}

/// The provider may offer this for a device that others have offered something for before. It is
/// asked with the device as it was put together, and with the capabilities that it has by then.
pub open spec fn may_be_offered<P: Provider>(
    provider: &P,
    gpu: GpuModel,
    earlier: Seq<Offer>,
    offer: Offer,
) -> bool {
    exists|found: CanonicalGpu, device: CanonicalGpu, capabilities: CapabilitySet|
        {
            &&& found@ == gpu
            &&& #[trigger] found.consistent()
            &&& device == (CanonicalGpu { capability_set: device.capability_set, ..found })
            &&& device@ == with_offers(gpu, earlier)
            &&& #[trigger] provider.may_offer(&device, capabilities)
            &&& offer == (Offer {
                metrics: capabilities.metric_set(),
                extensions: capabilities.vendor_extensions@,
            })
        }
}

/// The devices, each with the capabilities that providers offer for it.
pub open spec fn all_with_offers(gpus: Seq<GpuModel>, offers: Seq<Seq<Offer>>) -> Seq<GpuModel> {
    Seq::new(gpus.len(), |d: int| with_offers(gpus[d], offers[d]))
}

/// The position of the first device with the public name `id`, the length where there is none.
pub open spec fn device_position(devices: Seq<CanonicalGpu>, id: Seq<char>) -> int
    decreases devices.len(),
{
    if devices.len() == 0 {
        0
    } else if device_position(devices.drop_last(), id) < devices.len() - 1 {
        device_position(devices.drop_last(), id)
    } else if devices.last().identity.id@ == id {
        devices.len() - 1
    } else {
        devices.len() as int
    }
}

fn find_device(devices: &Vec<CanonicalGpu>, id: &str) -> (at: usize)
    ensures
        at == device_position(devices@, id@),
        at <= devices@.len(),
        at < devices@.len() ==> devices@[at as int].identity.id@ == id@,
{
    let mut at: usize = devices.len();
    let mut k: usize = 0;
    while k < devices.len()
        invariant
            k <= devices.len(),
            at == devices.len() || at < k,
            at < devices.len() ==> devices@[at as int].identity.id@ == id@,
            device_position(devices@.take(k as int), id@) == if at < k {
                at as int
            } else {
                k as int
            },
        decreases devices.len() - k,
    {
        assert(devices@.take(k + 1).drop_last() == devices@.take(k as int));
        if at == devices.len() && same_text(devices[k].identity.id.as_str(), id) {
            at = k;
        }
        k = k + 1;
    }
    assert(devices@.take(k as int) == devices@);
    at
}

/// What the diagnostics of a merge say of one metric.
pub struct NoteModel {
    pub metric: MetricKey,
    pub candidates: Seq<MergeCandidateDiagnostic>,
}

pub open spec fn note_models(notes: Seq<MetricMergeDiagnostic>) -> Seq<NoteModel> {
    notes.map_values(
        |note: MetricMergeDiagnostic|
            NoteModel { metric: note.metric, candidates: note.candidates@ },
    )
}

fn copy_notes(notes: &Vec<MetricMergeDiagnostic>) -> (copy: Vec<MetricMergeDiagnostic>)
    ensures
        note_models(copy@) == note_models(notes@),
{
    let mut copy: Vec<MetricMergeDiagnostic> = Vec::new();
    let mut i: usize = 0;
    while i < notes.len()
        invariant
            i <= notes.len(),
            note_models(copy@) == note_models(notes@).take(i as int),
        decreases notes.len() - i,
    {
        let ghost before = note_models(copy@);
        let source = &notes[i].candidates;
        let mut candidates: Vec<MergeCandidateDiagnostic> = Vec::new();
        let mut k: usize = 0;
        while k < source.len()
            invariant
                k <= source.len(),
                candidates@ == source@.take(k as int),
            decreases source.len() - k,
        {
            candidates.push(source[k].clone());
            k = k + 1;
            assert(candidates@ == source@.take(k as int));
        }
        assert(candidates@ == source@);
        copy.push(MetricMergeDiagnostic { metric: notes[i].metric, candidates });
        i = i + 1;
        assert(note_models(copy@) == before.push(note_models(notes@)[i - 1]));
    }
    assert(note_models(copy@) == note_models(notes@));
    copy
}

/// What a required provider's state means for opening the monitor.
pub open spec fn required_verdict(
    name: Seq<char>,
    diagnostic: Option<ProviderDiagnostic>,
) -> Option<ErrorModel> {
    match diagnostic {
        None => Some(ErrorModel::InvalidArgument("unknown required provider: "@ + name)),
        Some(state) => if state.loaded {
            None
        } else {
            Some(
                ErrorModel::Provider {
                    provider: name,
                    reason: match state.reason {
                        Some(reason) => reason,
                        None => UnavailableReason::ProviderError,
                    },
                    message: match state.message {
                        Some(message) => message@,
                        None => "required provider did not initialize"@,
                    },
                },
            )
        },
    }
}

/// Whether a required provider is there and loaded.
pub fn judge_required(name: &str, diagnostic: Option<ProviderDiagnostic>) -> (verdict: Result<
    (),
    GpuError,
>)
    ensures
        match verdict {
            Ok(_) => required_verdict(name@, diagnostic) is None,
            Err(error) => required_verdict(name@, diagnostic) == Some(error@),
        },
{
    match diagnostic {
        None => {
            let mut text = chars_of("unknown required provider: ");
            extend_text(&mut text, name);
            Err(GpuError::InvalidArgument(string_of(&text)))
        },
        Some(state) => if state.loaded {
            Ok(())
        } else {
            let reason = match state.reason {
                Some(reason) => reason,
                None => UnavailableReason::ProviderError,
            };
            let message = match state.message {
                Some(message) => message,
                None => owned("required provider did not initialize"),
            };
            Err(GpuError::provider(name, reason, message.as_str()))
        },
    }
}

/// The first provider with the given name may say so of its state, or there is none.
pub open spec fn may_state<P: Provider>(
    providers: Seq<P>,
    name: Seq<char>,
    state: Option<ProviderDiagnostic>,
) -> bool {
    match state {
        Some(state) => exists|i: int|
            0 <= i < providers.len() && (#[trigger] providers[i]).id() == name
                && providers[i].may_report(state) && forall|j: int|
                0 <= j < i ==> (#[trigger] providers[j]).id() != name,
        None => forall|i: int|
            0 <= i < providers.len() ==> (#[trigger] providers[i]).id() != name,
    }
}

/// The provider with the given name is there and loaded.
pub open spec fn is_met<P: Provider>(providers: Seq<P>, name: Seq<char>) -> bool {
    exists|state: Option<ProviderDiagnostic>| #[trigger]
        may_state(providers, name, state) && required_verdict(name, state) is None
}

/// The first `n` of the required providers are there and loaded.
pub open spec fn all_met<P: Provider>(providers: Seq<P>, required: Seq<String>, n: int) -> bool {
    forall|k: int| 0 <= k < n ==> is_met(providers, (#[trigger] required[k])@)
}

/// What the answer of one provider to a question for vendor data adds.
pub open spec fn with_vendor_reply(
    info: Map<Seq<char>, JsonModel>,
    id: Seq<char>,
    reply: Result<Json, GpuError>,
) -> Map<Seq<char>, JsonModel> {
    match reply {
        Ok(value) => match value@ {
            JsonModel::Object(fields) => with_fields(info, fields),
            JsonModel::Null => info,
            other => info.insert(id, other),
        },
        Err(error) => info,
    }
}

/// The vendor data of a device with what the providers add, in their order.
pub open spec fn with_vendor_replies(
    info: Map<Seq<char>, JsonModel>,
    ids: Seq<Seq<char>>,
    replies: Seq<Result<Json, GpuError>>,
) -> Map<Seq<char>, JsonModel>
    decreases replies.len(),
{
    if replies.len() == 0 {
        info
    } else {
        with_vendor_reply(
            with_vendor_replies(info, ids, replies.drop_last()),
            ids[replies.len() - 1],
            replies.last(),
        )
    }
}

/// What is noted of the providers that failed to give vendor data.
pub open spec fn vendor_warnings(ids: Seq<Seq<char>>, replies: Seq<Result<Json, GpuError>>) -> Seq<
    Seq<char>,
>
    decreases replies.len(),
{
    if replies.len() == 0 {
        Seq::empty()
    } else {
        let before = vendor_warnings(ids, replies.drop_last());
        match replies.last() {
            Ok(value) => before,
            Err(error) => before.push(
                ids[replies.len() - 1] + " vendor info failed: "@ + error_text(error@),
            ),
        }
    }
}

/// Adds the answer of one provider to the vendor data of a device.
pub fn add_vendor_reply(info: &mut JsonMap, id: &str, reply: &Result<Json, GpuError>)
    ensures
        json_models(final(info)@) == with_vendor_reply(json_models(old(info)@), id@, *reply),
{
    let ghost before = json_models(info@);
    match reply {
        Ok(value) => match value {
            Json::Object(fields) => {
                let copied = copy_json(value);
                if let Json::Object(fields) = copied {
                    insert_fields(info, fields);
                }
            },
            Json::Null => {},
            _ => {
                let copied = copy_json(value);
                info.insert(owned(id), copied);
                assert(json_models(info@) == before.insert(id@, value@));
            },
        },
        Err(error) => {},
    }
}

fn warning_text(id: &str, middle: &str, error: &GpuError) -> (text: String)
    ensures
        text@ == id@ + middle@ + error_text(error@),
{
    let mut out = chars_of(id);
    extend_text(&mut out, middle);
    let message = error.message();
    extend_text(&mut out, message.as_str());
    string_of(&out)
}

/// The names of providers.
pub open spec fn provider_ids<P: Provider>(providers: Seq<P>) -> Seq<Seq<char>> {
    providers.map_values(|provider: P| provider.id())
}

/// How often providers were told to stop.
pub open spec fn stop_counts<P: Provider>(providers: Seq<P>) -> Seq<Option<nat>> {
    providers.map_values(|provider: P| provider.stops())
}

/// The providers have kept their names, and none was told to stop.
pub open spec fn go_on<P: Provider>(before: Seq<P>, after: Seq<P>) -> bool {
    &&& provider_ids(after) == provider_ids(before)
    &&& stop_counts(after) == stop_counts(before)
}

proof fn lemma_go_on<P: Provider>(before: Seq<P>, after: Seq<P>)
    requires
        before.len() == after.len(),
        forall|k: int| 0 <= k < after.len() ==> goes_on(before[k], #[trigger] after[k]),
    ensures
        go_on(before, after),
{
    assert forall|k: int| 0 <= k < after.len() implies provider_ids(after)[k] == provider_ids(
        before,
    )[k] && stop_counts(after)[k] == stop_counts(before)[k] by {
        assert(goes_on(before[k], after[k]));
    }
    assert(provider_ids(after) =~= provider_ids(before));
    assert(stop_counts(after) =~= stop_counts(before));
}

/// Watches the devices of its providers.
pub struct GpuMonitor<P: Provider> {
    providers: Vec<P>,
    devices: Vec<CanonicalGpu>,
    warnings: Vec<String>,
    merge_diagnostics: SortedMap<String, Vec<MetricMergeDiagnostic>>,
    closed: bool,
}

impl<P: Provider> GpuMonitor<P> {
    pub closed spec fn provider_list(&self) -> Seq<P> {
        self.providers@
    }

    pub closed spec fn device_list(&self) -> Seq<CanonicalGpu> {
        self.devices@
    }

    pub closed spec fn warning_list(&self) -> Seq<Seq<char>> {
        texts(self.warnings@)
    }

    /// The diagnostics of the last merge for each device.
    pub closed spec fn selections(&self) -> Map<Seq<char>, Seq<NoteModel>> {
        self.merge_diagnostics@.map_values(
            |notes: Vec<MetricMergeDiagnostic>| note_models(notes@),
        )
    }

    pub closed spec fn shut(&self) -> bool {
        self.closed
    }

    /// Nothing but the providers' own state differs.
    pub open spec fn same_but_providers(&self, other: &Self) -> bool {
        &&& self.device_list() == other.device_list()
        &&& self.warning_list() == other.warning_list()
        &&& self.selections() == other.selections()
        &&& self.shut() == other.shut()
    }

    /// The monitor has worked on, with the same providers; a closed one is as it was.
    pub open spec fn has_gone_on(&self, before: &Self) -> bool {
        &&& go_on(before.provider_list(), self.provider_list())
        &&& self.shut() == before.shut()
        &&& before.shut() ==> *self == *before
    }

    /// The providers, in the order in which they are asked.
    pub fn providers(&self) -> (list: &Vec<P>)
        ensures
            list@ == self.provider_list(),
    {
        &self.providers
    }

    pub fn is_closed(&self) -> (closed: bool)
        ensures
            closed == self.shut(),
    {
        self.closed
    }

    fn ensure_open(&self) -> (result: Result<(), GpuError>)
        ensures
            match result {
                Ok(_) => !self.shut(),
                Err(error) => self.shut() && error@ == ErrorModel::MonitorClosed,
            },
    {
        if self.closed {
            Err(GpuError::MonitorClosed)
        } else {
            Ok(())
        }
    }

    /// The devices, unless the monitor is closed.
    pub fn gpus(&self) -> (result: Result<&Vec<CanonicalGpu>, GpuError>)
        ensures
            match result {
                Ok(devices) => !self.shut() && devices@ == self.device_list(),
                Err(error) => self.shut() && error@ == ErrorModel::MonitorClosed,
            },
    {
        match self.ensure_open() {
            Ok(_) => Ok(&self.devices),
            Err(error) => Err(error),
        }
    }

    /// The devices are those that the providers' answers give. Each has the capabilities that the
    /// providers then offer for it, one after the other. Failures are noted.
    pub open spec fn is_refreshed(
        &self,
        before: &Self,
        replies: Seq<Result<Vec<DeviceObservation>, GpuError>>,
        offers: Seq<Seq<Offer>>,
    ) -> bool {
        &&& replies.len() == before.provider_list().len()
        &&& forall|i: int|
            0 <= i < replies.len() ==> before.provider_list()[i].may_enumerate(
                #[trigger] replies[i],
            )
        &&& offers.len() == correlated(enumerated(replies)).len()
        &&& forall|d: int|
            0 <= d < offers.len() ==> (#[trigger] offers[d]).len()
                == before.provider_list().len()
        &&& go_on(before.provider_list(), self.provider_list())
        &&& forall|d: int, p: int|
            0 <= d < offers.len() && 0 <= p < before.provider_list().len() ==> may_be_offered(
                &self.provider_list()[p],
                correlated(enumerated(replies))[d],
                offers[d].take(p),
                #[trigger] offers[d][p],
            )
        &&& gpu_models(self.device_list()) == all_with_offers(
            correlated(enumerated(replies)),
            offers,
        )
        &&& self.warning_list() == noted(
            before.warning_list(),
            inventory_warnings(provider_ids(before.provider_list()), replies),
        )
    }

    /// Asks every provider for its devices and puts them together anew.
    pub fn refresh_devices(&mut self) -> (result: Result<(), GpuError>)
        ensures
            final(self).has_gone_on(old(self)),
            match result {
                Err(error) => old(self).shut() && error@ == ErrorModel::MonitorClosed
                    && *final(self) == *old(self),
                Ok(_) => {
                    &&& !old(self).shut()
                    &&& final(self).selections() == old(self).selections()
                    &&& forall|d: int|
                        0 <= d < final(self).device_list().len() ==> (
                        #[trigger] final(self).device_list()[d]).consistent()
                    &&& exists|
                        replies: Seq<Result<Vec<DeviceObservation>, GpuError>>,
                        offers: Seq<Seq<Offer>>,
                    | #[trigger]
                        final(self).is_refreshed(old(self), replies, offers)
                },
            },
    {
        if self.closed {
            return Err(GpuError::MonitorClosed);
        }
        let ghost before = *self;
        let ghost ids = provider_ids(self.providers@);
        let mut observations: Vec<DeviceObservation> = Vec::new();
        let mut new_warnings: Vec<String> = Vec::new();
        let ghost mut replies: Seq<Result<Vec<DeviceObservation>, GpuError>> = Seq::empty();
        let count: usize = self.providers.len();
        let mut i: usize = 0;
        assert(texts(new_warnings@) == Seq::<Seq<char>>::empty());
        while i < count
            invariant
                i <= count,
                count == before.providers@.len(),
                self.providers@.len() == count,
                self.devices == before.devices,
                self.warnings == before.warnings,
                self.merge_diagnostics == before.merge_diagnostics,
                self.closed == before.closed,
                ids == provider_ids(before.providers@),
                forall|k: int|
                    i <= k < count ==> #[trigger] self.providers@[k] == before.providers@[k],
                forall|k: int|
                    0 <= k < i ==> goes_on(before.providers@[k], #[trigger] self.providers@[k]),
                replies.len() == i,
                forall|k: int|
                    0 <= k < i ==> before.providers@[k].may_enumerate(#[trigger] replies[k]),
                observations@ == enumerated(replies),
                texts(new_warnings@) == inventory_warnings(ids, replies),
            decreases count - i,
        {
            let id = self.providers[i].provider_id();
            let reply = self.providers[i].enumerate();
            let ghost earlier = replies;
            proof {
                assert(id@ == ids[i as int]);
                replies = replies.push(reply);
                assert(replies.drop_last() == earlier);
            }
            match reply {
                Ok(mut list) => {
                    observations.append(&mut list);
                },
                Err(error) => {
                    let ghost held = texts(new_warnings@);
                    let text = warning_text(id, " inventory failed: ", &error);
                    new_warnings.push(text);
                    assert(texts(new_warnings@) == held.push(text@));
                },
            }
            i = i + 1;
        }
        proof {
            lemma_go_on(before.providers@, self.providers@);
        }
        record_warnings(&mut self.warnings, &new_warnings);
        let mut devices = correlate(observations);
        let ghost base = gpu_models(devices@);
        let ghost mut offers: Seq<Seq<Offer>> = Seq::empty();
        let mut d: usize = 0;
        while d < devices.len()
            invariant
                d <= devices.len(),
                devices@.len() == base.len(),
                self.providers@.len() == count,
                forall|k: int| d <= k < devices@.len() ==> (#[trigger] devices@[k])@ == base[k],
                forall|k: int| 0 <= k < devices@.len() ==> (#[trigger] devices@[k]).consistent(),
                offers.len() == d,
                forall|k: int| 0 <= k < d ==> (#[trigger] offers[k]).len() == count,
                forall|k: int, q: int|
                    0 <= k < d && 0 <= q < count ==> may_be_offered(
                        &self.providers@[q],
                        base[k],
                        offers[k].take(q),
                        #[trigger] offers[k][q],
                    ),
                forall|k: int|
                    0 <= k < d ==> (#[trigger] devices@[k])@ == with_offers(base[k], offers[k]),
            decreases devices.len() - d,
        {
            let ghost mut mine: Seq<Offer> = Seq::empty();
            let ghost held = devices@;
            let mut p: usize = 0;
            while p < count
                invariant
                    p <= count,
                    d < devices.len(),
                    devices@.len() == base.len(),
                    self.providers@.len() == count,
                    mine.len() == p,
                    devices@[d as int]@ == with_offers(base[d as int], mine),
                    held[d as int].consistent(),
                    held[d as int]@ == base[d as int],
                    devices@[d as int] == (CanonicalGpu {
                        capability_set: devices@[d as int].capability_set,
                        ..held[d as int]
                    }),
                    forall|q: int|
                        0 <= q < p ==> may_be_offered(
                            &self.providers@[q],
                            base[d as int],
                            mine.take(q),
                            #[trigger] mine[q],
                        ),
                    forall|k: int|
                        0 <= k < devices@.len() && k != d ==> #[trigger] devices@[k] == held[k],
                    devices@.len() == held.len(),
                decreases count - p,
            {
                let offered = self.providers[p].capabilities(&devices[d]);
                let ghost earlier = mine;
                let ghost gpu = devices@[d as int];
                devices[d].capability_set.extend(&offered);
                proof {
                    let offer = Offer {
                        metrics: offered.metric_set(),
                        extensions: offered.vendor_extensions@,
                    };
                    mine = mine.push(offer);
                    assert(mine.drop_last() == earlier);
                    assert(mine.take(p as int) == earlier);
                    assert(self.providers@[p as int].may_offer(&gpu, offered));
                    assert(may_be_offered(
                        &self.providers@[p as int],
                        base[d as int],
                        earlier,
                        offer,
                    ));
                    assert forall|q: int| 0 <= q <= p implies may_be_offered(
                        &self.providers@[q],
                        base[d as int],
                        mine.take(q),
                        #[trigger] mine[q],
                    ) by {
                        if q < p {
                            assert(mine.take(q) == earlier.take(q));
                            assert(mine[q] == earlier[q]);
                        }
                    }
                    assert(devices@[d as int]@ == with_offers(base[d as int], mine));
                }
                p = p + 1;
            }
            let public = devices[d].capability_set.to_public();
            devices[d].capabilities = public;
            proof {
                offers = offers.push(mine);
                assert(devices@[d as int]@ == with_offers(base[d as int], mine));
                assert(devices@[d as int].consistent());
            }
            d = d + 1;
        }
        self.devices = devices;
        proof {
            assert(gpu_models(self.device_list()) == all_with_offers(base, offers));
            assert(self.is_refreshed(&before, replies, offers));
        }
        Ok(())
    }

    /// The replies are answers of the providers to a question for a sample of the device.
    pub open spec fn may_reply(
        &self,
        gpu: &CanonicalGpu,
        request: &SampleRequest,
        replies: Seq<ProviderReply>,
    ) -> bool {
        &&& replies.len() == self.provider_list().len()
        &&& forall|i: int|
            0 <= i < replies.len() ==> {
                let provider = self.provider_list()[i];
                &&& (#[trigger] replies[i]).id@ == provider.id()
                &&& provider.may_describe(replies[i].metadata)
                &&& provider.may_offer(gpu, replies[i].capabilities)
                &&& provider.may_sample(gpu, request, replies[i].reply)
            }
    }

    /// A sample was made of the replies, and its diagnostics and warnings are kept.
    pub open spec fn has_sampled(
        &self,
        before: &Self,
        gpu: &CanonicalGpu,
        request: &SampleRequest,
        replies: Seq<ProviderReply>,
        assembly: Assembly,
    ) -> bool {
        &&& before.may_reply(gpu, request, replies)
        &&& assembly.is_made_of(gpu, *request, replies, assembly.snapshot.sampled_at)
        &&& self.device_list() == before.device_list()
        &&& self.warning_list() == noted(before.warning_list(), texts(assembly.warnings@))
        &&& self.selections() == before.selections().insert(
            gpu.identity.id@,
            note_models(assembly.diagnostics@),
        )
    }

    /// Asks every provider for a sample of the device.
    fn gather_replies(&mut self, at: usize, request: &SampleRequest) -> (replies: Vec<ProviderReply>)
        requires
            at < old(self).device_list().len(),
        ensures
            old(self).may_reply(&old(self).device_list()[at as int], request, replies@),
            final(self).same_but_providers(old(self)),
            go_on(old(self).provider_list(), final(self).provider_list()),
    {
        let ghost before = *self;
        let mut replies: Vec<ProviderReply> = Vec::new();
        let count: usize = self.providers.len();
        let mut i: usize = 0;
        while i < count
            invariant
                i <= count,
                count == before.providers@.len(),
                self.providers@.len() == count,
                at < before.devices@.len(),
                self.devices == before.devices,
                self.warnings == before.warnings,
                self.merge_diagnostics == before.merge_diagnostics,
                self.closed == before.closed,
                forall|k: int|
                    i <= k < count ==> #[trigger] self.providers@[k] == before.providers@[k],
                forall|k: int|
                    0 <= k < i ==> goes_on(before.providers@[k], #[trigger] self.providers@[k]),
                replies.len() == i,
                forall|k: int|
                    0 <= k < i ==> {
                        let provider = before.providers@[k];
                        &&& (#[trigger] replies@[k]).id@ == provider.id()
                        &&& provider.may_describe(replies@[k].metadata)
                        &&& provider.may_offer(
                            &before.devices@[at as int],
                            replies@[k].capabilities,
                        )
                        &&& provider.may_sample(
                            &before.devices@[at as int],
                            request,
                            replies@[k].reply,
                        )
                    },
            decreases count - i,
        {
            let id = owned(self.providers[i].provider_id());
            let metadata = self.providers[i].metadata();
            let capabilities = self.providers[i].capabilities(&self.devices[at]);
            let reply = self.providers[i].sample(&self.devices[at], request);
            replies.push(ProviderReply { id, metadata, capabilities, reply });
            i = i + 1;
        }
        proof {
            lemma_go_on(before.providers@, self.providers@);
        }
        replies
    }

    /// One sample of a device.
    pub fn sample_once(&mut self, device_id: &str, request: &SampleRequest) -> (result: Result<
        GpuSnapshot,
        GpuError,
    >)
        ensures
            final(self).has_gone_on(old(self)),
            match result {
                Err(error) => *final(self) == *old(self) && error@ == if old(self).shut() {
                    ErrorModel::MonitorClosed
                } else {
                    ErrorModel::DeviceNotFound(device_id@)
                } && (old(self).shut() || device_position(old(self).device_list(), device_id@)
                    == old(self).device_list().len()),
                Ok(snapshot) => {
                    let at = device_position(old(self).device_list(), device_id@);
                    &&& !old(self).shut()
                    &&& at < old(self).device_list().len()
                    &&& exists|replies: Seq<ProviderReply>, assembly: Assembly|
                        assembly.snapshot == snapshot && #[trigger] final(self).has_sampled(
                            old(self),
                            &old(self).device_list()[at],
                            request,
                            replies,
                            assembly,
                        )
                },
            },
    {
        if self.closed {
            return Err(GpuError::MonitorClosed);
        }
        let at: usize = find_device(&self.devices, device_id);
        if at >= self.devices.len() {
            return Err(GpuError::DeviceNotFound(owned(device_id)));
        }
        let ghost before = *self;
        let replies = self.gather_replies(at, request);
        let ghost given = replies@;
        let sampled_at = now_millis();
        let assembly = assemble_sample(&self.devices[at], request, replies, sampled_at);
        let ghost whole = assembly;
        let Assembly { snapshot, diagnostics, warnings } = assembly;
        record_warnings(&mut self.warnings, &warnings);
        let ghost earlier = self.merge_diagnostics@;
        self.merge_diagnostics.insert(self.devices[at].identity.id.clone(), diagnostics);
        proof {
            assert(self.selections() == before.selections().insert(
                self.devices@[at as int].identity.id@,
                note_models(diagnostics@),
            ));
            assert(self.has_sampled(
                &before,
                &before.devices@[at as int],
                request,
                given,
                whole,
            ));
        }
        Ok(snapshot)
    }

    /// The vendor data of a device: its own, and what the providers add.
    pub fn vendor_info(&mut self, device_id: &str) -> (result: Result<Json, GpuError>)
        ensures
            final(self).has_gone_on(old(self)),
            match result {
                Err(error) => *final(self) == *old(self) && error@ == if old(self).shut() {
                    ErrorModel::MonitorClosed
                } else {
                    ErrorModel::DeviceNotFound(device_id@)
                } && (old(self).shut() || device_position(old(self).device_list(), device_id@)
                    == old(self).device_list().len()),
                Ok(value) => {
                    let at = device_position(old(self).device_list(), device_id@);
                    &&& !old(self).shut()
                    &&& at < old(self).device_list().len()
                    &&& exists|replies: Seq<Result<Json, GpuError>>| #[trigger]
                        final(self).has_informed(
                            old(self),
                            &old(self).device_list()[at],
                            replies,
                            value@,
                        )
                },
            },
    {
        if self.closed {
            return Err(GpuError::MonitorClosed);
        }
        let at: usize = find_device(&self.devices, device_id);
        if at >= self.devices.len() {
            return Err(GpuError::DeviceNotFound(owned(device_id)));
        }
        let ghost before = *self;
        let ghost ids = provider_ids(self.providers@);
        let mut info = copy_json_map(&self.devices[at].vendor_info);
        let ghost base = json_models(info@);
        let mut new_warnings: Vec<String> = Vec::new();
        let ghost mut replies: Seq<Result<Json, GpuError>> = Seq::empty();
        let count: usize = self.providers.len();
        let mut i: usize = 0;
        assert(texts(new_warnings@) == Seq::<Seq<char>>::empty());
        while i < count
            invariant
                i <= count,
                count == before.providers@.len(),
                self.providers@.len() == count,
                at < before.devices@.len(),
                self.devices == before.devices,
                self.warnings == before.warnings,
                self.merge_diagnostics == before.merge_diagnostics,
                self.closed == before.closed,
                ids == provider_ids(before.providers@),
                forall|k: int|
                    i <= k < count ==> #[trigger] self.providers@[k] == before.providers@[k],
                forall|k: int|
                    0 <= k < i ==> goes_on(before.providers@[k], #[trigger] self.providers@[k]),
                replies.len() == i,
                forall|k: int|
                    0 <= k < i ==> before.providers@[k].may_inform(
                        &before.devices@[at as int],
                        #[trigger] replies[k],
                    ),
                json_models(info@) == with_vendor_replies(base, ids, replies),
                texts(new_warnings@) == vendor_warnings(ids, replies),
            decreases count - i,
        {
            let id = self.providers[i].provider_id();
            let reply = self.providers[i].vendor_info(&self.devices[at]);
            let ghost earlier = replies;
            proof {
                assert(id@ == ids[i as int]);
                replies = replies.push(reply);
                assert(replies.drop_last() == earlier);
            }
            add_vendor_reply(&mut info, id, &reply);
            if let Err(error) = &reply {
                let ghost held = texts(new_warnings@);
                let text = warning_text(id, " vendor info failed: ", error);
                new_warnings.push(text);
                assert(texts(new_warnings@) == held.push(text@));
            }
            i = i + 1;
        }
        record_warnings(&mut self.warnings, &new_warnings);
        let value = object_of(&info);
        proof {
            lemma_go_on(before.providers@, self.providers@);
            assert(self.has_informed(&before, &before.devices@[at as int], replies, value@));
        }
        Ok(value)
    }

    /// The vendor data was put together from the providers' answers, and failures are noted.
    pub open spec fn has_informed(
        &self,
        before: &Self,
        gpu: &CanonicalGpu,
        replies: Seq<Result<Json, GpuError>>,
        value: JsonModel,
    ) -> bool {
        &&& replies.len() == before.provider_list().len()
        &&& forall|i: int|
            0 <= i < replies.len() ==> before.provider_list()[i].may_inform(
                gpu,
                #[trigger] replies[i],
            )
        &&& is_object_of(
            value,
            with_vendor_replies(
                json_models(gpu.vendor_info@),
                provider_ids(before.provider_list()),
                replies,
            ),
        )
        &&& self.device_list() == before.device_list()
        &&& self.selections() == before.selections()
        &&& self.warning_list() == noted(
            before.warning_list(),
            vendor_warnings(provider_ids(before.provider_list()), replies),
        )
    }

    /// The monitor was closed. Every provider was told to stop once, and has let go of what it
    /// held; a monitor that had been closed before is as it was.
    pub open spec fn has_closed(&self, before: &Self) -> bool {
        &&& self.shut()
        &&& before.shut() ==> *self == *before
        &&& self.device_list() == before.device_list()
        &&& self.warning_list() == before.warning_list()
        &&& self.selections() == before.selections()
        &&& provider_ids(self.provider_list()) == provider_ids(before.provider_list())
        &&& !before.shut() ==> forall|i: int|
            0 <= i < self.provider_list().len() ==> {
                let provider = #[trigger] self.provider_list()[i];
                &&& provider.is_stopped()
                &&& provider.stops() == one_more(before.provider_list()[i].stops())
            }
    }

    /// Closes the monitor and stops every provider; a closed monitor stays as it is.
    pub fn close(&mut self)
        ensures
            final(self).has_closed(old(self)),
    {
        if self.closed {
            return ;
        }
        let ghost before = *self;
        self.closed = true;
        let count: usize = self.providers.len();
        let mut i: usize = 0;
        while i < count
            invariant
                i <= count,
                count == before.providers@.len(),
                self.providers@.len() == count,
                self.devices == before.devices,
                self.warnings == before.warnings,
                self.merge_diagnostics == before.merge_diagnostics,
                self.closed,
                forall|k: int|
                    i <= k < count ==> #[trigger] self.providers@[k] == before.providers@[k],
                forall|k: int|
                    0 <= k < i ==> {
                        let provider = #[trigger] self.providers@[k];
                        &&& provider.is_stopped()
                        &&& provider.id() == before.providers@[k].id()
                        &&& provider.stops() == one_more(before.providers@[k].stops())
                    },
            decreases count - i,
        {
            self.providers[i].shutdown();
            i = i + 1;
        }
        proof {
            let ids = provider_ids(self.providers@);
            assert forall|k: int| 0 <= k < count implies ids[k] == provider_ids(
                before.providers@,
            )[k] by {
                assert(self.providers@[k].id() == before.providers@[k].id());
            }
            assert(ids =~= provider_ids(before.providers@));
        }
    }
}

/// What a request for a sample has led to.
pub enum SampleStep {
    Done(GpuSnapshot),
    /// Some metric needs a second sample, to be taken when the window is over.
    Repeat { window_ms: u64 },
}

/// The longest window that a sample may ask for.
pub const MAX_WINDOW_MS: u64 = 60_000;

/// A device that a provider sees: it has a name for it, or it offers metrics for it.
pub open spec fn may_match<P: Provider>(provider: &P, device: &CanonicalGpu, matched: bool) -> bool {
    if device.provider_device_ids@.contains_key(provider.id()) {
        matched
    } else {
        exists|offer: CapabilitySet| #[trigger]
            provider.may_offer(device, offer) && matched == (offer.metric_set()
                != Set::<MetricKey>::empty())
    }
}

/// How many of the flags are set.
pub open spec fn count_set(flags: Seq<bool>) -> nat
    decreases flags.len(),
{
    if flags.len() == 0 {
        0
    } else {
        count_set(flags.drop_last()) + if flags.last() {
            1nat
        } else {
            0nat
        }
    }
}

impl<P: Provider> GpuMonitor<P> {
    /// A monitor that has not looked at its providers yet.
    pub open spec fn is_fresh(&self, providers: Seq<P>) -> bool {
        &&& self.provider_list() == providers
        &&& self.device_list().len() == 0
        &&& self.warning_list().len() == 0
        &&& self.selections() == Map::<Seq<char>, Seq<NoteModel>>::empty()
        &&& !self.shut()
    }

    /// The state of the first provider with the given name.
    fn state_of(&self, name: &str) -> (diagnostic: Option<ProviderDiagnostic>)
        ensures
            may_state(self.provider_list(), name@, diagnostic),
    {
        let mut i: usize = 0;
        while i < self.providers.len()
            invariant
                i <= self.providers.len(),
                forall|k: int| 0 <= k < i ==> (#[trigger] self.providers@[k]).id() != name@,
            decreases self.providers.len() - i,
        {
            if same_text(self.providers[i].provider_id(), name) {
                let state = self.providers[i].diagnostic();
                assert(self.providers@[i as int].may_report(state));
                return Some(state);
            }
            i = i + 1;
        }
        None
    }

    /// The monitor is open, and has looked at the given providers once.
    pub open spec fn has_opened(&self, providers: Seq<P>) -> bool {
        &&& !self.shut()
        &&& self.selections() == Map::<Seq<char>, Seq<NoteModel>>::empty()
        &&& go_on(providers, self.provider_list())
        &&& exists|
            start: Self,
            replies: Seq<Result<Vec<DeviceObservation>, GpuError>>,
            offers: Seq<Seq<Offer>>,
        | #[trigger]
            self.is_refreshed(&start, replies, offers) && start.is_fresh(providers)
    }

    /// Opens a monitor over the given providers. Fails where a required provider is unknown or
    /// not loaded; the first such one decides.
    pub fn with_providers_and_options(providers: Vec<P>, options: &MonitorOptions) -> (result:
        Result<Self, GpuError>)
        ensures
            match result {
                Ok(monitor) => monitor.has_opened(providers@) && all_met(
                    monitor.provider_list(),
                    options.required_providers@,
                    options.required_providers@.len() as int,
                ),
                Err(error) => exists|
                    monitor: Self,
                    k: int,
                    state: Option<ProviderDiagnostic>,
                |
                    {
                        &&& 0 <= k < options.required_providers@.len()
                        &&& monitor.has_opened(providers@)
                        &&& #[trigger] all_met(
                            monitor.provider_list(),
                            options.required_providers@,
                            k,
                        )
                        &&& #[trigger] may_state(
                            monitor.provider_list(),
                            options.required_providers@[k]@,
                            state,
                        )
                        &&& required_verdict(options.required_providers@[k]@, state) == Some(
                            error@,
                        )
                    },
            },
    {
        let mut monitor = GpuMonitor {
            providers,
            devices: Vec::new(),
            warnings: Vec::new(),
            merge_diagnostics: SortedMap::new(),
            closed: false,
        };
        let ghost start = monitor;
        assert(start.selections() == Map::<Seq<char>, Seq<NoteModel>>::empty());
        assert(start.is_fresh(providers@));
        match monitor.refresh_devices() {
            Ok(_) => {},
            Err(error) => {
                assert(false);
                return Err(error);
            },
        }
        assert(monitor.has_opened(providers@));
        let required = &options.required_providers;
        let mut k: usize = 0;
        while k < required.len()
            invariant
                k <= required.len(),
                *required == options.required_providers,
                monitor.has_opened(providers@),
                all_met(monitor.provider_list(), required@, k as int),
            decreases required.len() - k,
        {
            let name = required[k].as_str();
            let state = monitor.state_of(name);
            assert(may_state(monitor.provider_list(), required@[k as int]@, state));
            match judge_required(name, state) {
                Ok(_) => {},
                Err(error) => return Err(error),
            }
            k = k + 1;
        }
        Ok(monitor)
    }

    /// Opens a monitor over the given providers, none of them required.
    pub fn with_providers(providers: Vec<P>) -> (result: Result<Self, GpuError>)
        ensures
            result is Ok,
            result->Ok_0.has_opened(providers@),
    {
        GpuMonitor::with_providers_and_options(providers, &MonitorOptions::default())
    }

    /// Looks at the providers anew and gives the devices.
    pub fn refresh(&mut self) -> (result: Result<&Vec<CanonicalGpu>, GpuError>)
        ensures
            final(self).has_gone_on(old(self)),
            match result {
                Err(error) => old(self).shut() && error@ == ErrorModel::MonitorClosed
                    && *final(self) == *old(self),
                Ok(devices) => {
                    &&& !old(self).shut()
                    &&& devices@ == final(self).device_list()
                    &&& final(self).selections() == old(self).selections()
                    &&& forall|d: int|
                        0 <= d < devices@.len() ==> (#[trigger] devices@[d]).consistent()
                    &&& exists|
                        replies: Seq<Result<Vec<DeviceObservation>, GpuError>>,
                        offers: Seq<Seq<Offer>>,
                    | #[trigger]
                        final(self).is_refreshed(old(self), replies, offers)
                },
            },
    {
        match self.refresh_devices() {
            Ok(_) => Ok(&self.devices),
            Err(error) => Err(error),
        }
    }

    /// A sample of a device, or the news that a second one is needed when the window is over.
    pub fn sample(&mut self, device_id: &str, request: &SampleRequest) -> (result: Result<
        SampleStep,
        GpuError,
    >)
        ensures
            final(self).has_gone_on(old(self)),
            request.window_ms > 60_000 ==> result is Err,
            request.window_ms <= 60_000 && result is Err ==> !(result->Err_0@ is InvalidArgument),
            match result {
                Err(error) => {
                    &&& *final(self) == *old(self)
                    &&& error@ == if old(self).shut() {
                        ErrorModel::MonitorClosed
                    } else if request.window_ms > MAX_WINDOW_MS {
                        ErrorModel::InvalidArgument("windowMs must be between 0 and 60000"@)
                    } else {
                        ErrorModel::DeviceNotFound(device_id@)
                    }
                    &&& old(self).shut() || request.window_ms > MAX_WINDOW_MS || device_position(
                        old(self).device_list(),
                        device_id@,
                    ) == old(self).device_list().len()
                },
                Ok(step) => {
                    let at = device_position(old(self).device_list(), device_id@);
                    &&& !old(self).shut()
                    &&& request.window_ms <= MAX_WINDOW_MS
                    &&& at < old(self).device_list().len()
                    &&& exists|replies: Seq<ProviderReply>, assembly: Assembly|
                        (match step {
                            SampleStep::Done(snapshot) => assembly.snapshot == snapshot && (
                            request.window_ms == 0 || !awaits_second_sample(snapshot)),
                            SampleStep::Repeat { window_ms } => window_ms == request.window_ms
                                && window_ms > 0 && awaits_second_sample(assembly.snapshot),
                        }) && #[trigger] final(self).has_sampled(
                            old(self),
                            &old(self).device_list()[at],
                            request,
                            replies,
                            assembly,
                        )
                },
            },
    {
        if self.closed {
            return Err(GpuError::MonitorClosed);
        }
        if request.window_ms > MAX_WINDOW_MS {
            return Err(
                GpuError::InvalidArgument(owned("windowMs must be between 0 and 60000")),
            );
        }
        match self.sample_once(device_id, request) {
            Err(error) => Err(error),
            Ok(first) => if request.window_ms == 0 || !snapshot_has_first_sample(&first) {
                Ok(SampleStep::Done(first))
            } else {
                Ok(SampleStep::Repeat { window_ms: request.window_ms })
            },
        }
    }

    /// Whether the samples of a device can be watched.
    pub fn check_watchable(&self, device_id: &str) -> (result: Result<(), GpuError>)
        ensures
            match result {
                Ok(_) => !self.shut() && device_position(self.device_list(), device_id@)
                    < self.device_list().len(),
                Err(error) => error@ == if self.shut() {
                    ErrorModel::MonitorClosed
                } else {
                    ErrorModel::DeviceNotFound(device_id@)
                } && (self.shut() || device_position(self.device_list(), device_id@)
                    == self.device_list().len()),
            },
    {
        match self.ensure_open() {
            Err(error) => Err(error),
            Ok(_) => if find_device(&self.devices, device_id) < self.devices.len() {
                Ok(())
            } else {
                Err(GpuError::DeviceNotFound(owned(device_id)))
            },
        }
    }

    /// How many devices the `i`-th provider sees.
    fn count_matches(&self, i: usize) -> (count: usize)
        requires
            i < self.provider_list().len(),
        ensures
            exists|flags: Seq<bool>|
                count == #[trigger] count_set(flags) && flags.len() == self.device_list().len()
                    && forall|d: int|
                    0 <= d < flags.len() ==> may_match(
                        &self.provider_list()[i as int],
                        &self.device_list()[d],
                        #[trigger] flags[d],
                    ),
    {
        let id = owned(self.providers[i].provider_id());
        let ghost mut flags: Seq<bool> = Seq::empty();
        let mut count: usize = 0;
        let mut d: usize = 0;
        while d < self.devices.len()
            invariant
                d <= self.devices.len(),
                count <= d,
                i < self.providers.len(),
                id@ == self.providers@[i as int].id(),
                flags.len() == d,
                count == count_set(flags),
                forall|k: int|
                    0 <= k < flags.len() ==> may_match(
                        &self.providers@[i as int],
                        &self.devices@[k],
                        #[trigger] flags[k],
                    ),
            decreases self.devices.len() - d,
        {
            let matched = if self.devices[d].provider_device_ids.contains_key(&id) {
                true
            } else {
                let offer = self.providers[i].capabilities(&self.devices[d]);
                assert(self.providers@[i as int].may_offer(&self.devices@[d as int], offer));
                !offer.is_empty()
            };
            let ghost earlier = flags;
            proof {
                flags = flags.push(matched);
                assert(flags.drop_last() == earlier);
            }
            if matched {
                count = count + 1;
            }
            d = d + 1;
        }
        count
    }

    /// What the monitor knows of its providers, its warnings, and how it chose between metrics.
    pub fn diagnostics(&self, platform: &str, arch: &str) -> (result: Diagnostics)
        ensures
            result.platform@ == platform@,
            result.arch@ == arch@,
            texts(result.warnings@) == self.warning_list(),
            result.providers@.len() == self.provider_list().len(),
            forall|i: int|
                0 <= i < result.providers@.len() ==> self.may_diagnose(
                    i,
                    #[trigger] result.providers@[i],
                ),
            lists_selections(result.metric_selections@, self.selections()),
    {
        let mut providers: Vec<ProviderDiagnostic> = Vec::new();
        let mut i: usize = 0;
        while i < self.providers.len()
            invariant
                i <= self.providers.len(),
                providers.len() == i,
                forall|k: int| 0 <= k < i ==> self.may_diagnose(k, #[trigger] providers@[k]),
            decreases self.providers.len() - i,
        {
            let mut diagnostic = self.providers[i].diagnostic();
            let ghost said = diagnostic;
            diagnostic.devices_matched = self.count_matches(i);
            assert(self.providers@[i as int].may_report(said));
            providers.push(diagnostic);
            i = i + 1;
        }
        let mut warnings: Vec<String> = Vec::new();
        let mut i: usize = 0;
        while i < self.warnings.len()
            invariant
                i <= self.warnings.len(),
                texts(warnings@) == texts(self.warnings@).take(i as int),
            decreases self.warnings.len() - i,
        {
            let ghost held = texts(warnings@);
            warnings.push(self.warnings[i].clone());
            i = i + 1;
            assert(texts(warnings@) == held.push(texts(self.warnings@)[i - 1]));
        }
        assert(texts(warnings@) == texts(self.warnings@));
        let mut metric_selections: Vec<DeviceMergeDiagnostics> = Vec::new();
        let n: usize = self.merge_diagnostics.len();
        let ghost keys = self.merge_diagnostics.keys();
        let mut i: usize = 0;
        while i < n
            invariant
                i <= n == keys.len(),
                keys == self.merge_diagnostics.keys(),
                metric_selections.len() == i,
                forall|k: int|
                    0 <= k < i ==> {
                        &&& (#[trigger] metric_selections@[k]).device_id@ == keys[k]
                        &&& self.merge_diagnostics@.contains_key(keys[k])
                        &&& note_models(metric_selections@[k].metrics@) == note_models(
                            self.merge_diagnostics@[keys[k]]@,
                        )
                    },
            decreases n - i,
        {
            let device_id = self.merge_diagnostics.key_at(i).clone();
            let metrics = copy_notes(self.merge_diagnostics.value_at(i));
            metric_selections.push(DeviceMergeDiagnostics { device_id, metrics });
            i = i + 1;
        }
        proof {
            assert(self.selections().dom() == self.merge_diagnostics@.dom());
            assert(selection_ids(metric_selections@) == keys);
        }
        Diagnostics {
            platform: owned(platform),
            arch: owned(arch),
            providers,
            warnings,
            metric_selections,
        }
    }

    /// The provider's own account of its state, with the number of devices that it sees.
    pub open spec fn may_diagnose(&self, i: int, diagnostic: ProviderDiagnostic) -> bool {
        exists|said: ProviderDiagnostic, flags: Seq<bool>|
            {
                &&& #[trigger] self.provider_list()[i].may_report(said)
                &&& diagnostic == ProviderDiagnostic {
                    devices_matched: diagnostic.devices_matched,
                    ..said
                }
                &&& diagnostic.devices_matched == #[trigger] count_set(flags)
                &&& flags.len() == self.device_list().len()
                &&& forall|d: int|
                    0 <= d < flags.len() ==> may_match(
                        &self.provider_list()[i],
                        &self.device_list()[d],
                        #[trigger] flags[d],
                    )
            }
    }
}

/// The names of the devices in the diagnostics of merges.
pub open spec fn selection_ids(selections: Seq<DeviceMergeDiagnostics>) -> Seq<Seq<char>> {
    selections.map_values(|selection: DeviceMergeDiagnostics| selection.device_id@)
}

/// The diagnostics of merges, in ascending order of the devices' names.
pub open spec fn lists_selections(
    selections: Seq<DeviceMergeDiagnostics>,
    map: Map<Seq<char>, Seq<NoteModel>>,
) -> bool {
    &&& lists_keys::<String>(selection_ids(selections), map.dom())
    &&& forall|k: int|
        0 <= k < selections.len() ==> note_models((#[trigger] selections[k]).metrics@)
            == map[selections[k].device_id@]
}

/// How a wait for the end of a window goes on.
#[derive(Clone, Copy, Debug, PartialEq, Eq, Structural)]
pub enum Pause {
    /// The window is over.
    Over,
    /// The monitor was closed meanwhile.
    Closed,
    /// Sleep for so many nanoseconds, and ask again.
    Sleep(u64),
}

/// The longest sleep within a window, in nanoseconds, so that a close is noticed.
pub const MAX_PAUSE_NS: u64 = 50_000_000;

/// How a wait that ends at `deadline_ns` goes on at `now_ns`.
pub fn next_pause(now_ns: u64, deadline_ns: u64, closed: bool) -> (pause: Pause)
    ensures
        pause == if now_ns >= deadline_ns {
            Pause::Over
        } else if closed {
            Pause::Closed
        } else if deadline_ns - now_ns <= MAX_PAUSE_NS {
            Pause::Sleep((deadline_ns - now_ns) as u64)
        } else {
            Pause::Sleep(MAX_PAUSE_NS)
        },
        pause matches Pause::Sleep(time) ==> 0 < time <= 50_000_000 && now_ns + time <= deadline_ns,
{
    if now_ns >= deadline_ns {
        Pause::Over
    } else if closed {
        Pause::Closed
    } else if deadline_ns - now_ns <= MAX_PAUSE_NS {
        Pause::Sleep(deadline_ns - now_ns)
    } else {
        Pause::Sleep(MAX_PAUSE_NS)
    }
}

} // verus!
