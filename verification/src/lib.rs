//! GPU discovery, correlation, telemetry merging and monitoring.
pub mod assembly_laws;
pub mod binary64;
pub mod canonical;
pub mod canonical_laws;
pub mod correlation;
pub mod correlation_laws;
pub mod correlation_order;
pub mod error;
pub mod float_arithmetic;
pub mod float_laws;
pub mod float_order;
pub mod identity_laws;
pub mod json;
pub mod json_laws;
pub mod merge;
pub mod merge_laws;
pub mod model;
pub mod model_laws;
pub mod monitor;
pub mod monitor_laws;
pub mod normalize;
pub mod normalize_laws;
pub mod ordered;
pub mod ordered_laws;
pub mod parent_laws;
pub mod priority_laws;
pub mod provider;
pub mod providers;
pub mod sampler;
pub mod schedule_laws;
pub mod slot;
pub mod snapshot;
pub mod snapshot_laws;
pub mod sorted_map;
pub mod text;
pub mod text_laws;
pub mod union_find;
pub mod validity_laws;

pub use error::GpuError;
pub use model::{
    AvailableMetric, CanonicalGpu, CapabilitySet, DeviceId, DeviceMergeDiagnostics,
    DeviceObservation, Diagnostics, GpuCapabilities, GpuIdentity, GpuKind, GpuProcessSnapshot,
    GpuVendor, MacosIdentity, MemoryTopology, MergeCandidateDiagnostic, Metric, MetricKey,
    MetricMergeDiagnostic, MetricObservation, MetricQuality, MetricValue, PartitionIdentity,
    PartitionType, PciIdentity, ProcessUtilization, ProviderDiagnostic, ProviderId, ProviderSample,
    SampleRequest, StaticMemoryInfo, TimestampMs, UnavailableMetric, UnavailableObservation,
    UnavailableReason, UtilizationCapabilities, WindowsIdentity,
};
pub use monitor::{GpuMonitor, MonitorOptions};
pub use provider::{
    InventoryProvider, Provider, ProviderMetadata, ProviderState, TelemetryProvider,
};
