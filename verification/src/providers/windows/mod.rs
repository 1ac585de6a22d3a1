//! Devices and measurements of Windows.
pub mod adapter_laws;
pub mod device_laws;
pub mod dxgi;
pub mod nvml_loader;
pub mod path_laws;
pub mod pdh;
pub mod pdh_array;
pub mod pdh_laws;
pub mod pdh_query;
pub mod runtime_probe;

use crate::monitor::MonitorOptions;
use crate::providers::ProviderPlan;
use vstd::prelude::*;

verus! {

/// The providers of Windows.
pub open spec fn windows_plans(options: MonitorOptions) -> Seq<ProviderPlan> {
    seq![
        ProviderPlan::Dxgi { include_software_adapters: options.include_software_adapters },
        ProviderPlan::Pdh,
        ProviderPlan::System32Probe {
            id: "amd-adlx",
            library: "amdadlx64.dll",
            detected: "ADLX runtime detected; the SDK-governed telemetry adapter requires separate legal review",
        },
        ProviderPlan::System32Probe {
            id: "level-zero",
            library: "ze_loader.dll",
            detected: "Level Zero loader detected; Sysman telemetry is not available in this build",
        },
    ]
}

pub fn providers(options: &MonitorOptions) -> (plans: Vec<ProviderPlan>)
    ensures
        plans@ == windows_plans(*options),
{
    let mut plans: Vec<ProviderPlan> = Vec::new();
    plans.push(
        ProviderPlan::Dxgi { include_software_adapters: options.include_software_adapters },
    );
    plans.push(ProviderPlan::Pdh);
    plans.push(
        ProviderPlan::System32Probe {
            id: "amd-adlx",
            library: "amdadlx64.dll",
            detected: "ADLX runtime detected; the SDK-governed telemetry adapter requires separate legal review",
        },
    );
    plans.push(
        ProviderPlan::System32Probe {
            id: "level-zero",
            library: "ze_loader.dll",
            detected: "Level Zero loader detected; Sysman telemetry is not available in this build",
        },
    );
    assert(plans@ == windows_plans(*options));
    plans
}

} // verus!
