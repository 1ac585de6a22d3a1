//! The providers of devices and measurements.
pub mod definition_laws;
pub mod host;
pub mod linux;
pub mod macos;
pub mod mock;
pub mod nvml;
pub mod nvml_identity_laws;
pub mod nvml_info;
pub mod nvml_inventory;
pub mod nvml_laws;
pub mod nvml_queries;
pub mod nvml_value_laws;
pub mod optional_runtime;
pub mod plan_laws;
pub mod rank_laws;
pub mod windows;

use crate::model::UnavailableReason;
use crate::monitor::MonitorOptions;
use vstd::prelude::*;

verus! {

/// A provider to be made.
#[derive(Clone, Copy, Debug)]
pub enum ProviderPlan {
    LinuxSysfs { include_software_adapters: bool },
    Nvml,
    Dxgi { include_software_adapters: bool },
    Pdh,
    /// A look for a library of the Windows system directory.
    System32Probe { id: &'static str, library: &'static str, detected: &'static str },
    Metal,
    AppleSmc,
    AppleIoReport,
    /// A provider that says why it is not there.
    Unavailable { id: &'static str, reason: UnavailableReason, message: &'static str },
}

/// The processor of a Mac.
#[derive(Clone, Copy, Debug, PartialEq, Eq, Structural)]
pub enum MacProcessor {
    AppleSilicon,
    Intel,
    Other,
}

/// The system that providers are made for.
#[derive(Clone, Copy, Debug, PartialEq, Eq, Structural)]
pub enum Platform {
    Linux,
    MacOs(MacProcessor),
    Windows,
    Other,
}

/// The providers of a system. NVML comes last, where there can be an NVIDIA driver.
pub open spec fn platform_plans(options: MonitorOptions, platform: Platform) -> Seq<ProviderPlan> {
    match platform {
        Platform::Linux => linux::linux_plans(options).push(ProviderPlan::Nvml),
        Platform::MacOs(processor) => macos::macos_plans(options, processor),
        Platform::Windows => windows::windows_plans(options).push(ProviderPlan::Nvml),
        Platform::Other => Seq::empty(),
    }
}

pub fn default_providers(options: &MonitorOptions, platform: Platform) -> (plans: Vec<ProviderPlan>)
    ensures
        plans@ == platform_plans(*options, platform),
{
    match platform {
        Platform::Linux => {
            let mut plans = linux::providers(options);
            plans.push(ProviderPlan::Nvml);
            plans
        },
        Platform::MacOs(processor) => macos::providers(options, processor),
        Platform::Windows => {
            let mut plans = windows::providers(options);
            plans.push(ProviderPlan::Nvml);
            plans
        },
        Platform::Other => Vec::new(),
    }
}

} // verus!
