//! Which providers a system has.
use crate::model::UnavailableReason;
use crate::monitor::MonitorOptions;
use crate::providers::{platform_plans, MacProcessor, Platform, ProviderPlan};
use vstd::prelude::*;

verus! {

/// Linux has sysfs and then NVML; software devices are shown as the options say.
pub proof fn law_linux_has_sysfs_and_nvml(options: MonitorOptions)
    ensures
        ({
            let plans = platform_plans(options, Platform::Linux);
            &&& plans.len() == 2
            &&& plans[0] == (ProviderPlan::LinuxSysfs {
                include_software_adapters: options.include_software_adapters,
            })
            &&& plans[1] == ProviderPlan::Nvml
        }),
{
}

/// Windows has DXGI, PDH, the two probes for runtimes, and then NVML.
pub proof fn law_windows_has_dxgi_pdh_and_nvml(options: MonitorOptions)
    ensures
        ({
            let plans = platform_plans(options, Platform::Windows);
            &&& plans.len() == 5
            &&& plans[0] == (ProviderPlan::Dxgi {
                include_software_adapters: options.include_software_adapters,
            })
            &&& plans[1] == ProviderPlan::Pdh
            &&& plans[2] is System32Probe
            &&& plans[2]->System32Probe_id@ == "amd-adlx"@
            &&& plans[2]->library@ == "amdadlx64.dll"@
            &&& plans[3] is System32Probe
            &&& plans[3]->System32Probe_id@ == "level-zero"@
            &&& plans[3]->library@ == "ze_loader.dll"@
            &&& plans[4] == ProviderPlan::Nvml
        }),
{
}

/// macOS has Metal first. The private interfaces are used where the options allow it, the counters
/// on Apple silicon alone; what is not used says so.
pub proof fn law_macos_has_metal_and_what_is_allowed(
    options: MonitorOptions,
    processor: MacProcessor,
)
    ensures
        ({
            let plans = platform_plans(options, Platform::MacOs(processor));
            &&& plans.len() == 4
            &&& plans[0] == ProviderPlan::Metal
            &&& options.enable_apple_private_telemetry ==> plans[1] == ProviderPlan::AppleSmc
            &&& options.enable_apple_private_telemetry && processor == MacProcessor::AppleSilicon
                ==> plans[2] == ProviderPlan::AppleIoReport
            &&& options.enable_apple_private_telemetry && processor != MacProcessor::AppleSilicon
                ==> is_unsupported(plans[2], "apple-ioreport"@)
            &&& !options.enable_apple_private_telemetry ==> is_unsupported(
                plans[1],
                "apple-ioreport"@,
            ) && is_unsupported(plans[2], "apple-smc"@)
            &&& is_unsupported(plans[3], "macos-ioaccelerator"@)
        }),
{
}

/// The provider is there to say that it is not supported.
pub open spec fn is_unsupported(plan: ProviderPlan, id: Seq<char>) -> bool {
    &&& plan is Unavailable
    &&& plan->Unavailable_id@ == id
    &&& plan->reason == UnavailableReason::Unsupported
}

/// Another system has none.
pub proof fn law_other_systems_have_none(options: MonitorOptions)
    ensures
        platform_plans(options, Platform::Other).len() == 0,
{
}

} // verus!
