//! Devices and sensors as the Linux kernel shows them in sysfs.
pub mod clock_laws;
pub mod file_laws;
pub mod hwmon;
pub mod inventory;
pub mod listing;
pub mod metric;
pub mod parse;
pub mod path;
pub mod path_laws;
pub mod provider;
pub mod provider_laws;
pub mod reading_laws;
pub mod roots;
pub mod source_laws;

pub use provider::LinuxSysfsProvider;
pub use roots::LinuxRoots;

use crate::monitor::MonitorOptions;
use crate::providers::ProviderPlan;
use vstd::prelude::*;

verus! {

/// The providers of Linux.
pub open spec fn linux_plans(options: MonitorOptions) -> Seq<ProviderPlan> {
    seq![
        ProviderPlan::LinuxSysfs { include_software_adapters: options.include_software_adapters },
    ]
}

pub fn providers(options: &MonitorOptions) -> (plans: Vec<ProviderPlan>)
    ensures
        plans@ == linux_plans(*options),
{
    let mut plans: Vec<ProviderPlan> = Vec::new();
    plans.push(
        ProviderPlan::LinuxSysfs { include_software_adapters: options.include_software_adapters },
    );
    assert(plans@ == linux_plans(*options));
    plans
}

} // verus!
