//! Devices and measurements of macOS.
pub mod counter_laws;
pub mod device_laws;
pub mod ioreport;
pub mod ioreport_laws;
pub mod ioreport_provider;
pub mod metal_inventory;
pub mod smc;
pub mod smc_protocol;

use crate::model::UnavailableReason;
use crate::monitor::MonitorOptions;
use crate::providers::{MacProcessor, ProviderPlan};
use vstd::prelude::*;

verus! {

/// The plan of a provider that is not supported.
pub open spec fn unsupported(id: &'static str, message: &'static str) -> ProviderPlan {
    ProviderPlan::Unavailable { id, reason: UnavailableReason::Unsupported, message }
}

/// The providers that use private interfaces, where that is wanted.
pub open spec fn private_plans(enabled: bool, processor: MacProcessor) -> Seq<ProviderPlan> {
    if enabled {
        seq![
            ProviderPlan::AppleSmc,
            if processor == MacProcessor::AppleSilicon {
                ProviderPlan::AppleIoReport
            } else {
                unsupported(
                    "apple-ioreport",
                    "IOReport GPU telemetry is only enabled for validated Apple Silicon targets",
                )
            },
        ]
    } else {
        seq![
            unsupported(
                "apple-ioreport",
                "private Apple telemetry is disabled; pass enableApplePrivateTelemetry to opt in",
            ),
            unsupported(
                "apple-smc",
                "AppleSMC GPU telemetry is disabled; pass enableApplePrivateTelemetry to opt in",
            ),
        ]
    }
}

/// The providers of macOS. The statistics of IOAccelerator are undocumented and vary between
/// drivers: their provider is only there to say so.
pub open spec fn macos_plans(options: MonitorOptions, processor: MacProcessor) -> Seq<ProviderPlan> {
    seq![ProviderPlan::Metal] + private_plans(options.enable_apple_private_telemetry, processor)
        + seq![
        unsupported(
            "macos-ioaccelerator",
            if processor == MacProcessor::Intel {
                "legacy IOAccelerator telemetry is disabled pending hardware validation"
            } else {
                "legacy IOAccelerator telemetry applies only to Intel-era Macs"
            },
        ),
    ]
}

fn push_unsupported(plans: &mut Vec<ProviderPlan>, id: &'static str, message: &'static str)
    ensures
        final(plans)@ == old(plans)@.push(unsupported(id, message)),
{
    plans.push(
        ProviderPlan::Unavailable { id, reason: UnavailableReason::Unsupported, message },
    );
}

pub fn providers(options: &MonitorOptions, processor: MacProcessor) -> (plans: Vec<ProviderPlan>)
    ensures
        plans@ == macos_plans(*options, processor),
{
    let mut plans: Vec<ProviderPlan> = Vec::new();
    plans.push(ProviderPlan::Metal);
    if options.enable_apple_private_telemetry {
        plans.push(ProviderPlan::AppleSmc);
        if processor == MacProcessor::AppleSilicon {
            plans.push(ProviderPlan::AppleIoReport);
        } else {
            push_unsupported(
                &mut plans,
                "apple-ioreport",
                "IOReport GPU telemetry is only enabled for validated Apple Silicon targets",
            );
        }
    } else {
        push_unsupported(
            &mut plans,
            "apple-ioreport",
            "private Apple telemetry is disabled; pass enableApplePrivateTelemetry to opt in",
        );
        push_unsupported(
            &mut plans,
            "apple-smc",
            "AppleSMC GPU telemetry is disabled; pass enableApplePrivateTelemetry to opt in",
        );
    }
    push_unsupported(
        &mut plans,
        "macos-ioaccelerator",
        if processor == MacProcessor::Intel {
            "legacy IOAccelerator telemetry is disabled pending hardware validation"
        } else {
            "legacy IOAccelerator telemetry applies only to Intel-era Macs"
        },
    );
    assert(plans@ == macos_plans(*options, processor));
    plans
}

} // verus!
