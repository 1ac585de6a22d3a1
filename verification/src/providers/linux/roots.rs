//! Where the kernel's file systems are mounted.
use crate::providers::linux::hwmon::{join_path, path_below};
use crate::text::owned;
use vstd::prelude::*;

verus! {

/// The roots of the file systems that are looked at. Injecting them keeps everything below
/// testable without hardware.
#[derive(Debug)]
pub struct LinuxRoots {
    pub sys: String,
    pub proc: String,
    pub dev: String,
}

impl LinuxRoots {
    pub fn new(sys: &str, proc: &str, dev: &str) -> (roots: Self)
        ensures
            roots.sys@ == sys@,
            roots.proc@ == proc@,
            roots.dev@ == dev@,
    {
        LinuxRoots { sys: owned(sys), proc: owned(proc), dev: owned(dev) }
    }

    /// Where a host has them.
    pub fn host() -> (roots: Self)
        ensures
            roots.sys@ == "/sys"@,
            roots.proc@ == "/proc"@,
            roots.dev@ == "/dev"@,
    {
        LinuxRoots::new("/sys", "/proc", "/dev")
    }

    pub fn pci_devices(&self) -> (path: String)
        ensures
            path@ == path_below(self.sys@, "bus/pci/devices"@),
    {
        join_path(self.sys.as_str(), "bus/pci/devices")
    }

    pub fn drm_class(&self) -> (path: String)
        ensures
            path@ == path_below(self.sys@, "class/drm"@),
    {
        join_path(self.sys.as_str(), "class/drm")
    }
}

impl Clone for LinuxRoots {
    fn clone(&self) -> (copy: Self)
        ensures
            copy == *self,
    {
        LinuxRoots { sys: self.sys.clone(), proc: self.proc.clone(), dev: self.dev.clone() }
    }
}

impl Default for LinuxRoots {
    fn default() -> (roots: Self)
        ensures
            roots.sys@ == "/sys"@,
            roots.proc@ == "/proc"@,
            roots.dev@ == "/dev"@,
    {
        LinuxRoots::host()
    }
}

} // verus!
