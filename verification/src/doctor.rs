//! The records of `domain-scan doctor`: where the binary came from and
//! whether an update is available.

use vstd::prelude::*;

verus! {

/// The (empty) input of the doctor command.
#[derive(Debug, Clone, Default, PartialEq, Eq)]
pub struct DoctorInput {}

/// A release asset.
#[derive(Debug, Clone, PartialEq, Eq)]
pub struct DoctorAsset {
    pub name: String,
    pub download_url: String,
    pub size: u64,
}

/// Where the running binary was installed from.
#[derive(Debug, Clone, Copy, PartialEq, Eq, Structural)]
pub enum InstallSource {
    CargoBin,
    LocalBin,
    SystemBin,
    CustomPath,
}

/// What the doctor command reports.
#[derive(Debug, Clone, PartialEq, Eq)]
pub struct DoctorReport {
    pub current_version: String,
    pub executable_path: String,
    pub os: String,
    pub arch: String,
    pub latest_tag: Option<String>,
    pub latest_version: Option<String>,
    pub install_source: InstallSource,
    pub matching_asset: Option<DoctorAsset>,
    pub update_available: Option<bool>,
    pub recommended_install_command: String,
    pub recommended_update_command: String,
}

} // verus!
