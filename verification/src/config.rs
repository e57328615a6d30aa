//! The run configuration: filename templates, distribution label, ESP
//! mountpoint, how many kernels to keep, and the kernel command line. The
//! engine only reads it; loading and saving the on-disk form belongs to
//! the unverified shell.

use vstd::prelude::*;
use vstd::string::*;

use crate::template::{spec_replace, spec_version_token};

verus! {

/// Mathematical image of a configuration.
pub struct ConfigView {
    pub vmlinux: Seq<char>,
    pub initrd: Seq<char>,
    pub distro: Seq<char>,
    pub esp_mountpoint: Seq<char>,
    pub keep: Option<usize>,
    pub bootarg: Seq<char>,
}

/// Shared, immutable configuration for one run.
pub struct Config {
    /// Template of the kernel image filename, holding `{VERSION}`.
    pub vmlinux: String,
    /// Template of the initrd image filename, holding `{VERSION}`.
    pub initrd: String,
    /// Distribution label shown in entry titles.
    pub distro: String,
    /// Mountpoint of the EFI System Partition.
    pub esp_mountpoint: String,
    /// Install at most this many of the newest kernels on update.
    pub keep: Option<usize>,
    /// Kernel command line written to the entries' options line.
    pub bootarg: String,
}

impl View for Config {
    type V = ConfigView;

    open spec fn view(&self) -> ConfigView {
        ConfigView {
            vmlinux: self.vmlinux@,
            initrd: self.initrd@,
            distro: self.distro@,
            esp_mountpoint: self.esp_mountpoint@,
            keep: self.keep,
            bootarg: self.bootarg@,
        }
    }
}

impl Default for Config {
    /// The stock configuration.
    fn default() -> (r: Config)
        ensures
            r.vmlinux@ == "vmlinuz-{VERSION}"@,
            r.initrd@ == "initramfs-{VERSION}.img"@,
            r.distro@ == "Linux"@,
            r.esp_mountpoint@ == "/efi"@,
            r.keep is None,
            r.bootarg@.len() == 0,
    {
        Config {
            vmlinux: String::from_str("vmlinuz-{VERSION}"),
            initrd: String::from_str("initramfs-{VERSION}.img"),
            distro: String::from_str("Linux"),
            esp_mountpoint: String::from_str("/efi"),
            keep: None,
            bootarg: String::new(),
        }
    }
}

/// The template form of earlier releases, whose token also named the local
/// version part.
pub open spec fn spec_old_token() -> Seq<char> {
    "{VERSION}-{LOCALVERSION}"@
}

/// Rewrites a template of the earlier form to the current one: every
/// `{VERSION}-{LOCALVERSION}` becomes `{VERSION}`.
pub fn migrate_template(t: &str) -> (r: String)
    ensures
        r@ == spec_replace(t@, spec_old_token(), spec_version_token()),
{
    proof {
        reveal_strlit("{VERSION}-{LOCALVERSION}");
        reveal_strlit("{VERSION}");
    }
    crate::template::replace(t, "{VERSION}-{LOCALVERSION}", "{VERSION}")
}

impl Config {
    /// The configuration with both filename templates migrated from the
    /// earlier template form; every other field is kept.
    pub fn migrated(&self) -> (r: Config)
        ensures
            r.vmlinux@ == spec_replace(self.vmlinux@, spec_old_token(), spec_version_token()),
            r.initrd@ == spec_replace(self.initrd@, spec_old_token(), spec_version_token()),
            r.distro@ == self.distro@,
            r.esp_mountpoint@ == self.esp_mountpoint@,
            r.keep == self.keep,
            r.bootarg@ == self.bootarg@,
    {
        Config {
            vmlinux: migrate_template(self.vmlinux.as_str()),
            initrd: migrate_template(self.initrd.as_str()),
            distro: self.distro.clone(),
            esp_mountpoint: self.esp_mountpoint.clone(),
            keep: self.keep,
            bootarg: self.bootarg.clone(),
        }
    }
}

} // verus!
