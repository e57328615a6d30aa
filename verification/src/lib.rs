//! Core engine of a boot-manager helper for the Boot Loader Specification:
//! kernel version parsing and ordering, filename template expansion,
//! verified file-copy semantics, per-kernel boot-entry lifecycle, and the
//! reconciliation of installed boot entries against available kernels.
//!
//! All filesystem-facing state is modelled explicitly (see [`fsmodel`]);
//! operations mutate the model and emit a plan of primitive
//! [`plan::Action`]s that an unverified shell performs against the real
//! disk, one call each, in order.

use vstd::prelude::*;

pub mod bootarg;
pub mod cli;
pub mod config;
pub mod copier;
pub mod error;
pub mod fsmodel;
pub mod kernel;
pub mod manager;
pub mod plan;
pub mod template;
pub mod version;

verus! {

/// Relative directory, under the ESP mountpoint, that holds the kernel and
/// initrd images this crate manages.
pub open spec fn spec_rel_dest_path() -> Seq<char> {
    "EFI/systemd-boot-friend/"@
}

/// Executable counterpart of [`spec_rel_dest_path`].
pub fn rel_dest_path() -> (r: &'static str)
    ensures
        r@ == spec_rel_dest_path(),
{
    "EFI/systemd-boot-friend/"
}

} // verus!
