//! The library's error taxonomy: configuration and lookup failures surfaced
//! immediately, and kernel refusals carried with their error number.

use vstd::prelude::*;

verus! {

/// Why a mounting or patching operation failed.
pub enum Error {
    /// The kernel refused a mount, bind or unmount operation.
    Errno(i32),
    /// The table of current mounts could not be read.
    ProcMounts,
    /// Switching the working directory to the partition root failed.
    ChdirFailed(String),
    /// The metadata store could not be listed.
    MetadataDirUnreadable(String),
    /// A directory walk could not list one of its directories.
    ReadDirFailed(String),
    /// A directory walk spent its whole step budget with work left over.
    WalkTruncated,
    /// The partition root overlay could not be constructed.
    RootOverlayFailed(String),
    /// A failed child mount forced the partition root overlay back down.
    ChildMountReverted(String),
    /// The requested module has no entry in the metadata store.
    ModuleNotInMetadata(String),
    /// The requested module has no entry in the content store.
    ModuleNotInContent(String),
    /// The requested module carries the disable marker.
    ModuleDisabled(String),
    /// The requested module carries the skip-mount marker.
    ModuleSkipMount(String),
}

impl Error {
    /// A short description of the failure, for the caller's diagnostics.
    pub fn describe(&self) -> (r: String)
        ensures
            self matches Error::Errno(_) ==> r@ == "kernel refused the mount operation"@,
            self is ProcMounts ==> r@ == "cannot read the table of current mounts"@,
            self matches Error::ChdirFailed(p) ==> r@ == "failed to enter partition root "@
                + p@,
            self matches Error::MetadataDirUnreadable(p) ==> r@
                == "failed to read metadata directory "@ + p@,
            self matches Error::ReadDirFailed(p) ==> r@ == "failed to read directory "@ + p@,
            self is WalkTruncated ==> r@ == "directory walk ran out of steps"@,
            self matches Error::RootOverlayFailed(p) ==> r@
                == "mount overlayfs for root failed: "@ + p@,
            self matches Error::ChildMountReverted(p) ==> r@
                == "failed to mount overlay for child of "@ + p@,
            self matches Error::ModuleNotInMetadata(m) ==> r@
                == "module not found in metadata directory: "@ + m@,
            self matches Error::ModuleNotInContent(m) ==> r@
                == "module not found in content directory: "@ + m@,
            self matches Error::ModuleDisabled(m) ==> r@ == "module is disabled: "@ + m@,
            self matches Error::ModuleSkipMount(m) ==> r@ == "module has skip_mount: "@ + m@,
    {
        match self {
            Error::Errno(_) => String::from_str("kernel refused the mount operation"),
            Error::ProcMounts => String::from_str("cannot read the table of current mounts"),
            Error::ChdirFailed(p) => {
                let mut s = String::from_str("failed to enter partition root ");
                s.append(p.as_str());
                s
            },
            Error::MetadataDirUnreadable(p) => {
                let mut s = String::from_str("failed to read metadata directory ");
                s.append(p.as_str());
                s
            },
            Error::ReadDirFailed(p) => {
                let mut s = String::from_str("failed to read directory ");
                s.append(p.as_str());
                s
            },
            Error::WalkTruncated => String::from_str("directory walk ran out of steps"),
            Error::RootOverlayFailed(p) => {
                let mut s = String::from_str("mount overlayfs for root failed: ");
                s.append(p.as_str());
                s
            },
            Error::ChildMountReverted(p) => {
                let mut s = String::from_str("failed to mount overlay for child of ");
                s.append(p.as_str());
                s
            },
            Error::ModuleNotInMetadata(m) => {
                let mut s = String::from_str("module not found in metadata directory: ");
                s.append(m.as_str());
                s
            },
            Error::ModuleNotInContent(m) => {
                let mut s = String::from_str("module not found in content directory: ");
                s.append(m.as_str());
                s
            },
            Error::ModuleDisabled(m) => {
                let mut s = String::from_str("module is disabled: ");
                s.append(m.as_str());
                s
            },
            Error::ModuleSkipMount(m) => {
                let mut s = String::from_str("module has skip_mount: ");
                s.append(m.as_str());
                s
            },
        }
    }
}

} // verus!
