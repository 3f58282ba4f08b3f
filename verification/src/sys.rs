//! Trusted boundary to the kernel and to the process filesystem. Each item
//! wraps one outside call and converts its arguments and result; every
//! outcome depends on kernel and disk state, so nothing is promised of the
//! results beyond their shape.

use vstd::prelude::*;

use rustix::fd::AsFd;

verus! {

#[verifier::external_type_specification]
#[verifier::external_body]
pub struct ExOwnedFd(rustix::fd::OwnedFd);

#[verifier::external_type_specification]
#[verifier::external_body]
pub struct ExProcess(procfs::process::Process);

/// Relies on rustix::mount::fsopen: opens a fresh overlay-filesystem
/// construction context.
#[verifier::external_body]
pub(crate) fn fs_open_overlay() -> (r: Result<rustix::fd::OwnedFd, i32>) {
    rustix::mount::fsopen("overlay", rustix::mount::FsOpenFlags::FSOPEN_CLOEXEC).map_err(
        |e| e.raw_os_error(),
    )
}

/// Relies on rustix::mount::fsconfig_set_string: sets one string option on
/// the filesystem context.
#[verifier::external_body]
pub(crate) fn fs_set_option(fd: &rustix::fd::OwnedFd, key: &str, value: &str) -> (r: Result<
    (),
    i32,
>) {
    rustix::mount::fsconfig_set_string(fd.as_fd(), key, value).map_err(|e| e.raw_os_error())
}

/// Relies on rustix::mount::fsconfig_create: materializes the configured
/// filesystem.
#[verifier::external_body]
pub(crate) fn fs_create(fd: &rustix::fd::OwnedFd) -> (r: Result<(), i32>) {
    rustix::mount::fsconfig_create(fd.as_fd()).map_err(|e| e.raw_os_error())
}

/// Relies on rustix::mount::fsmount: turns the created filesystem into a
/// detached mount object.
#[verifier::external_body]
pub(crate) fn fs_mount(fd: &rustix::fd::OwnedFd) -> (r: Result<rustix::fd::OwnedFd, i32>) {
    rustix::mount::fsmount(
        fd.as_fd(),
        rustix::mount::FsMountFlags::FSMOUNT_CLOEXEC,
        rustix::mount::MountAttrFlags::empty(),
    ).map_err(|e| e.raw_os_error())
}

/// Relies on rustix::mount::move_mount: attaches a detached mount object at
/// the destination path, atomically.
#[verifier::external_body]
pub(crate) fn attach_mount(mount_fd: &rustix::fd::OwnedFd, dest: &str) -> (r: Result<(), i32>) {
    rustix::mount::move_mount(
        mount_fd.as_fd(),
        "",
        rustix::fs::CWD,
        dest,
        rustix::mount::MoveMountFlags::MOVE_MOUNT_F_EMPTY_PATH,
    ).map_err(|e| e.raw_os_error())
}

/// Relies on rustix::mount::open_tree: clones the mount subtree at the path
/// (recursively) into a detached handle.
#[verifier::external_body]
pub(crate) fn clone_tree(from: &str) -> (r: Result<rustix::fd::OwnedFd, i32>) {
    rustix::mount::open_tree(
        rustix::fs::CWD,
        from,
        rustix::mount::OpenTreeFlags::OPEN_TREE_CLOEXEC
            | rustix::mount::OpenTreeFlags::OPEN_TREE_CLONE
            | rustix::mount::OpenTreeFlags::AT_RECURSIVE,
    ).map_err(|e| e.raw_os_error())
}

/// Relies on rustix::mount::mount: the legacy single-call overlay mount with
/// a comma-joined option string.
#[verifier::external_body]
pub(crate) fn legacy_mount_overlay(source: &str, dest: &str, data: &str) -> (r: Result<
    (),
    i32,
>) {
    let mut bytes = data.as_bytes().to_vec();
    bytes.push(0);
    match core::ffi::CStr::from_bytes_with_nul(&bytes) {
        Ok(cdata) => rustix::mount::mount(
            source,
            dest,
            "overlay",
            rustix::mount::MountFlags::empty(),
            Some(cdata),
        ).map_err(|e| e.raw_os_error()),
        Err(_) => Err(rustix::io::Errno::INVAL.raw_os_error()),
    }
}

/// Relies on rustix::mount::unmount: detaches the mount at the path.
#[verifier::external_body]
pub(crate) fn sys_unmount(path: &str) -> (r: Result<(), i32>) {
    rustix::mount::unmount(path, rustix::mount::UnmountFlags::empty()).map_err(
        |e| e.raw_os_error(),
    )
}

/// Relies on rustix::process::chdir: switches the process's working
/// directory to the path.
#[verifier::external_body]
pub(crate) fn chdir(path: &str) -> (r: Result<(), i32>) {
    rustix::process::chdir(path).map_err(|e| e.raw_os_error())
}

/// Relies on rustix::fs::stat: something exists at the path, following
/// symbolic links.
#[verifier::external_body]
pub(crate) fn path_exists(p: &str) -> (r: bool) {
    rustix::fs::stat(p).is_ok()
}

/// Relies on rustix::fs::stat and FileType::from_raw_mode: the path is a
/// directory, following symbolic links.
#[verifier::external_body]
pub(crate) fn path_is_dir(p: &str) -> (r: bool) {
    match rustix::fs::stat(p) {
        Ok(st) => rustix::fs::FileType::from_raw_mode(st.st_mode).is_dir(),
        Err(_) => false,
    }
}

/// Relies on rustix::fs::lstat and FileType::from_raw_mode: the path itself
/// is a symbolic link.
#[verifier::external_body]
pub(crate) fn path_is_symlink(p: &str) -> (r: bool) {
    match rustix::fs::lstat(p) {
        Ok(st) => rustix::fs::FileType::from_raw_mode(st.st_mode).is_symlink(),
        Err(_) => false,
    }
}

/// Relies on rustix::fs::open and rustix::fs::Dir: the names of the
/// directory's entries, dot entries included; a name that is not valid
/// UTF-8 comes back as None; any read failure yields no list at all.
#[verifier::external_body]
pub(crate) fn read_dir_names(p: &str) -> (r: Option<Vec<Option<String>>>) {
    let oflags = rustix::fs::OFlags::RDONLY | rustix::fs::OFlags::DIRECTORY
        | rustix::fs::OFlags::CLOEXEC;
    let fd = rustix::fs::open(p, oflags, rustix::fs::Mode::empty()).ok()?;
    let mut out: Vec<Option<String>> = Vec::new();
    for e in rustix::fs::Dir::read_from(&fd).ok()? {
        match e {
            Ok(ent) => out.push(ent.file_name().to_str().ok().map(|s| s.to_string())),
            Err(_) => return None,
        }
    }
    Some(out)
}

/// Relies on procfs::process::Process::myself: a handle on the running
/// process's entry in the process filesystem.
#[verifier::external_body]
pub(crate) fn proc_self() -> (r: Option<procfs::process::Process>) {
    procfs::process::Process::myself().ok()
}

/// Relies on procfs Process::mountinfo: the mount-point paths of the
/// current mount table, in table order; a path that is not valid UTF-8
/// comes back as None.
#[verifier::external_body]
pub(crate) fn proc_mount_points(p: &procfs::process::Process) -> (r: Option<
    Vec<Option<String>>,
>) {
    let infos = match p.mountinfo() {
        Ok(m) => m,
        Err(_) => return None,
    };
    let mut out: Vec<Option<String>> = Vec::new();
    for mi in infos.0.iter() {
        out.push(mi.mount_point.to_str().map(|s| s.to_string()));
    }
    Some(out)
}

} // verus!
