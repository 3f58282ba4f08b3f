//! Mount operations with a journal: every kernel mount, bind or unmount
//! attempt the orchestrator makes is recorded as an event before the call,
//! so that contracts can speak of which operations a run performs.

use vstd::prelude::*;

use crate::errors::Error;
use crate::sys;

verus! {

/// One attempted kernel mount operation.
pub enum MountEvent {
    /// An overlay mount at `dest` with the colon-joined `config` of lower
    /// layers and the optional writable upper and work directories.
    Overlay { dest: String, config: String, upper: Option<String>, work: Option<String> },
    /// A recursive bind of `from` onto `to`.
    Bind { from: String, to: String },
    /// A detach of the mount at `path`.
    Unmount { path: String },
}

/// `b` carries `a` as an unchanged prefix.
pub open spec fn log_extends(a: Seq<MountEvent>, b: Seq<MountEvent>) -> bool {
    b.len() >= a.len() && b.subrange(0, a.len() as int) == a
}

/// The event is an overlay attempt at `dest` with exactly `config`.
pub open spec fn overlay_at(e: MountEvent, dest: Seq<char>, config: Seq<char>) -> bool {
    e matches MountEvent::Overlay { dest: d, config: c, .. } && d@ == dest && c@ == config
}

/// The writable directory actually used is the given one or was dropped
/// because it is absent on disk; never some other path.
pub open spec fn chosen_or_dropped(chosen: Option<String>, given: Option<String>) -> bool {
    chosen matches Some(c) ==> (given matches Some(g) && c@ == g@)
}

/// The event is a bind attempt of `from` onto `to`.
pub open spec fn bind_at(e: MountEvent, from: Seq<char>, to: Seq<char>) -> bool {
    e matches MountEvent::Bind { from: f, to: t } && f@ == from && t@ == to
}

/// The event binds a source onto a target that lie at the same relative
/// position beneath the two given bases.
pub open spec fn bind_pair_under(e: MountEvent, src_base: Seq<char>, tgt_base: Seq<char>) -> bool {
    exists|rel: Seq<char>| bind_at(e, src_base + rel, tgt_base + rel)
}

/// The event is an unmount attempt at `path`.
pub open spec fn unmount_at(e: MountEvent, path: Seq<char>) -> bool {
    e matches MountEvent::Unmount { path: q } && q@ == path
}

/// The event's target path lies at or beneath `root`: the operation touches
/// only that subtree of the mount namespace.
pub open spec fn event_under(e: MountEvent, root: Seq<char>) -> bool {
    match e {
        MountEvent::Overlay { dest, .. } => crate::strutil::path_starts_with(dest@, root),
        MountEvent::Bind { to, .. } => crate::strutil::path_starts_with(to@, root),
        MountEvent::Unmount { path } => crate::strutil::path_starts_with(path@, root),
    }
}

/// `b` extends `a` and none of the appended events is an unmount: the run
/// tore nothing down.
pub open spec fn no_unmount_appended(a: Seq<MountEvent>, b: Seq<MountEvent>) -> bool {
    log_extends(a, b) && forall|k: int|
        a.len() <= k < b.len() ==> !((#[trigger] b[k]) is Unmount)
}

/// `b` extends `a` and every appended event is a single-path bind: the walk
/// performed file-granular binds and nothing else.
pub open spec fn only_binds_appended(a: Seq<MountEvent>, b: Seq<MountEvent>) -> bool {
    log_extends(a, b) && forall|k: int| a.len() <= k < b.len() ==> (#[trigger] b[k]) is Bind
}

/// Prefix extension composes.
pub proof fn lemma_log_extends_trans(a: Seq<MountEvent>, b: Seq<MountEvent>, c: Seq<MountEvent>)
    requires
        log_extends(a, b),
        log_extends(b, c),
    ensures
        log_extends(a, c),
{
    assert(c.subrange(0, a.len() as int) =~= a) by {
        assert(forall|k: int| 0 <= k < a.len() ==> c[k] == b.subrange(0, b.len() as int)[k]);
        assert(forall|k: int| 0 <= k < b.len() ==> c[k] == c.subrange(0, b.len() as int)[k]);
        assert(forall|k: int| 0 <= k < a.len() ==> b[k] == b.subrange(0, a.len() as int)[k]);
    }
}

/// Appending no unmount composes.
pub proof fn lemma_no_unmount_trans(a: Seq<MountEvent>, b: Seq<MountEvent>, c: Seq<MountEvent>)
    requires
        no_unmount_appended(a, b),
        no_unmount_appended(b, c),
    ensures
        no_unmount_appended(a, c),
{
    lemma_log_extends_trans(a, b, c);
    assert forall|k: int| a.len() <= k < c.len() implies !((#[trigger] c[k]) is Unmount) by {
        if k < b.len() {
            assert(c[k] == c.subrange(0, b.len() as int)[k]);
            assert(c[k] == b[k]);
        }
    }
}

/// Appending only binds composes.
pub proof fn lemma_only_binds_trans(a: Seq<MountEvent>, b: Seq<MountEvent>, c: Seq<MountEvent>)
    requires
        only_binds_appended(a, b),
        only_binds_appended(b, c),
    ensures
        only_binds_appended(a, c),
{
    lemma_log_extends_trans(a, b, c);
    assert forall|k: int| a.len() <= k < c.len() implies (#[trigger] c[k]) is Bind by {
        if k < b.len() {
            assert(c[k] == c.subrange(0, b.len() as int)[k]);
            assert(c[k] == b[k]);
        }
    }
}

/// Clones the mount subtree rooted at `from` (nested mounts included) into
/// a detached handle, then attaches it at `to`.
pub fn bind_mount(from: &str, to: &str) -> (r: Result<(), Error>) {
    let tree = match sys::clone_tree(from) {
        Ok(t) => t,
        Err(e) => {
            return Err(Error::Errno(e));
        },
    };
    match sys::attach_mount(&tree, to) {
        Ok(()) => Ok(()),
        Err(e) => Err(Error::Errno(e)),
    }
}

/// Detaches the mount at `path`; used exclusively for rollback.
pub fn umount_dir(path: &str) -> (r: Result<(), Error>) {
    match sys::sys_unmount(path) {
        Ok(()) => Ok(()),
        Err(e) => Err(Error::Errno(e)),
    }
}

/// Records and performs one recursive bind of `from` onto `to`.
pub fn bind_mount_logged(from: &str, to: &str, log: &mut Vec<MountEvent>) -> (r: Result<
    (),
    Error,
>)
    ensures
        final(log)@.len() == old(log)@.len() + 1,
        log_extends(old(log)@, final(log)@),
        bind_at(final(log)@.last(), from@, to@),
{
    log.push(
        MountEvent::Bind { from: String::from_str(from), to: String::from_str(to) },
    );
    proof {
        assert(log@.subrange(0, old(log)@.len() as int) =~= old(log)@);
    }
    bind_mount(from, to)
}

/// Records and performs one unmount at `path`.
pub fn umount_dir_logged(path: &str, log: &mut Vec<MountEvent>) -> (r: Result<(), Error>)
    ensures
        final(log)@.len() == old(log)@.len() + 1,
        log_extends(old(log)@, final(log)@),
        unmount_at(final(log)@.last(), path@),
{
    log.push(MountEvent::Unmount { path: String::from_str(path) });
    proof {
        assert(log@.subrange(0, old(log)@.len() as int) =~= old(log)@);
    }
    umount_dir(path)
}

} // verus!
