//! The partition overlay orchestrator: mounts one partition root as an
//! overlay of module layers, re-exposes the nested mount points the root
//! overlay would otherwise hide, and rolls the root back if any nested
//! mount fails. Above it, the module layer builder scans the metadata and
//! content stores and drives one partition after another, isolating each
//! partition's failure from the rest.

use vstd::prelude::*;

use crate::config::Config;
use crate::errors::Error;
use crate::model::{
    LayerFacts, ChildPlan, ModuleFacts, ModuleContentFacts, Partition, plan_child_mount,
    enabled_of, build_partition_lowerdirs, module_part_path,
};
use crate::ops::{
    MountEvent, log_extends, overlay_at, bind_at, unmount_at, no_unmount_appended,
    chosen_or_dropped, event_under, bind_mount_logged, umount_dir_logged,
    lemma_log_extends_trans, lemma_no_unmount_trans,
};
use crate::strutil::{join_last, join_with_last, path_starts_with, str_path_starts_with,
    str_concat, sort_dedup, lemma_path_starts_with_refl};
use crate::sys;

verus! {

/// Constructs the overlay through the descriptor-based kernel interface:
/// open a context, set the options, materialize, attach at `dest`. Any
/// failing step discards the intermediate descriptors without attaching.
fn overlay_new_api(
    config: &String,
    upper: &Option<String>,
    work: &Option<String>,
    source: &str,
    dest: &str,
) -> (r: Result<(), i32>) {
    let fs_fd = match sys::fs_open_overlay() {
        Ok(f) => f,
        Err(e) => {
            return Err(e);
        },
    };
    match sys::fs_set_option(&fs_fd, "lowerdir", config.as_str()) {
        Ok(()) => {},
        Err(e) => {
            return Err(e);
        },
    }
    match (upper, work) {
        (Some(u), Some(w)) => {
            match sys::fs_set_option(&fs_fd, "upperdir", u.as_str()) {
                Ok(()) => {},
                Err(e) => {
                    return Err(e);
                },
            }
            match sys::fs_set_option(&fs_fd, "workdir", w.as_str()) {
                Ok(()) => {},
                Err(e) => {
                    return Err(e);
                },
            }
        },
        _ => {},
    }
    match sys::fs_set_option(&fs_fd, "source", source) {
        Ok(()) => {},
        Err(e) => {
            return Err(e);
        },
    }
    match sys::fs_create(&fs_fd) {
        Ok(()) => {},
        Err(e) => {
            return Err(e);
        },
    }
    let mount_fd = match sys::fs_mount(&fs_fd) {
        Ok(f) => f,
        Err(e) => {
            return Err(e);
        },
    };
    sys::attach_mount(&mount_fd, dest)
}

/// Mounts an overlay at `dest` whose read-only layers are `lower_dirs` in
/// order and then `lowest` as the least-preferred layer. The upper and work
/// directories are used only if both are given and both exist on disk.
/// Tries the descriptor-based interface first and falls back to the legacy
/// single-call mount with an equivalent option string. Exactly one overlay
/// attempt at `dest`, with the layers colon-joined in order, is recorded.
pub fn mount_overlayfs(
    lower_dirs: &Vec<String>,
    lowest: &str,
    upperdir: &Option<String>,
    workdir: &Option<String>,
    dest: &str,
    cfg: &Config,
    log: &mut Vec<MountEvent>,
) -> (r: Result<(), Error>)
    ensures
        final(log)@.len() == old(log)@.len() + 1,
        log_extends(old(log)@, final(log)@),
        overlay_at(final(log)@.last(), dest@, join_last(lower_dirs.deep_view(), lowest@, ":"@)),
        final(log)@.last() matches MountEvent::Overlay { upper: u, work: w, .. }
            && chosen_or_dropped(u, *upperdir) && chosen_or_dropped(w, *workdir) && (u is Some
            <==> w is Some) && ((upperdir is None || workdir is None) ==> u is None
            && w is None),
{
    let config = join_with_last(lower_dirs, lowest, ":");
    // the overlay is writable only with both directories given and both
    // present on disk; otherwise the pair is silently dropped, not an error
    let writable = match (upperdir, workdir) {
        (Some(u), Some(w)) => sys::path_exists(u.as_str()) && sys::path_exists(w.as_str()),
        _ => false,
    };
    let (upper, work): (Option<String>, Option<String>) = if writable {
        let u = match upperdir {
            Some(u) => Some(u.clone()),
            None => None,
        };
        let w = match workdir {
            Some(w) => Some(w.clone()),
            None => None,
        };
        (u, w)
    } else {
        (None, None)
    };
    let upper_ev = match &upper {
        Some(u) => Some(u.clone()),
        None => None,
    };
    let work_ev = match &work {
        Some(w) => Some(w.clone()),
        None => None,
    };
    log.push(
        MountEvent::Overlay {
            dest: String::from_str(dest),
            config: config.clone(),
            upper: upper_ev,
            work: work_ev,
        },
    );
    proof {
        assert(log@.subrange(0, old(log)@.len() as int) =~= old(log)@);
    }
    match overlay_new_api(&config, &upper, &work, cfg.source_label.as_str(), dest) {
        Ok(()) => Ok(()),
        Err(_) => {
            let mut data = str_concat("lowerdir=", config.as_str());
            match (&upper, &work) {
                (Some(u), Some(w)) => {
                    data.append(",upperdir=");
                    data.append(u.as_str());
                    data.append(",workdir=");
                    data.append(w.as_str());
                },
                _ => {},
            }
            match sys::legacy_mount_overlay(cfg.source_label.as_str(), dest, data.as_str()) {
                Ok(()) => Ok(()),
                Err(e) => Err(Error::Errno(e)),
            }
        },
    }
}

/// Handles one nested mount point hidden by a freshly mounted root overlay:
/// probes each module's candidate layer under the point, then either binds
/// the stock content back, leaves the point alone, or overlays the module
/// layers over the stock content, falling back to a bind of the stock
/// content if that overlay fails. Never unmounts anything.
pub fn mount_overlay_child(
    mount_point: &str,
    relative: &str,
    module_roots: &Vec<String>,
    stock_root: &str,
    cfg: &Config,
    log: &mut Vec<MountEvent>,
) -> (r: Result<(), Error>)
    ensures
        no_unmount_appended(old(log)@, final(log)@),
        final(log)@.len() <= old(log)@.len() + 2,
        forall|k: int|
            old(log)@.len() <= k < final(log)@.len() ==> bind_at(
                #[trigger] final(log)@[k],
                stock_root@,
                mount_point@,
            ) || (final(log)@[k] matches MountEvent::Overlay { dest, .. } && dest@
                == mount_point@),
        final(log)@.len() == old(log)@.len() + 1 ==> (bind_at(
            final(log)@.last(),
            stock_root@,
            mount_point@,
        ) || (final(log)@.last() matches MountEvent::Overlay { dest, config, .. } && dest@
            == mount_point@ && (exists|ds: Seq<Seq<char>>|
            config@ == join_last(ds, stock_root@, ":"@)))),
        final(log)@.len() == old(log)@.len() + 2 ==> ((final(log)@[old(log)@.len() as int]
        matches MountEvent::Overlay { dest, config, .. } && dest@ == mount_point@ && (
        exists|ds: Seq<Seq<char>>| config@ == join_last(ds, stock_root@, ":"@))) && bind_at(
            final(log)@.last(),
            stock_root@,
            mount_point@,
        )),
        r is Err ==> final(log)@.len() > old(log)@.len() && bind_at(
            final(log)@.last(),
            stock_root@,
            mount_point@,
        ),
{
    let ghost log0 = log@;
    let mut facts: Vec<LayerFacts> = Vec::new();
    let mut i: usize = 0;
    while i < module_roots.len()
        decreases module_roots.len() - i,
    {
        let path = str_concat(module_roots[i].as_str(), relative);
        let exists = sys::path_exists(path.as_str());
        let is_dir = sys::path_is_dir(path.as_str());
        facts.push(LayerFacts { path, exists, is_dir });
        i += 1;
    }
    let stock_is_dir = sys::path_is_dir(stock_root);
    match plan_child_mount(&facts, stock_is_dir) {
        ChildPlan::BindStock => {
            let r = bind_mount_logged(stock_root, mount_point, log);
            proof {
                assert(no_unmount_appended(log0, log@));
            }
            r
        },
        ChildPlan::Leave => {
            proof {
                assert(log@.subrange(0, log0.len() as int) =~= log0);
            }
            Ok(())
        },
        ChildPlan::Overlay(dirs) => {
            let ghost before = log@;
            let no_upper: Option<String> = None;
            let no_work: Option<String> = None;
            match mount_overlayfs(&dirs, stock_root, &no_upper, &no_work, mount_point, cfg, log) {
                Ok(()) => {
                    proof {
                        assert(no_unmount_appended(log0, log@));
                        assert(log@.last() matches MountEvent::Overlay { config, .. }
                            && config@ == join_last(dirs.deep_view(), stock_root@, ":"@));
                    }
                    Ok(())
                },
                Err(_) => {
                    let ghost mid = log@;
                    let r = bind_mount_logged(stock_root, mount_point, log);
                    proof {
                        assert(no_unmount_appended(log0, mid));
                        assert(no_unmount_appended(mid, log@));
                        lemma_no_unmount_trans(log0, mid, log@);
                        assert(log@[log0.len() as int] == log@.subrange(
                            0,
                            mid.len() as int,
                        )[log0.len() as int]);
                        assert(log@[log0.len() as int] == mid.last());
                        assert(mid.last() matches MountEvent::Overlay { config, .. } && config@
                            == join_last(dirs.deep_view(), stock_root@, ":"@));
                    }
                    r
                },
            }
        },
    }
}

/// Mounts the overlay for one partition root: enters the root so that `"."`
/// keeps addressing the stock content, snapshots the nested mount points
/// beneath the root from the live mount table (sorted, deduplicated),
/// mounts the root overlay, then re-exposes each nested point. A failure on
/// any nested point unmounts the root overlay just created before the error
/// is returned: a partition is mounted all-or-nothing.
#[verifier::loop_isolation(false)]
pub fn mount_overlay(
    root: &String,
    module_roots: &Vec<String>,
    workdir: &Option<String>,
    upperdir: &Option<String>,
    cfg: &Config,
    log: &mut Vec<MountEvent>,
) -> (r: Result<(), Error>)
    ensures
        log_extends(old(log)@, final(log)@),
        r is Ok ==> no_unmount_appended(old(log)@, final(log)@),
        r is Err ==> final(log)@.len() == old(log)@.len() || (final(log)@.len() == old(
            log,
        )@.len() + 1 && final(log)@.last() is Overlay) || unmount_at(
            final(log)@.last(),
            root@,
        ),
        r is Err && final(log)@.len() > old(log)@.len() + 1 ==> unmount_at(
            final(log)@.last(),
            root@,
        ),
        final(log)@.len() > old(log)@.len() ==> overlay_at(
            final(log)@[old(log)@.len() as int],
            root@,
            join_last(module_roots.deep_view(), root@, ":"@),
        ),
        final(log)@.len() > old(log)@.len() ==> (final(log)@[old(log)@.len() as int] matches
        MountEvent::Overlay { upper: u, work: w, .. } && chosen_or_dropped(u, *upperdir)
            && chosen_or_dropped(w, *workdir) && (u is Some <==> w is Some) && ((
        upperdir is None || workdir is None) ==> u is None && w is None)),
        r is Ok ==> final(log)@.len() > old(log)@.len(),
        forall|k: int|
            old(log)@.len() <= k < final(log)@.len() ==> event_under(
                #[trigger] final(log)@[k],
                root@,
            ),
{
    let ghost log0 = log@;
    proof {
        assert(log@.subrange(0, log0.len() as int) =~= log0);
    }
    match sys::chdir(root.as_str()) {
        Ok(()) => {},
        Err(_) => {
            return Err(Error::ChdirFailed(root.clone()));
        },
    }
    let proc = match sys::proc_self() {
        Some(p) => p,
        None => {
            return Err(Error::ProcMounts);
        },
    };
    let points = match sys::proc_mount_points(&proc) {
        Some(v) => v,
        None => {
            return Err(Error::ProcMounts);
        },
    };
    // select the mount points strictly beneath the root, before covering it
    let mut selected: Vec<String> = Vec::new();
    let mut i: usize = 0;
    while i < points.len()
        invariant
            forall|k: int|
                0 <= k < selected.deep_view().len() ==> path_starts_with(
                    #[trigger] selected.deep_view()[k],
                    root@,
                ),
        decreases points.len() - i,
    {
        let ghost before = selected.deep_view();
        match &points[i] {
            Some(mp) => {
                let under = str_path_starts_with(mp.as_str(), root.as_str());
                let above = str_path_starts_with(root.as_str(), mp.as_str());
                if under && !above {
                    selected.push(mp.clone());
                    proof {
                        assert(selected.deep_view() =~= before.push(mp@));
                    }
                }
            },
            None => {},
        }
        i += 1;
    }
    let children = sort_dedup(selected);
    proof {
        assert forall|k: int| 0 <= k < children.deep_view().len() implies path_starts_with(
            #[trigger] children.deep_view()[k],
            root@,
        ) by {
            assert(children.deep_view().contains(children.deep_view()[k]));
        }
    }
    match mount_overlayfs(
        module_roots,
        root.as_str(),
        upperdir,
        workdir,
        root.as_str(),
        cfg,
        log,
    ) {
        Ok(()) => {},
        Err(_) => {
            proof {
                lemma_path_starts_with_refl(root@);
            }
            return Err(Error::RootOverlayFailed(root.clone()));
        },
    }
    let ghost root_ev = log@[log0.len() as int];
    proof {
        lemma_path_starts_with_refl(root@);
    }
    let root_len = root.as_str().unicode_len();
    let mut k: usize = 0;
    while k < children.len()
        invariant
            k <= children.len(),
            no_unmount_appended(log0, log@),
            log@.len() > log0.len(),
            log@[log0.len() as int] == root_ev,
            forall|j: int|
                log0.len() <= j < log@.len() ==> event_under(#[trigger] log@[j], root@),
        decreases children.len() - k,
    {
        let mount_point = &children[k];
        proof {
            assert(children.deep_view()[k as int] == mount_point@);
            assert(path_starts_with(mount_point@, root@));
        }
        let mp_len = mount_point.as_str().unicode_len();
        let relative = mount_point.as_str().substring_char(root_len, mp_len);
        let stock_root = str_concat(".", relative);
        if sys::path_exists(stock_root.as_str()) {
            let ghost before_child = log@;
            match mount_overlay_child(
                mount_point.as_str(),
                relative,
                module_roots,
                stock_root.as_str(),
                cfg,
                log,
            ) {
                Ok(()) => {
                    proof {
                        lemma_no_unmount_trans(log0, before_child, log@);
                        assert(log@[log0.len() as int] == log@.subrange(
                            0,
                            before_child.len() as int,
                        )[log0.len() as int]);
                        assert forall|j: int|
                            log0.len() <= j < log@.len() implies event_under(
                            #[trigger] log@[j],
                            root@,
                        ) by {
                            if j < before_child.len() {
                                assert(log@[j] == log@.subrange(
                                    0,
                                    before_child.len() as int,
                                )[j]);
                            } else {
                                assert(bind_at(log@[j], stock_root@, mount_point@) || (
                                log@[j] matches MountEvent::Overlay { dest, .. } && dest@
                                    == mount_point@));
                            }
                        }
                    }
                },
                Err(_) => {
                    let ghost before_revert = log@;
                    let revert = umount_dir_logged(root.as_str(), log);
                    proof {
                        lemma_no_unmount_trans(log0, before_child, before_revert);
                        lemma_log_extends_trans(log0, before_revert, log@);
                        assert(before_revert[log0.len() as int] == before_revert.subrange(
                            0,
                            before_child.len() as int,
                        )[log0.len() as int]);
                        assert(log@[log0.len() as int] == log@.subrange(
                            0,
                            before_revert.len() as int,
                        )[log0.len() as int]);
                        assert forall|j: int|
                            log0.len() <= j < log@.len() implies event_under(
                            #[trigger] log@[j],
                            root@,
                        ) by {
                            if j < before_revert.len() {
                                assert(log@[j] == log@.subrange(
                                    0,
                                    before_revert.len() as int,
                                )[j]);
                                if j < before_child.len() {
                                    assert(before_revert[j] == before_revert.subrange(
                                        0,
                                        before_child.len() as int,
                                    )[j]);
                                } else {
                                    assert(bind_at(before_revert[j], stock_root@, mount_point@)
                                        || (before_revert[j] matches MountEvent::Overlay {
                                        dest,
                                        ..
                                    } && dest@ == mount_point@));
                                }
                            } else {
                                assert(unmount_at(log@[j], root@));
                            }
                        }
                    }
                    return Err(
                        match revert {
                            Ok(()) => Error::ChildMountReverted(root.clone()),
                            Err(e) => e,
                        },
                    );
                },
            }
        }
        k += 1;
    }
    Ok(())
}

/// Mounts one partition from its decided facts: with no layers or a
/// symbolic-link root nothing is touched and the call succeeds; otherwise
/// the upper and work directories are taken beneath the writable-overlay
/// storage root (only when that root exists) and the partition overlay is
/// mounted.
pub fn mount_partition_checked(
    partition_name: &str,
    lowerdir: &Vec<String>,
    root_is_symlink: bool,
    rw_root_exists: bool,
    cfg: &Config,
    log: &mut Vec<MountEvent>,
) -> (r: Result<(), Error>)
    ensures
        log_extends(old(log)@, final(log)@),
        lowerdir@.len() == 0 ==> r is Ok && final(log)@ == old(log)@,
        root_is_symlink ==> r is Ok && final(log)@ == old(log)@,
        r is Ok ==> no_unmount_appended(old(log)@, final(log)@),
        lowerdir@.len() > 0 && !root_is_symlink && r is Ok ==> final(log)@.len() > old(
            log,
        )@.len(),
        final(log)@.len() > old(log)@.len() ==> overlay_at(
            final(log)@[old(log)@.len() as int],
            "/"@ + partition_name@,
            join_last(lowerdir.deep_view(), "/"@ + partition_name@, ":"@),
        ),
        final(log)@.len() > old(log)@.len() ==> (final(log)@[old(log)@.len() as int] matches
        MountEvent::Overlay { upper: u, work: w, .. } && (u is Some <==> w is Some) && (
        !rw_root_exists ==> u is None && w is None) && (u matches Some(us) ==> us@
            == cfg.rw_root@ + "/"@ + partition_name@ + "/upperdir"@) && (w matches Some(ws)
            ==> ws@ == cfg.rw_root@ + "/"@ + partition_name@ + "/workdir"@)),
        forall|k: int|
            old(log)@.len() <= k < final(log)@.len() ==> event_under(
                #[trigger] final(log)@[k],
                "/"@ + partition_name@,
            ),
{
    proof {
        assert(log@.subrange(0, old(log)@.len() as int) =~= old(log)@);
    }
    if lowerdir.len() == 0 {
        return Ok(());
    }
    if root_is_symlink {
        return Ok(());
    }
    let partition = str_concat("/", partition_name);
    let mut upperdir: Option<String> = None;
    let mut workdir: Option<String> = None;
    if rw_root_exists {
        let mut base = str_concat(cfg.rw_root.as_str(), "/");
        base.append(partition_name);
        let mut w = base.clone();
        w.append("/workdir");
        let mut u = base;
        u.append("/upperdir");
        workdir = Some(w);
        upperdir = Some(u);
    }
    mount_overlay(&partition, lowerdir, &workdir, &upperdir, cfg, log)
}

/// Mounts one partition: skips at once when the layer list is empty, probes
/// whether the root is a symbolic link (already merged elsewhere) and
/// whether the writable-overlay storage root exists, then proceeds as the
/// facts demand.
pub fn mount_partition(
    partition_name: &str,
    lowerdir: &Vec<String>,
    cfg: &Config,
    log: &mut Vec<MountEvent>,
) -> (r: Result<(), Error>)
    ensures
        log_extends(old(log)@, final(log)@),
        lowerdir@.len() == 0 ==> r is Ok && final(log)@ == old(log)@,
        final(log)@.len() > old(log)@.len() ==> overlay_at(
            final(log)@[old(log)@.len() as int],
            "/"@ + partition_name@,
            join_last(lowerdir.deep_view(), "/"@ + partition_name@, ":"@),
        ),
        final(log)@.len() > old(log)@.len() ==> (final(log)@[old(log)@.len() as int] matches
        MountEvent::Overlay { upper: u, work: w, .. } && (u is Some <==> w is Some) && (
        u matches Some(us) ==> us@ == cfg.rw_root@ + "/"@ + partition_name@ + "/upperdir"@)
            && (w matches Some(ws) ==> ws@ == cfg.rw_root@ + "/"@ + partition_name@
            + "/workdir"@)),
        forall|k: int|
            old(log)@.len() <= k < final(log)@.len() ==> event_under(
                #[trigger] final(log)@[k],
                "/"@ + partition_name@,
            ),
{
    proof {
        assert(log@.subrange(0, old(log)@.len() as int) =~= old(log)@);
    }
    if lowerdir.len() == 0 {
        return Ok(());
    }
    let partition = str_concat("/", partition_name);
    let root_is_symlink = sys::path_is_symlink(partition.as_str());
    let rw_root_exists = sys::path_exists(cfg.rw_root.as_str());
    mount_partition_checked(partition_name, lowerdir, root_is_symlink, rw_root_exists, cfg, log)
}

/// Scans the metadata store and returns the enabled module identities in
/// directory-listing order: entries that are directories, carry no disable
/// or skip-mount marker, and hold the manifest file (the writable-overlay
/// storage area excepted). Fails only when the store cannot be listed.
pub fn collect_enabled_modules(metadata_dir: &str, cfg: &Config) -> (r: Result<
    Vec<String>,
    Error,
>)
    ensures
        r is Err ==> r matches Err(Error::MetadataDirUnreadable(_)),
{
    let names = match sys::read_dir_names(metadata_dir) {
        Some(n) => n,
        None => {
            return Err(Error::MetadataDirUnreadable(String::from_str(metadata_dir)));
        },
    };
    let dot = String::from_str(".");
    let dotdot = String::from_str("..");
    let mut facts: Vec<ModuleFacts> = Vec::new();
    let mut i: usize = 0;
    while i < names.len()
        decreases names.len() - i,
    {
        match &names[i] {
            Some(name) => {
                if !(*name == dot) && !(*name == dotdot) {
                    let mut entry = str_concat(metadata_dir, "/");
                    entry.append(name.as_str());
                    let is_dir = sys::path_is_dir(entry.as_str());
                    let disable_path = str_concat(entry.as_str(), "/disable");
                    let has_disable = sys::path_exists(disable_path.as_str());
                    let skip_path = str_concat(entry.as_str(), "/skip_mount");
                    let has_skip_mount = sys::path_exists(skip_path.as_str());
                    let manifest_path = str_concat(entry.as_str(), "/module.prop");
                    let has_manifest = sys::path_exists(manifest_path.as_str());
                    let is_rw_root = entry == cfg.rw_root;
                    facts.push(
                        ModuleFacts {
                            id: name.clone(),
                            is_dir,
                            has_disable,
                            has_skip_mount,
                            has_manifest,
                            is_rw_root,
                        },
                    );
                }
            },
            None => {},
        }
        i += 1;
    }
    Ok(enabled_of(&facts))
}

/// The events appended to the journal `b` over `a` fall into six
/// consecutive segments at the given boundaries, one per partition in the
/// fixed order `system`, `vendor`, `product`, `system_ext`, `odm`, `oem`:
/// every event of a segment lies at or beneath that partition's root.
pub open spec fn partitioned_run_at(
    a: Seq<MountEvent>,
    b: Seq<MountEvent>,
    b1: int,
    b2: int,
    b3: int,
    b4: int,
    b5: int,
) -> bool {
    &&& a.len() <= b1 <= b2 <= b3 <= b4 <= b5 <= b.len()
    &&& forall|k: int| a.len() <= k < b1 ==> event_under(#[trigger] b[k], "/"@ + "system"@)
    &&& forall|k: int| b1 <= k < b2 ==> event_under(#[trigger] b[k], "/"@ + "vendor"@)
    &&& forall|k: int| b2 <= k < b3 ==> event_under(#[trigger] b[k], "/"@ + "product"@)
    &&& forall|k: int| b3 <= k < b4 ==> event_under(#[trigger] b[k], "/"@ + "system_ext"@)
    &&& forall|k: int| b4 <= k < b5 ==> event_under(#[trigger] b[k], "/"@ + "odm"@)
    &&& forall|k: int| b5 <= k < b.len() ==> event_under(#[trigger] b[k], "/"@ + "oem"@)
}

/// The run touched the partitions one after another, `system` first, then
/// the five others in the fixed order: such boundaries exist.
pub open spec fn partitioned_run(a: Seq<MountEvent>, b: Seq<MountEvent>) -> bool {
    exists|b1: int, b2: int, b3: int, b4: int, b5: int|
        partitioned_run_at(a, b, b1, b2, b3, b4, b5)
}

/// One whole run: collects the enabled modules (succeeding at once when
/// none is enabled), probes each module's per-partition payload, builds the
/// per-partition layer lists, then mounts `system` first and the remaining
/// partitions in a fixed order. A partition's failure is isolated: it never
/// aborts the remaining partitions, so the only reported failure is an
/// unreadable metadata store.
pub fn mount_modules_systemlessly(
    metadata_dir: &str,
    content_dir: &str,
    cfg: &Config,
    log: &mut Vec<MountEvent>,
) -> (r: Result<(), Error>)
    ensures
        log_extends(old(log)@, final(log)@),
        r is Err ==> (r matches Err(Error::MetadataDirUnreadable(_))) && final(log)@ == old(
            log,
        )@,
        partitioned_run(old(log)@, final(log)@),
{
    let ghost log0 = log@;
    proof {
        assert(log@.subrange(0, log0.len() as int) =~= log0);
        assert(partitioned_run_at(
            log0,
            log0,
            log0.len() as int,
            log0.len() as int,
            log0.len() as int,
            log0.len() as int,
            log0.len() as int,
        ));
    }
    let enabled = match collect_enabled_modules(metadata_dir, cfg) {
        Ok(v) => v,
        Err(e) => {
            return Err(e);
        },
    };
    if enabled.len() == 0 {
        return Ok(());
    }
    let mut cfacts: Vec<ModuleContentFacts> = Vec::new();
    let mut i: usize = 0;
    while i < enabled.len()
        decreases enabled.len() - i,
    {
        let id = &enabled[i];
        let mut content_path = str_concat(content_dir, "/");
        content_path.append(id.as_str());
        let content_exists = sys::path_exists(content_path.as_str());
        let has_system = sys::path_is_dir(
            module_part_path(content_dir, id, Partition::System).as_str(),
        );
        let has_vendor = sys::path_is_dir(
            module_part_path(content_dir, id, Partition::Vendor).as_str(),
        );
        let has_product = sys::path_is_dir(
            module_part_path(content_dir, id, Partition::Product).as_str(),
        );
        let has_system_ext = sys::path_is_dir(
            module_part_path(content_dir, id, Partition::SystemExt).as_str(),
        );
        let has_odm = sys::path_is_dir(
            module_part_path(content_dir, id, Partition::Odm).as_str(),
        );
        let has_oem = sys::path_is_dir(
            module_part_path(content_dir, id, Partition::Oem).as_str(),
        );
        cfacts.push(
            ModuleContentFacts {
                id: id.clone(),
                content_exists,
                has_system,
                has_vendor,
                has_product,
                has_system_ext,
                has_odm,
                has_oem,
            },
        );
        i += 1;
    }
    let lists = build_partition_lowerdirs(content_dir, &cfacts);
    let ghost l1 = log@;
    let _system_result = mount_partition("system", &lists.system, cfg, log);
    proof {
        lemma_log_extends_trans(log0, l1, log@);
    }
    let ghost l2 = log@;
    let _vendor_result = mount_partition("vendor", &lists.vendor, cfg, log);
    proof {
        lemma_log_extends_trans(log0, l2, log@);
    }
    let ghost l3 = log@;
    let _product_result = mount_partition("product", &lists.product, cfg, log);
    proof {
        lemma_log_extends_trans(log0, l3, log@);
    }
    let ghost l4 = log@;
    let _system_ext_result = mount_partition("system_ext", &lists.system_ext, cfg, log);
    proof {
        lemma_log_extends_trans(log0, l4, log@);
    }
    let ghost l5 = log@;
    let _odm_result = mount_partition("odm", &lists.odm, cfg, log);
    proof {
        lemma_log_extends_trans(log0, l5, log@);
    }
    let ghost l6 = log@;
    let _oem_result = mount_partition("oem", &lists.oem, cfg, log);
    proof {
        lemma_log_extends_trans(log0, l6, log@);
        lemma_log_extends_trans(l5, l6, log@);
        lemma_log_extends_trans(l4, l5, log@);
        lemma_log_extends_trans(l3, l4, log@);
        lemma_log_extends_trans(l2, l3, log@);
        assert forall|k: int| log0.len() <= k < l2.len() implies event_under(
            #[trigger] log@[k],
            "/"@ + "system"@,
        ) by {
            assert(log@[k] == log@.subrange(0, l2.len() as int)[k]);
            assert(event_under(l2[k], "/"@ + "system"@));
        }
        assert forall|k: int| l2.len() <= k < l3.len() implies event_under(
            #[trigger] log@[k],
            "/"@ + "vendor"@,
        ) by {
            assert(log@[k] == log@.subrange(0, l3.len() as int)[k]);
            assert(event_under(l3[k], "/"@ + "vendor"@));
        }
        assert forall|k: int| l3.len() <= k < l4.len() implies event_under(
            #[trigger] log@[k],
            "/"@ + "product"@,
        ) by {
            assert(log@[k] == log@.subrange(0, l4.len() as int)[k]);
            assert(event_under(l4[k], "/"@ + "product"@));
        }
        assert forall|k: int| l4.len() <= k < l5.len() implies event_under(
            #[trigger] log@[k],
            "/"@ + "system_ext"@,
        ) by {
            assert(log@[k] == log@.subrange(0, l5.len() as int)[k]);
            assert(event_under(l5[k], "/"@ + "system_ext"@));
        }
        assert forall|k: int| l5.len() <= k < l6.len() implies event_under(
            #[trigger] log@[k],
            "/"@ + "odm"@,
        ) by {
            assert(log@[k] == log@.subrange(0, l6.len() as int)[k]);
            assert(event_under(l6[k], "/"@ + "odm"@));
        }
        assert(partitioned_run_at(
            log0,
            log@,
            l2.len() as int,
            l3.len() as int,
            l4.len() as int,
            l5.len() as int,
            l6.len() as int,
        ));
    }
    Ok(())
}

} // verus!
