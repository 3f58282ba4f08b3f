//! The live-patch engine: validates one explicitly requested module, then
//! walks its content tree and bind-mounts each regular file over the
//! corresponding live path, one file at a time, constructing no overlay.
//! Bind failures are file-granular and never abort the walk; only a
//! directory that cannot be listed does.

use vstd::prelude::*;

use crate::errors::Error;
use crate::model::{
    Partition, WalkAction, partition_name, partition_name_view, plan_walk_step,
    validate_patch_module,
};
use crate::ops::{
    MountEvent, bind_at, bind_pair_under, only_binds_appended, bind_mount_logged,
    lemma_only_binds_trans,
};
use crate::strutil::str_concat;
use crate::sys;

verus! {

/// Walks the tree under `source_root` with an explicit worklist and binds
/// every regular file whose matching live path under `target_root` exists.
/// A missing live directory skips its subtree (this mode never creates
/// structure); a missing live file is skipped; a refused bind is skipped.
/// Every bind joins a source path onto the live path of the same relative
/// position, and only single-file binds are performed. An unlistable
/// directory ends the walk with an error, as does running out of steps.
#[verifier::loop_isolation(false)]
pub fn bind_mount_recursive(
    source_root: &String,
    target_root: &String,
    log: &mut Vec<MountEvent>,
) -> (r: Result<(), Error>)
    ensures
        only_binds_appended(old(log)@, final(log)@),
        forall|k: int|
            old(log)@.len() <= k < final(log)@.len() ==> bind_pair_under(
                #[trigger] final(log)@[k],
                source_root@,
                target_root@,
            ),
        r is Err ==> (r matches Err(Error::ReadDirFailed(_))) || r matches Err(Error::WalkTruncated),
{
    let ghost log0 = log@;
    proof {
        assert(log@.subrange(0, log0.len() as int) =~= log0);
    }
    let dot = String::from_str(".");
    let dotdot = String::from_str("..");
    let mut stack: Vec<(String, String)> = Vec::new();
    stack.push((source_root.clone(), target_root.clone()));
    proof {
        assert(source_root@ + Seq::<char>::empty() =~= source_root@);
        assert(target_root@ + Seq::<char>::empty() =~= target_root@);
        assert(stack@[0].0@ == source_root@ + Seq::<char>::empty() && stack@[0].1@
            == target_root@ + Seq::<char>::empty());
    }
    // the step budget is the loop's termination measure; no real directory
    // tree comes near it, and exhausting it is reported as an error
    let mut budget: usize = usize::MAX;
    while stack.len() > 0 && budget > 0
        invariant
            only_binds_appended(log0, log@),
            forall|j: int|
                0 <= j < stack@.len() ==> (exists|rel: Seq<char>|
                    (#[trigger] stack@[j]).0@ == source_root@ + rel && stack@[j].1@
                        == target_root@ + rel),
            forall|k: int|
                log0.len() <= k < log@.len() ==> bind_pair_under(
                    #[trigger] log@[k],
                    source_root@,
                    target_root@,
                ),
        decreases budget,
    {
        budget -= 1;
        match stack.pop() {
            Some(pair) => {
                let ghost rel0 = choose|rel: Seq<char>|
                    pair.0@ == source_root@ + rel && pair.1@ == target_root@ + rel;
                let src = pair.0;
                let tgt = pair.1;
                let src_exists = sys::path_exists(src.as_str());
                let src_is_dir = sys::path_is_dir(src.as_str());
                let tgt_exists = sys::path_exists(tgt.as_str());
                match plan_walk_step(src_exists, src_is_dir, tgt_exists) {
                    WalkAction::Skip => {},
                    WalkAction::Descend => {
                        match sys::read_dir_names(src.as_str()) {
                            Some(names) => {
                                let mut i: usize = 0;
                                while i < names.len()
                                    invariant
                                        i <= names.len(),
                                        forall|j: int|
                                            0 <= j < stack@.len() ==> (exists|rel: Seq<char>|
                                                (#[trigger] stack@[j]).0@ == source_root@ + rel
                                                    && stack@[j].1@ == target_root@ + rel),
                                    decreases names.len() - i,
                                {
                                    match &names[i] {
                                        Some(name) => {
                                            if !(*name == dot) && !(*name == dotdot) {
                                                let mut s = str_concat(src.as_str(), "/");
                                                s.append(name.as_str());
                                                let mut t = str_concat(tgt.as_str(), "/");
                                                t.append(name.as_str());
                                                let ghost before_push = stack@;
                                                proof {
                                                    assert(s@ =~= source_root@ + (rel0 + "/"@
                                                        + name@));
                                                    assert(t@ =~= target_root@ + (rel0 + "/"@
                                                        + name@));
                                                }
                                                stack.push((s, t));
                                                proof {
                                                    assert forall|j: int|
                                                        0 <= j < stack@.len() implies (
                                                    exists|rel: Seq<char>|
                                                        (#[trigger] stack@[j]).0@
                                                            == source_root@ + rel
                                                            && stack@[j].1@ == target_root@
                                                            + rel) by {
                                                        if j < before_push.len() {
                                                            assert(stack@[j]
                                                                == before_push[j]);
                                                        } else {
                                                            assert(stack@[j].0@
                                                                == source_root@ + (rel0 + "/"@
                                                                + name@) && stack@[j].1@
                                                                == target_root@ + (rel0 + "/"@
                                                                + name@));
                                                        }
                                                    }
                                                }
                                            }
                                        },
                                        None => {},
                                    }
                                    i += 1;
                                }
                            },
                            None => {
                                return Err(Error::ReadDirFailed(src));
                            },
                        }
                    },
                    WalkAction::BindFile => {
                        let ghost mid = log@;
                        let _bind_result = bind_mount_logged(src.as_str(), tgt.as_str(), log);
                        proof {
                            assert(only_binds_appended(mid, log@));
                            lemma_only_binds_trans(log0, mid, log@);
                            assert forall|k: int|
                                log0.len() <= k < log@.len() implies bind_pair_under(
                                #[trigger] log@[k],
                                source_root@,
                                target_root@,
                            ) by {
                                if k < mid.len() {
                                    assert(log@[k] == log@.subrange(0, mid.len() as int)[k]);
                                    assert(log@[k] == mid[k]);
                                } else {
                                    assert(log@[k] == log@.last());
                                    assert(bind_at(log@[k], src@, tgt@));
                                    assert(bind_at(
                                        log@[k],
                                        source_root@ + rel0,
                                        target_root@ + rel0,
                                    ));
                                }
                            }
                        }
                    },
                }
            },
            None => {},
        }
    }
    if stack.len() > 0 {
        return Err(Error::WalkTruncated);
    }
    Ok(())
}

/// Applies the live patch of one partition's payload, if the module
/// provides one: every bind joins a path under the module's payload
/// directory onto the live path of the same relative position.
fn patch_partition(content_path: &String, part: Partition, log: &mut Vec<MountEvent>) -> (r:
    Result<(), Error>)
    ensures
        only_binds_appended(old(log)@, final(log)@),
        forall|k: int|
            old(log)@.len() <= k < final(log)@.len() ==> bind_pair_under(
                #[trigger] final(log)@[k],
                content_path@ + "/"@,
                "/"@,
            ),
        r is Err ==> (r matches Err(Error::ReadDirFailed(_))) || r matches Err(Error::WalkTruncated),
{
    proof {
        assert(log@.subrange(0, old(log)@.len() as int) =~= old(log)@);
    }
    let mut source = str_concat(content_path.as_str(), "/");
    source.append(partition_name(part));
    let target = str_concat("/", partition_name(part));
    if sys::path_exists(source.as_str()) {
        let r = bind_mount_recursive(&source, &target, log);
        proof {
            assert forall|k: int|
                old(log)@.len() <= k < log@.len() implies bind_pair_under(
                #[trigger] log@[k],
                content_path@ + "/"@,
                "/"@,
            ) by {
                let rel2 = choose|rel2: Seq<char>|
                    bind_at(log@[k], source@ + rel2, target@ + rel2);
                assert((content_path@ + "/"@) + (partition_name_view(part) + rel2) =~= source@
                    + rel2);
                assert("/"@ + (partition_name_view(part) + rel2) =~= target@ + rel2);
                assert(bind_at(
                    log@[k],
                    (content_path@ + "/"@) + (partition_name_view(part) + rel2),
                    "/"@ + (partition_name_view(part) + rel2),
                ));
            }
        }
        r
    } else {
        Ok(())
    }
}

/// Live-patches one explicitly requested module: the module must exist in
/// both stores, not be disabled and not carry the skip-mount marker (the
/// error names the first failing check, and a validation failure performs
/// no mount at all); then every partition payload the module provides is
/// walked and its files are bind-mounted over the live tree. Every bind
/// joins a file under the module's content entry onto the live path of the
/// same relative position; no overlay is ever constructed by this path.
#[verifier::loop_isolation(false)]
pub fn patch_specific_module(
    metadata_dir: &str,
    content_dir: &str,
    module_id: &String,
    log: &mut Vec<MountEvent>,
) -> (r: Result<(), Error>)
    ensures
        only_binds_appended(old(log)@, final(log)@),
        forall|k: int|
            old(log)@.len() <= k < final(log)@.len() ==> bind_pair_under(
                #[trigger] final(log)@[k],
                content_dir@ + "/"@ + module_id@ + "/"@,
                "/"@,
            ),
        (r matches Err(Error::ModuleNotInMetadata(_)) || r matches Err(
            Error::ModuleNotInContent(_),
        ) || r matches Err(Error::ModuleDisabled(_)) || r matches Err(
            Error::ModuleSkipMount(_),
        )) ==> final(log)@ == old(log)@,
        r is Err ==> (r matches Err(Error::ModuleNotInMetadata(m)) && m@ == module_id@) || (
        r matches Err(Error::ModuleNotInContent(m)) && m@ == module_id@) || (r matches Err(
            Error::ModuleDisabled(m),
        ) && m@ == module_id@) || (r matches Err(Error::ModuleSkipMount(m)) && m@
            == module_id@) || (r matches Err(Error::ReadDirFailed(_))) || r matches Err(Error::WalkTruncated),
{
    let ghost log0 = log@;
    proof {
        assert(log@.subrange(0, log0.len() as int) =~= log0);
    }
    let mut meta_path = str_concat(metadata_dir, "/");
    meta_path.append(module_id.as_str());
    let mut content_path = str_concat(content_dir, "/");
    content_path.append(module_id.as_str());
    let meta_exists = sys::path_exists(meta_path.as_str());
    let content_exists = sys::path_exists(content_path.as_str());
    let disable_path = str_concat(meta_path.as_str(), "/disable");
    let has_disable = sys::path_exists(disable_path.as_str());
    let skip_path = str_concat(meta_path.as_str(), "/skip_mount");
    let has_skip_mount = sys::path_exists(skip_path.as_str());
    match validate_patch_module(
        module_id,
        meta_exists,
        content_exists,
        has_disable,
        has_skip_mount,
    ) {
        Ok(()) => {},
        Err(e) => {
            return Err(e);
        },
    }
    let parts: Vec<Partition> = vec![
        Partition::System,
        Partition::Vendor,
        Partition::Product,
        Partition::SystemExt,
        Partition::Odm,
        Partition::Oem,
    ];
    let mut i: usize = 0;
    while i < parts.len()
        invariant
            i <= parts.len(),
            only_binds_appended(log0, log@),
            forall|k: int|
                log0.len() <= k < log@.len() ==> bind_pair_under(
                    #[trigger] log@[k],
                    content_dir@ + "/"@ + module_id@ + "/"@,
                    "/"@,
                ),
        decreases parts.len() - i,
    {
        let ghost mid = log@;
        let step = patch_partition(&content_path, parts[i], log);
        proof {
            lemma_only_binds_trans(log0, mid, log@);
            assert(content_path@ + "/"@ =~= content_dir@ + "/"@ + module_id@ + "/"@);
            assert forall|k: int|
                log0.len() <= k < log@.len() implies bind_pair_under(
                #[trigger] log@[k],
                content_dir@ + "/"@ + module_id@ + "/"@,
                "/"@,
            ) by {
                if k < mid.len() {
                    assert(log@[k] == log@.subrange(0, mid.len() as int)[k]);
                    assert(log@[k] == mid[k]);
                } else {
                    assert(bind_pair_under(log@[k], content_path@ + "/"@, "/"@));
                }
            }
        }
        match step {
            Ok(()) => {},
            Err(e) => {
                return Err(e);
            },
        }
        i += 1;
    }
    Ok(())
}

} // verus!
