use meta_overlayfs::errors::Error;
use meta_overlayfs::model::{
    build_partition_lowerdirs, enabled_of, is_enabled, module_part_path, partition_name, plan_child_mount,
    plan_walk_step, validate_patch_module, ChildPlan, LayerFacts, ModuleContentFacts, ModuleFacts,
    Partition, WalkAction,
};

fn module(id: &str, is_dir: bool, disable: bool, skip: bool, manifest: bool, rw: bool) -> ModuleFacts {
    ModuleFacts {
        id: id.to_string(),
        is_dir,
        has_disable: disable,
        has_skip_mount: skip,
        has_manifest: manifest,
        is_rw_root: rw,
    }
}

fn content(id: &str, exists: bool, parts: [bool; 6]) -> ModuleContentFacts {
    ModuleContentFacts {
        id: id.to_string(),
        content_exists: exists,
        has_system: parts[0],
        has_vendor: parts[1],
        has_product: parts[2],
        has_system_ext: parts[3],
        has_odm: parts[4],
        has_oem: parts[5],
    }
}

#[test]
fn enablement_predicate() {
    assert!(is_enabled(&module("m", true, false, false, true, false)));
    assert!(!is_enabled(&module("m", false, false, false, true, false)));
    assert!(!is_enabled(&module("m", true, true, false, true, false)));
    assert!(!is_enabled(&module("m", true, false, true, true, false)));
    assert!(!is_enabled(&module("m", true, false, false, false, false)));
    // the writable-overlay storage area needs no manifest
    assert!(is_enabled(&module("rw", true, false, false, false, true)));
    // but markers still disable it
    assert!(!is_enabled(&module("rw", true, true, false, false, true)));
}

#[test]
fn enabled_list_keeps_discovery_order() {
    let mods = vec![
        module("zeta", true, false, false, true, false),
        module("alpha", true, false, false, true, false),
        module("off", true, true, false, true, false),
        module("beta", true, false, false, true, false),
    ];
    let ids = enabled_of(&mods);
    assert_eq!(ids.len(), 3);
    assert_eq!(ids[0], "zeta");
    assert_eq!(ids[1], "alpha");
    assert_eq!(ids[2], "beta");
}

#[test]
fn metadata_scan_scenario() {
    // mod1: no markers, has manifest; mod2: disable marker
    let mods = vec![
        module("mod1", true, false, false, true, false),
        module("mod2", true, true, false, true, false),
    ];
    let ids = enabled_of(&mods);
    assert_eq!(ids.len(), 1);
    assert_eq!(ids[0], "mod1");

    let facts = vec![content("mod1", true, [true, false, false, false, false, false])];
    let lists = build_partition_lowerdirs("/data/content", &facts);
    assert_eq!(lists.system.len(), 1);
    assert_eq!(lists.system[0], "/data/content/mod1/system");
    assert!(lists.vendor.is_empty());
    assert!(lists.product.is_empty());
    assert!(lists.system_ext.is_empty());
    assert!(lists.odm.is_empty());
    assert!(lists.oem.is_empty());
}

#[test]
fn layer_order_follows_module_order() {
    // modules a then b both provide system/: a's layer must come first
    let facts = vec![
        content("a", true, [true, true, false, false, false, false]),
        content("b", true, [true, false, false, false, false, false]),
    ];
    let lists = build_partition_lowerdirs("/c", &facts);
    assert_eq!(lists.system.len(), 2);
    assert_eq!(lists.system[0], "/c/a/system");
    assert_eq!(lists.system[1], "/c/b/system");
    assert_eq!(lists.vendor.len(), 1);
    assert_eq!(lists.vendor[0], "/c/a/vendor");
}

#[test]
fn missing_content_directory_contributes_nothing() {
    let facts = vec![
        content("gone", false, [true, true, true, true, true, true]),
        content("here", true, [false, true, false, false, false, false]),
    ];
    let lists = build_partition_lowerdirs("/c", &facts);
    assert!(lists.system.is_empty());
    assert_eq!(lists.vendor.len(), 1);
    assert_eq!(lists.vendor[0], "/c/here/vendor");
}

fn layer(path: &str, exists: bool, is_dir: bool) -> LayerFacts {
    LayerFacts { path: path.to_string(), exists, is_dir }
}

#[test]
fn child_plan_binds_stock_when_no_module_touches_it() {
    let facts = vec![layer("/c/a/x", false, false), layer("/c/b/x", false, false)];
    let plan = plan_child_mount(&facts, true);
    assert!(matches!(plan, ChildPlan::BindStock));
}

#[test]
fn child_plan_leaves_non_directory_stock_alone() {
    // the module provides a plain file where the live tree has a mount point
    // whose stock content is itself no directory: left untouched
    let facts = vec![layer("/c/m/vendor/n", true, false)];
    let plan = plan_child_mount(&facts, false);
    assert!(matches!(plan, ChildPlan::Leave));
}

#[test]
fn child_plan_blocked_by_non_directory_entry() {
    let facts = vec![layer("/c/a/x", true, true), layer("/c/b/x", true, false)];
    let plan = plan_child_mount(&facts, true);
    assert!(matches!(plan, ChildPlan::Leave));
}

#[test]
fn child_plan_overlays_module_directories_in_order() {
    let facts = vec![
        layer("/c/a/x", true, true),
        layer("/c/b/x", false, false),
        layer("/c/d/x", true, true),
    ];
    match plan_child_mount(&facts, true) {
        ChildPlan::Overlay(dirs) => {
            assert_eq!(dirs.len(), 2);
            assert_eq!(dirs[0], "/c/a/x");
            assert_eq!(dirs[1], "/c/d/x");
        }
        _ => panic!("expected an overlay plan"),
    }
}

#[test]
fn patch_validation_accepts_a_sound_module() {
    let id = "mod1".to_string();
    assert!(validate_patch_module(&id, true, true, false, false).is_ok());
}

#[test]
fn patch_validation_reports_missing_content_entry() {
    let id = "ghost_module".to_string();
    match validate_patch_module(&id, true, false, false, false) {
        Err(Error::ModuleNotInContent(m)) => assert_eq!(m, "ghost_module"),
        _ => panic!("expected the missing content entry to be reported"),
    }
}

#[test]
fn patch_validation_reports_each_failing_check() {
    let id = "m".to_string();
    assert!(matches!(
        validate_patch_module(&id, false, true, false, false),
        Err(Error::ModuleNotInMetadata(_))
    ));
    assert!(matches!(
        validate_patch_module(&id, true, true, true, false),
        Err(Error::ModuleDisabled(_))
    ));
    assert!(matches!(
        validate_patch_module(&id, true, true, false, true),
        Err(Error::ModuleSkipMount(_))
    ));
}

#[test]
fn walk_steps_follow_the_probed_facts() {
    // a missing source is nothing to patch
    assert!(matches!(plan_walk_step(false, false, true), WalkAction::Skip));
    assert!(matches!(plan_walk_step(false, true, true), WalkAction::Skip));
    // a directory is entered only when the live directory exists
    assert!(matches!(plan_walk_step(true, true, true), WalkAction::Descend));
    assert!(matches!(plan_walk_step(true, true, false), WalkAction::Skip));
    // a file is bound only over an existing live file
    assert!(matches!(plan_walk_step(true, false, true), WalkAction::BindFile));
    assert!(matches!(plan_walk_step(true, false, false), WalkAction::Skip));
}

#[test]
fn partition_names() {
    assert_eq!(partition_name(Partition::System), "system");
    assert_eq!(partition_name(Partition::Vendor), "vendor");
    assert_eq!(partition_name(Partition::Product), "product");
    assert_eq!(partition_name(Partition::SystemExt), "system_ext");
    assert_eq!(partition_name(Partition::Odm), "odm");
    assert_eq!(partition_name(Partition::Oem), "oem");
}

#[test]
fn module_part_path_spelling() {
    let id = "m1".to_string();
    assert_eq!(module_part_path("/c", &id, Partition::Vendor), "/c/m1/vendor");
    assert_eq!(module_part_path("/c", &id, Partition::SystemExt), "/c/m1/system_ext");
}

#[test]
fn error_descriptions_name_the_module() {
    let e = Error::ModuleNotInContent("ghost".to_string());
    assert_eq!(e.describe(), "module not found in content directory: ghost");
    let e = Error::ModuleDisabled("m".to_string());
    assert_eq!(e.describe(), "module is disabled: m");
    let e = Error::ModuleNotInMetadata("m".to_string());
    assert_eq!(e.describe(), "module not found in metadata directory: m");
    let e = Error::ModuleSkipMount("m".to_string());
    assert_eq!(e.describe(), "module has skip_mount: m");
}

#[test]
fn error_descriptions_name_the_path() {
    assert_eq!(
        Error::Errno(1).describe(),
        "kernel refused the mount operation"
    );
    assert_eq!(
        Error::ProcMounts.describe(),
        "cannot read the table of current mounts"
    );
    assert_eq!(
        Error::ChdirFailed("/system".to_string()).describe(),
        "failed to enter partition root /system"
    );
    assert_eq!(
        Error::MetadataDirUnreadable("/m".to_string()).describe(),
        "failed to read metadata directory /m"
    );
    assert_eq!(
        Error::ReadDirFailed("/c/m/system".to_string()).describe(),
        "failed to read directory /c/m/system"
    );
    assert_eq!(
        Error::WalkTruncated.describe(),
        "directory walk ran out of steps"
    );
    assert_eq!(
        Error::RootOverlayFailed("/vendor".to_string()).describe(),
        "mount overlayfs for root failed: /vendor"
    );
    assert_eq!(
        Error::ChildMountReverted("/vendor".to_string()).describe(),
        "failed to mount overlay for child of /vendor"
    );
}
