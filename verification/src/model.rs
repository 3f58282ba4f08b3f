//! Pure decision model of the orchestrator: what the probed state of the
//! metadata store, the content store and the live tree means for mounting,
//! stated over plain values so that every decision the mount pass takes is a
//! verified function of those facts.

use vstd::prelude::*;

use crate::errors::Error;

verus! {

// ----- module enablement -----

/// Facts probed from one entry of the metadata store.
pub struct ModuleFacts {
    /// Directory name of the entry: the module identity.
    pub id: String,
    /// The metadata entry is itself a directory.
    pub is_dir: bool,
    /// The disable marker file is present.
    pub has_disable: bool,
    /// The skip-mount marker file is present.
    pub has_skip_mount: bool,
    /// The manifest file is present.
    pub has_manifest: bool,
    /// The entry is the designated writable-overlay storage area,
    /// which is exempt from the manifest requirement.
    pub is_rw_root: bool,
}

/// Enablement predicate: a module takes part in mounting iff its metadata
/// entry is a directory, carries no disable marker, no skip-mount marker,
/// and holds the manifest file (or is the exempt storage area).
pub open spec fn module_enabled(m: ModuleFacts) -> bool {
    m.is_dir && !m.has_disable && !m.has_skip_mount && (m.has_manifest || m.is_rw_root)
}

/// Executable form of the enablement predicate.
pub fn is_enabled(m: &ModuleFacts) -> (r: bool)
    ensures
        r == module_enabled(*m),
{
    m.is_dir && !m.has_disable && !m.has_skip_mount && (m.has_manifest || m.is_rw_root)
}

/// The identities of the enabled modules, in discovery order.
pub open spec fn enabled_ids(ms: Seq<ModuleFacts>) -> Seq<Seq<char>>
    decreases ms.len(),
{
    if ms.len() == 0 {
        Seq::empty()
    } else {
        enabled_ids(ms.drop_last()) + if module_enabled(ms.last()) {
            seq![ms.last().id@]
        } else {
            Seq::empty()
        }
    }
}

/// Selects the enabled modules, in the order given.
pub fn enabled_of(mods: &Vec<ModuleFacts>) -> (r: Vec<String>)
    ensures
        r.deep_view() == enabled_ids(mods@),
{
    let mut r: Vec<String> = Vec::new();
    proof {
        assert(r.deep_view() =~= enabled_ids(mods@.take(0)));
    }
    let mut i: usize = 0;
    while i < mods.len()
        invariant
            i <= mods.len(),
            r.deep_view() == enabled_ids(mods@.take(i as int)),
        decreases mods.len() - i,
    {
        let ghost before = r.deep_view();
        if is_enabled(&mods[i]) {
            r.push(mods[i].id.clone());
            proof {
                assert(r.deep_view() =~= before + seq![mods@[i as int].id@]);
            }
        }
        proof {
            assert(mods@.take(i + 1).drop_last() =~= mods@.take(i as int));
            assert(mods@.take(i + 1).last() == mods@[i as int]);
        }
        i += 1;
    }
    proof {
        assert(mods@.take(mods@.len() as int) =~= mods@);
    }
    r
}

/// A module identity stands in the enabled list iff some module of that
/// identity satisfies the enablement predicate: no disable marker, no
/// skip-mount marker, and a manifest (or the exempt storage area).
pub proof fn lemma_enabled_ids_iff(ms: Seq<ModuleFacts>, id: Seq<char>)
    ensures
        enabled_ids(ms).contains(id) <==> exists|k: int|
            0 <= k < ms.len() && (#[trigger] ms[k]).id@ == id && module_enabled(ms[k]),
    decreases ms.len(),
{
    if ms.len() == 0 {
    } else {
        let dl = ms.drop_last();
        lemma_enabled_ids_iff(dl, id);
        let left = enabled_ids(dl);
        if enabled_ids(ms).contains(id) {
            let a = choose|a: int| 0 <= a < enabled_ids(ms).len() && enabled_ids(ms)[a] == id;
            if a < left.len() {
                assert(left[a] == id);
                let k = choose|k: int|
                    0 <= k < dl.len() && (#[trigger] dl[k]).id@ == id && module_enabled(dl[k]);
                assert(ms[k].id@ == id && module_enabled(ms[k]));
            } else {
                assert(module_enabled(ms.last()) && ms.last().id@ == id);
                assert(ms[ms.len() - 1].id@ == id && module_enabled(ms[ms.len() - 1]));
            }
        }
        if exists|k: int| 0 <= k < ms.len() && (#[trigger] ms[k]).id@ == id && module_enabled(
            ms[k],
        ) {
            let k = choose|k: int|
                0 <= k < ms.len() && (#[trigger] ms[k]).id@ == id && module_enabled(ms[k]);
            if k < ms.len() - 1 {
                assert(dl[k].id@ == id && module_enabled(dl[k]));
                let a = choose|a: int| 0 <= a < left.len() && left[a] == id;
                assert(enabled_ids(ms)[a] == id);
            } else {
                assert(enabled_ids(ms)[left.len() as int] == id);
            }
        }
    }
}

// ----- per-partition lower-directory lists -----

/// The fixed set of partition roots this system manages.
#[derive(Clone, Copy, PartialEq, Eq, Structural)]
pub enum Partition {
    System,
    Vendor,
    Product,
    SystemExt,
    Odm,
    Oem,
}

/// The directory name of a partition, as the content store spells it.
pub open spec fn partition_name_view(p: Partition) -> Seq<char> {
    match p {
        Partition::System => "system"@,
        Partition::Vendor => "vendor"@,
        Partition::Product => "product"@,
        Partition::SystemExt => "system_ext"@,
        Partition::Odm => "odm"@,
        Partition::Oem => "oem"@,
    }
}

/// Executable partition name.
pub fn partition_name(p: Partition) -> (r: &'static str)
    ensures
        r@ == partition_name_view(p),
{
    match p {
        Partition::System => "system",
        Partition::Vendor => "vendor",
        Partition::Product => "product",
        Partition::SystemExt => "system_ext",
        Partition::Odm => "odm",
        Partition::Oem => "oem",
    }
}

/// Facts probed from the content store for one enabled module.
pub struct ModuleContentFacts {
    /// The module identity.
    pub id: String,
    /// The module's content directory exists at all.
    pub content_exists: bool,
    /// Which partition payload subdirectories are directories.
    pub has_system: bool,
    pub has_vendor: bool,
    pub has_product: bool,
    pub has_system_ext: bool,
    pub has_odm: bool,
    pub has_oem: bool,
}

/// The module provides a payload directory for the partition.
pub open spec fn has_part(m: ModuleContentFacts, p: Partition) -> bool {
    match p {
        Partition::System => m.has_system,
        Partition::Vendor => m.has_vendor,
        Partition::Product => m.has_product,
        Partition::SystemExt => m.has_system_ext,
        Partition::Odm => m.has_odm,
        Partition::Oem => m.has_oem,
    }
}

/// The module contributes a layer to the partition.
pub open spec fn contributes(m: ModuleContentFacts, p: Partition) -> bool {
    m.content_exists && has_part(m, p)
}

/// The lower-directory path a module contributes for a partition.
pub open spec fn module_part_dir(cd: Seq<char>, id: Seq<char>, p: Partition) -> Seq<char> {
    cd + "/"@ + id + "/"@ + partition_name_view(p)
}

/// The partition's lower-directory list: one path per contributing module,
/// in module order.
pub open spec fn part_dirs(cd: Seq<char>, ms: Seq<ModuleContentFacts>, p: Partition) -> Seq<
    Seq<char>,
>
    decreases ms.len(),
{
    if ms.len() == 0 {
        Seq::empty()
    } else {
        part_dirs(cd, ms.drop_last(), p) + if contributes(ms.last(), p) {
            seq![module_part_dir(cd, ms.last().id@, p)]
        } else {
            Seq::empty()
        }
    }
}

/// The per-partition lower-directory lists of one mounting run.
pub struct PartitionLists {
    pub system: Vec<String>,
    pub vendor: Vec<String>,
    pub product: Vec<String>,
    pub system_ext: Vec<String>,
    pub odm: Vec<String>,
    pub oem: Vec<String>,
}

/// Builds the module's lower-directory path for one partition.
pub fn module_part_path(content_dir: &str, id: &String, p: Partition) -> (r: String)
    ensures
        r@ == module_part_dir(content_dir@, id@, p),
{
    let mut s = crate::strutil::str_concat(content_dir, "/");
    s.append(id.as_str());
    s.append("/");
    s.append(partition_name(p));
    s
}

/// Builds every partition's lower-directory list from the probed content
/// facts of the enabled modules, in module order.
pub fn build_partition_lowerdirs(content_dir: &str, mods: &Vec<ModuleContentFacts>) -> (r: PartitionLists)
    ensures
        r.system.deep_view() == part_dirs(content_dir@, mods@, Partition::System),
        r.vendor.deep_view() == part_dirs(content_dir@, mods@, Partition::Vendor),
        r.product.deep_view() == part_dirs(content_dir@, mods@, Partition::Product),
        r.system_ext.deep_view() == part_dirs(content_dir@, mods@, Partition::SystemExt),
        r.odm.deep_view() == part_dirs(content_dir@, mods@, Partition::Odm),
        r.oem.deep_view() == part_dirs(content_dir@, mods@, Partition::Oem),
{
    let mut r = PartitionLists {
        system: Vec::new(),
        vendor: Vec::new(),
        product: Vec::new(),
        system_ext: Vec::new(),
        odm: Vec::new(),
        oem: Vec::new(),
    };
    let ghost cd = content_dir@;
    proof {
        assert(r.system.deep_view() =~= part_dirs(cd, mods@.take(0), Partition::System));
        assert(r.vendor.deep_view() =~= part_dirs(cd, mods@.take(0), Partition::Vendor));
        assert(r.product.deep_view() =~= part_dirs(cd, mods@.take(0), Partition::Product));
        assert(r.system_ext.deep_view() =~= part_dirs(cd, mods@.take(0), Partition::SystemExt));
        assert(r.odm.deep_view() =~= part_dirs(cd, mods@.take(0), Partition::Odm));
        assert(r.oem.deep_view() =~= part_dirs(cd, mods@.take(0), Partition::Oem));
    }
    let mut i: usize = 0;
    while i < mods.len()
        invariant
            i <= mods.len(),
            cd == content_dir@,
            r.system.deep_view() == part_dirs(cd, mods@.take(i as int), Partition::System),
            r.vendor.deep_view() == part_dirs(cd, mods@.take(i as int), Partition::Vendor),
            r.product.deep_view() == part_dirs(cd, mods@.take(i as int), Partition::Product),
            r.system_ext.deep_view() == part_dirs(
                cd,
                mods@.take(i as int),
                Partition::SystemExt,
            ),
            r.odm.deep_view() == part_dirs(cd, mods@.take(i as int), Partition::Odm),
            r.oem.deep_view() == part_dirs(cd, mods@.take(i as int), Partition::Oem),
        decreases mods.len() - i,
    {
        let m = &mods[i];
        if m.content_exists {
            let ghost before = r.system.deep_view();
            if m.has_system {
                let d = module_part_path(content_dir, &m.id, Partition::System);
                r.system.push(d);
                proof {
                    assert(r.system.deep_view() =~= before + seq![
                        module_part_dir(cd, mods@[i as int].id@, Partition::System),
                    ]);
                }
            }
            let ghost before = r.vendor.deep_view();
            if m.has_vendor {
                let d = module_part_path(content_dir, &m.id, Partition::Vendor);
                r.vendor.push(d);
                proof {
                    assert(r.vendor.deep_view() =~= before + seq![
                        module_part_dir(cd, mods@[i as int].id@, Partition::Vendor),
                    ]);
                }
            }
            let ghost before = r.product.deep_view();
            if m.has_product {
                let d = module_part_path(content_dir, &m.id, Partition::Product);
                r.product.push(d);
                proof {
                    assert(r.product.deep_view() =~= before + seq![
                        module_part_dir(cd, mods@[i as int].id@, Partition::Product),
                    ]);
                }
            }
            let ghost before = r.system_ext.deep_view();
            if m.has_system_ext {
                let d = module_part_path(content_dir, &m.id, Partition::SystemExt);
                r.system_ext.push(d);
                proof {
                    assert(r.system_ext.deep_view() =~= before + seq![
                        module_part_dir(cd, mods@[i as int].id@, Partition::SystemExt),
                    ]);
                }
            }
            let ghost before = r.odm.deep_view();
            if m.has_odm {
                let d = module_part_path(content_dir, &m.id, Partition::Odm);
                r.odm.push(d);
                proof {
                    assert(r.odm.deep_view() =~= before + seq![
                        module_part_dir(cd, mods@[i as int].id@, Partition::Odm),
                    ]);
                }
            }
            let ghost before = r.oem.deep_view();
            if m.has_oem {
                let d = module_part_path(content_dir, &m.id, Partition::Oem);
                r.oem.push(d);
                proof {
                    assert(r.oem.deep_view() =~= before + seq![
                        module_part_dir(cd, mods@[i as int].id@, Partition::Oem),
                    ]);
                }
            }
        }
        proof {
            assert(mods@.take(i + 1).drop_last() =~= mods@.take(i as int));
            assert(mods@.take(i + 1).last() == mods@[i as int]);
        }
        i += 1;
    }
    proof {
        assert(mods@.take(mods@.len() as int) =~= mods@);
    }
    r
}

/// The list splits at any module index: layers of earlier modules first.
pub proof fn lemma_part_dirs_split(
    cd: Seq<char>,
    ms: Seq<ModuleContentFacts>,
    p: Partition,
    k: int,
)
    requires
        0 <= k <= ms.len(),
    ensures
        part_dirs(cd, ms, p) == part_dirs(cd, ms.take(k), p) + part_dirs(cd, ms.skip(k), p),
    decreases ms.len(),
{
    if k == ms.len() {
        assert(ms.take(k) =~= ms);
        assert(ms.skip(k) =~= Seq::empty());
        assert(part_dirs(cd, ms, p) =~= part_dirs(cd, ms.take(k), p) + part_dirs(
            cd,
            ms.skip(k),
            p,
        ));
    } else {
        let dl = ms.drop_last();
        lemma_part_dirs_split(cd, dl, p, k);
        assert(dl.take(k) =~= ms.take(k));
        assert(ms.skip(k).drop_last() =~= dl.skip(k));
        assert(ms.skip(k).last() == ms.last());
        assert(ms.skip(k).len() > 0);
        assert(part_dirs(cd, ms, p) =~= part_dirs(cd, ms.take(k), p) + part_dirs(
            cd,
            ms.skip(k),
            p,
        ));
    }
}

/// A contributing module's layer stands in the list.
pub proof fn lemma_part_dirs_contains(
    cd: Seq<char>,
    ms: Seq<ModuleContentFacts>,
    p: Partition,
    k: int,
)
    requires
        0 <= k < ms.len(),
        contributes(ms[k], p),
    ensures
        part_dirs(cd, ms, p).contains(module_part_dir(cd, ms[k].id@, p)),
    decreases ms.len(),
{
    let dl = ms.drop_last();
    if k == ms.len() - 1 {
        assert(part_dirs(cd, ms, p).last() == module_part_dir(cd, ms[k].id@, p));
    } else {
        lemma_part_dirs_contains(cd, dl, p, k);
        let left = part_dirs(cd, dl, p);
        let a = choose|a: int| 0 <= a < left.len() && left[a] == module_part_dir(cd, dl[k].id@, p);
        assert(part_dirs(cd, ms, p)[a] == module_part_dir(cd, ms[k].id@, p));
    }
}

/// If a contributing module heads the list of modules, its layer heads the
/// lower-directory list.
pub proof fn lemma_part_dirs_first(cd: Seq<char>, ms: Seq<ModuleContentFacts>, p: Partition)
    requires
        ms.len() > 0,
        contributes(ms[0], p),
    ensures
        part_dirs(cd, ms, p).len() > 0,
        part_dirs(cd, ms, p)[0] == module_part_dir(cd, ms[0].id@, p),
    decreases ms.len(),
{
    if ms.len() == 1 {
        assert(ms.drop_last().len() == 0);
        assert(part_dirs(cd, ms.drop_last(), p) =~= Seq::<Seq<char>>::empty());
        assert(ms.last() == ms[0]);
        assert(part_dirs(cd, ms, p) =~= seq![module_part_dir(cd, ms[0].id@, p)]);
    } else {
        let dl = ms.drop_last();
        lemma_part_dirs_first(cd, dl, p);
        assert(part_dirs(cd, ms, p)[0] == part_dirs(cd, dl, p)[0]);
    }
}

/// Layer ordering law: if modules at positions `i` then `j` (discovery
/// order) both contribute a payload for partition `p`, the built list holds
/// the earlier module's layer strictly before the later module's layer.
pub proof fn lemma_layer_order(
    cd: Seq<char>,
    ms: Seq<ModuleContentFacts>,
    p: Partition,
    i: int,
    j: int,
)
    requires
        0 <= i < j < ms.len(),
        contributes(ms[i], p),
        contributes(ms[j], p),
    ensures
        exists|a: int, b: int|
            0 <= a < b < part_dirs(cd, ms, p).len() && #[trigger] part_dirs(cd, ms, p)[a]
                == module_part_dir(cd, ms[i].id@, p) && #[trigger] part_dirs(cd, ms, p)[b]
                == module_part_dir(cd, ms[j].id@, p),
{
    lemma_part_dirs_split(cd, ms, p, j);
    let left = part_dirs(cd, ms.take(j), p);
    let right = part_dirs(cd, ms.skip(j), p);
    assert(ms.take(j)[i] == ms[i]);
    lemma_part_dirs_contains(cd, ms.take(j), p, i);
    let a = choose|a: int| 0 <= a < left.len() && left[a] == module_part_dir(cd, ms[i].id@, p);
    assert(ms.skip(j)[0] == ms[j]);
    lemma_part_dirs_first(cd, ms.skip(j), p);
    let b = left.len() as int;
    assert(part_dirs(cd, ms, p)[a] == module_part_dir(cd, ms[i].id@, p));
    assert(part_dirs(cd, ms, p)[b] == module_part_dir(cd, ms[j].id@, p));
    assert(0 <= a < b < part_dirs(cd, ms, p).len());
}

// ----- child mount points -----

/// Facts probed for one module's layer candidate under a child mount point:
/// the path `module root + relative`, and what stands on disk there.
pub struct LayerFacts {
    /// The candidate layer path.
    pub path: String,
    /// Something exists at the path.
    pub exists: bool,
    /// The path is a directory.
    pub is_dir: bool,
}

/// What to do with one nested mount point hidden by the root overlay.
pub enum ChildPlan {
    /// No module touches the path: re-expose the stock content by a bind mount.
    BindStock,
    /// Leave the mount point untouched.
    Leave,
    /// Overlay the collected module layers over the stock content.
    Overlay(Vec<String>),
}

/// Some module has anything at the candidate path.
pub open spec fn any_exists(fs: Seq<LayerFacts>) -> bool {
    exists|k: int| 0 <= k < fs.len() && (#[trigger] fs[k]).exists
}

/// Some module blocks the path: a non-directory entry, an explicit
/// instruction to blank the stock content rather than layer over it.
pub open spec fn any_blocker(fs: Seq<LayerFacts>) -> bool {
    exists|k: int| 0 <= k < fs.len() && (#[trigger] fs[k]).exists && !fs[k].is_dir
}

/// The candidate paths that are directories, in module order.
pub open spec fn dir_paths(fs: Seq<LayerFacts>) -> Seq<Seq<char>>
    decreases fs.len(),
{
    if fs.len() == 0 {
        Seq::empty()
    } else {
        dir_paths(fs.drop_last()) + if fs.last().is_dir {
            seq![fs.last().path@]
        } else {
            Seq::empty()
        }
    }
}

/// Decides the treatment of one nested mount point from the probed facts:
/// bind the stock content back if no module touches the path; leave the
/// point alone if the stock content is no directory, if a module blocks the
/// path with a non-directory entry, or if no module directory remains; else
/// overlay the module layer directories in module order.
pub fn plan_child_mount(facts: &Vec<LayerFacts>, stock_is_dir: bool) -> (p: ChildPlan)
    ensures
        !any_exists(facts@) ==> p is BindStock,
        any_exists(facts@) && !stock_is_dir ==> p is Leave,
        any_exists(facts@) && stock_is_dir && any_blocker(facts@) ==> p is Leave,
        any_exists(facts@) && stock_is_dir && !any_blocker(facts@) ==> (if dir_paths(
            facts@,
        ).len() == 0 {
            p is Leave
        } else {
            p matches ChildPlan::Overlay(dirs) && dirs.deep_view() == dir_paths(facts@)
        }),
{
    let mut seen_exists = false;
    let mut seen_blocker = false;
    let mut dirs: Vec<String> = Vec::new();
    proof {
        assert(dirs.deep_view() =~= dir_paths(facts@.take(0)));
    }
    let mut i: usize = 0;
    while i < facts.len()
        invariant
            i <= facts.len(),
            seen_exists == any_exists(facts@.take(i as int)),
            seen_blocker == any_blocker(facts@.take(i as int)),
            dirs.deep_view() == dir_paths(facts@.take(i as int)),
        decreases facts.len() - i,
    {
        let ghost before = dirs.deep_view();
        let f = &facts[i];
        if f.exists {
            seen_exists = true;
        }
        if f.exists && !f.is_dir {
            seen_blocker = true;
        }
        if f.is_dir {
            dirs.push(f.path.clone());
            proof {
                assert(dirs.deep_view() =~= before + seq![facts@[i as int].path@]);
            }
        }
        proof {
            assert(facts@.take(i + 1).drop_last() =~= facts@.take(i as int));
            assert(facts@.take(i + 1).last() == facts@[i as int]);
            if any_exists(facts@.take(i + 1)) && !facts@[i as int].exists {
                let k = choose|k: int|
                    0 <= k < i + 1 && (#[trigger] facts@.take(i + 1)[k]).exists;
                assert(facts@.take(i as int)[k].exists);
            }
            if any_exists(facts@.take(i as int)) {
                let k = choose|k: int| 0 <= k < i && (#[trigger] facts@.take(i as int)[k]).exists;
                assert(facts@.take(i + 1)[k].exists);
            }
            if any_blocker(facts@.take(i + 1)) && !(facts@[i as int].exists
                && !facts@[i as int].is_dir) {
                let k = choose|k: int|
                    0 <= k < i + 1 && (#[trigger] facts@.take(i + 1)[k]).exists && !facts@.take(
                        i + 1,
                    )[k].is_dir;
                assert(facts@.take(i as int)[k].exists && !facts@.take(i as int)[k].is_dir);
            }
            if any_blocker(facts@.take(i as int)) {
                let k = choose|k: int|
                    0 <= k < i && (#[trigger] facts@.take(i as int)[k]).exists && !facts@.take(
                        i as int,
                    )[k].is_dir;
                assert(facts@.take(i + 1)[k].exists && !facts@.take(i + 1)[k].is_dir);
            }
        }
        i += 1;
    }
    proof {
        assert(facts@.take(facts@.len() as int) =~= facts@);
    }
    if !seen_exists {
        ChildPlan::BindStock
    } else if !stock_is_dir {
        ChildPlan::Leave
    } else if seen_blocker {
        ChildPlan::Leave
    } else if dirs.len() == 0 {
        ChildPlan::Leave
    } else {
        ChildPlan::Overlay(dirs)
    }
}

// ----- live-patch walk steps -----

/// What the live-patch walk does with one worklist node.
pub enum WalkAction {
    /// Nothing stands here to patch, or the live tree has no place for it.
    Skip,
    /// A source directory whose live counterpart exists: walk into it.
    Descend,
    /// A source file whose live counterpart exists: bind it over the live
    /// file.
    BindFile,
}

/// Decides one node of the live-patch walk from the probed facts: a missing
/// source is skipped; a source directory is entered only when the live
/// target directory exists (this mode never creates structure); a source
/// file is bound only over an existing live file, and is never overlaid.
pub fn plan_walk_step(src_exists: bool, src_is_dir: bool, tgt_exists: bool) -> (a: WalkAction)
    ensures
        !src_exists ==> a is Skip,
        src_exists && src_is_dir && tgt_exists ==> a is Descend,
        src_exists && src_is_dir && !tgt_exists ==> a is Skip,
        src_exists && !src_is_dir && tgt_exists ==> a is BindFile,
        src_exists && !src_is_dir && !tgt_exists ==> a is Skip,
{
    if !src_exists {
        WalkAction::Skip
    } else if src_is_dir {
        if tgt_exists {
            WalkAction::Descend
        } else {
            WalkAction::Skip
        }
    } else {
        if tgt_exists {
            WalkAction::BindFile
        } else {
            WalkAction::Skip
        }
    }
}

// ----- live-patch validation -----

/// Validates an explicit live-patch request from the probed facts: the
/// module must exist in both stores, not be disabled, and not carry the
/// skip-mount marker. Succeeds exactly on valid requests; the error names
/// the first failing check, in that order.
pub fn validate_patch_module(
    module_id: &String,
    meta_exists: bool,
    content_exists: bool,
    has_disable: bool,
    has_skip_mount: bool,
) -> (r: Result<(), Error>)
    ensures
        r is Ok <==> meta_exists && content_exists && !has_disable && !has_skip_mount,
        !meta_exists ==> (r matches Err(Error::ModuleNotInMetadata(m)) && m@ == module_id@),
        meta_exists && !content_exists ==> (r matches Err(Error::ModuleNotInContent(m)) && m@
            == module_id@),
        meta_exists && content_exists && has_disable ==> (r matches Err(
            Error::ModuleDisabled(m),
        ) && m@ == module_id@),
        meta_exists && content_exists && !has_disable && has_skip_mount ==> (r matches Err(
            Error::ModuleSkipMount(m),
        ) && m@ == module_id@),
{
    if !meta_exists {
        Err(Error::ModuleNotInMetadata(module_id.clone()))
    } else if !content_exists {
        Err(Error::ModuleNotInContent(module_id.clone()))
    } else if has_disable {
        Err(Error::ModuleDisabled(module_id.clone()))
    } else if has_skip_mount {
        Err(Error::ModuleSkipMount(module_id.clone()))
    } else {
        Ok(())
    }
}

} // verus!
