//! The project lifecycle: a project is a directory under `notes/projects`
//! paired with a `.project.json` sidecar. Identity is the record's
//! identifier, not the directory name, so renaming a project never loses
//! the record.

use vstd::prelude::*;
use crate::errors::VaultError;
use crate::fsops::{self, FsAction, FsActionV, spec_write_plan, views_of, write_atomic_actions};
use crate::json::{escape_json, json_escape};
use crate::slug::{slugify, spec_slug_or};
use crate::sys::{self, lower_of};
use crate::text::{lex_le, str_concat, str_eq, str_le};

verus! {

/// The sidecar record: identifier, human-readable name, status, and the
/// creation and modification timestamps.
#[derive(Debug, Clone)]
pub struct ProjectMeta {
    pub id: String,
    pub name: String,
    pub status: String,
    pub created: String,
    pub modified: String,
}

/// The mathematical form of a sidecar record.
#[verifier::ext_equal]
pub struct ProjectMetaV {
    pub id: Seq<char>,
    pub name: Seq<char>,
    pub status: Seq<char>,
    pub created: Seq<char>,
    pub modified: Seq<char>,
}

impl View for ProjectMeta {
    type V = ProjectMetaV;

    open spec fn view(&self) -> ProjectMetaV {
        ProjectMetaV {
            id: self.id@,
            name: self.name@,
            status: self.status@,
            created: self.created@,
            modified: self.modified@,
        }
    }
}

/// A listed project: the sidecar fields and where its directory lives.
#[derive(Debug, Clone)]
pub struct ProjectInfo {
    pub id: String,
    pub name: String,
    pub status: String,
    pub created: String,
    pub modified: String,
    pub folder_relative_path: String,
}

/// The mathematical form of a listed project.
#[verifier::ext_equal]
pub struct ProjectInfoV {
    pub id: Seq<char>,
    pub name: Seq<char>,
    pub status: Seq<char>,
    pub created: Seq<char>,
    pub modified: Seq<char>,
    pub folder_relative_path: Seq<char>,
}

impl View for ProjectInfo {
    type V = ProjectInfoV;

    open spec fn view(&self) -> ProjectInfoV {
        ProjectInfoV {
            id: self.id@,
            name: self.name@,
            status: self.status@,
            created: self.created@,
            modified: self.modified@,
            folder_relative_path: self.folder_relative_path@,
        }
    }
}

/// One scanned project directory: its name under `notes/projects` and its
/// parsed sidecar.
#[derive(Debug, Clone)]
pub struct ProjectScan {
    pub folder_name: String,
    pub meta: ProjectMeta,
}

/// The mathematical form of a scanned project directory.
#[verifier::ext_equal]
pub struct ProjectScanV {
    pub folder_name: Seq<char>,
    pub meta: ProjectMetaV,
}

impl View for ProjectScan {
    type V = ProjectScanV;

    open spec fn view(&self) -> ProjectScanV {
        ProjectScanV { folder_name: self.folder_name@, meta: self.meta@ }
    }
}

/// The requested changes: the project to touch and the optional new name
/// and status.
#[derive(Debug, Clone)]
pub struct UpdateProjectArgs {
    pub id: String,
    pub name: Option<String>,
    pub status: Option<String>,
}

/// The sidecar document: the five fields, pretty-printed in declaration
/// order, with each string value escaped.
pub open spec fn spec_project_json(m: ProjectMetaV) -> Seq<char> {
    "{\n  \"id\": \""@ + json_escape(m.id) + "\",\n  \"name\": \""@ + json_escape(m.name)
        + "\",\n  \"status\": \""@ + json_escape(m.status) + "\",\n  \"created\": \""@
        + json_escape(m.created) + "\",\n  \"modified\": \""@ + json_escape(m.modified)
        + "\"\n}"@
}

/// Composes the sidecar document for a record.
pub(crate) fn project_json(meta: &ProjectMeta) -> (r: String)
    ensures
        r@ == spec_project_json(meta@),
{
    let mut out = String::from_str("{\n  \"id\": \"");
    out.append(escape_json(meta.id.as_str()).as_str());
    out.append("\",\n  \"name\": \"");
    out.append(escape_json(meta.name.as_str()).as_str());
    out.append("\",\n  \"status\": \"");
    out.append(escape_json(meta.status.as_str()).as_str());
    out.append("\",\n  \"created\": \"");
    out.append(escape_json(meta.created.as_str()).as_str());
    out.append("\",\n  \"modified\": \"");
    out.append(escape_json(meta.modified.as_str()).as_str());
    out.append("\"\n}");
    out
}

/// Plans one atomic write of a sidecar record at the given absolute path.
pub fn write_project_meta(path: &str, meta: &ProjectMeta) -> (r: Result<Vec<FsAction>, VaultError>)
    ensures
        r is Ok <==> fsops::last_slash(path@) >= 0,
        r is Err ==> r->Err_0 == VaultError::InvalidPath,
        r is Ok ==> exists|token: Seq<char>|
            views_of(r->Ok_0@) == spec_write_plan(path@, spec_project_json(meta@), token),
{
    let raw = project_json(meta);
    let token = sys::new_uuid_hyphenated();
    let r = write_atomic_actions(path, raw.as_str(), token.as_str());
    proof {
        if fsops::last_slash(path@) >= 0 {
            assert(views_of(r->Ok_0@) == spec_write_plan(path@, spec_project_json(meta@), token@));
        }
    }
    r
}

/// The views of a list of projects.
pub open spec fn info_views(s: Seq<ProjectInfo>) -> Seq<ProjectInfoV> {
    s.map_values(|x: ProjectInfo| x@)
}

/// The listed form of the scanned projects, in scan order.
pub open spec fn infos_of(s: Seq<ProjectScanV>) -> Seq<ProjectInfoV> {
    s.map_values(
        |e: ProjectScanV| ProjectInfoV {
            id: e.meta.id,
            name: e.meta.name,
            status: e.meta.status,
            created: e.meta.created,
            modified: e.meta.modified,
            folder_relative_path: "notes/projects/"@ + e.folder_name,
        },
    )
}

/// Lists the scanned projects sorted case-insensitively by name. Every
/// directory with a parseable sidecar is reported; the relative path of
/// each is its directory under `notes/projects`.
pub fn vault_list_projects(items: &Vec<ProjectScan>) -> (r: Vec<ProjectInfo>)
    ensures
        info_views(r@).to_multiset() == infos_of(items@.map_values(|e: ProjectScan| e@))
            .to_multiset(),
        forall|i: int, j: int|
            0 <= i < j < r@.len() ==> lex_le(lower_of(r@[i].name@), lower_of(r@[j].name@)),
{
    broadcast use vstd::seq_lib::group_to_multiset_ensures;

    let ghost itemsv = items@.map_values(|e: ProjectScan| e@);
    let mut infos: Vec<ProjectInfo> = Vec::new();
    let mut i: usize = 0;
    while i < items.len()
        invariant
            i <= items@.len(),
            itemsv =~= items@.map_values(|e: ProjectScan| e@),
            infos@.len() == i,
            info_views(infos@) =~= infos_of(itemsv).take(i as int),
        decreases items@.len() - i,
    {
        let it = &items[i];
        let mut folder_rel = String::from_str("notes/projects/");
        folder_rel.append(it.folder_name.as_str());
        let info = ProjectInfo {
            id: it.meta.id.clone(),
            name: it.meta.name.clone(),
            status: it.meta.status.clone(),
            created: it.meta.created.clone(),
            modified: it.meta.modified.clone(),
            folder_relative_path: folder_rel,
        };
        let ghost oldinfos = infos@;
        let ghost infov = info@;
        infos.push(info);
        proof {
            assert(infos@[i as int]@ == infov);
            assert(itemsv[i as int] == items@[i as int]@);
            assert(infov =~= infos_of(itemsv)[i as int]);
            assert forall|j: int| 0 <= j < i + 1 implies #[trigger] info_views(infos@)[j]
                == infos_of(itemsv).take(i + 1)[j] by {
                if j < i {
                    assert(info_views(oldinfos)[j] == infos_of(itemsv).take(i as int)[j]);
                    assert(infos@[j] == oldinfos[j]);
                }
            }
            assert(info_views(infos@) =~= infos_of(itemsv).take(i + 1));
        }
        i += 1;
    }
    proof {
        assert(infos_of(itemsv).take(items@.len() as int) =~= infos_of(itemsv));
    }
    let ghost orig = info_views(infos@).to_multiset();
    let mut work = infos;
    let mut out: Vec<ProjectInfo> = Vec::new();
    while work.len() > 0
        invariant
            info_views(out@).to_multiset().add(info_views(work@).to_multiset()) =~= orig,
            forall|i: int, j: int|
                0 <= i < j < out@.len() ==> lex_le(lower_of(out@[i].name@), lower_of(out@[j].name@)),
            forall|i: int, j: int|
                0 <= i < out@.len() && 0 <= j < work@.len() ==> lex_le(
                    lower_of(out@[i].name@),
                    lower_of(work@[j].name@),
                ),
        decreases work.len(),
    {
        let mut m: usize = 0;
        let mut k: usize = 1;
        proof {
            crate::text::lemma_lex_le_total(lower_of(work@[0].name@), lower_of(work@[0].name@));
        }
        while k < work.len()
            invariant
                1 <= k <= work@.len(),
                m < k,
                forall|t: int|
                    0 <= t < k ==> lex_le(
                        lower_of(work@[m as int].name@),
                        lower_of(#[trigger] work@[t].name@),
                    ),
            decreases work@.len() - k,
        {
            let lk = sys::lowercase(work[k].name.as_str());
            let lm = sys::lowercase(work[m].name.as_str());
            if str_le(lk.as_str(), lm.as_str()) {
                let ghost old_m = m as int;
                m = k;
                proof {
                    assert forall|t: int| 0 <= t < k + 1 implies lex_le(
                        lower_of(work@[m as int].name@),
                        lower_of(#[trigger] work@[t].name@),
                    ) by {
                        if t < k {
                            crate::text::lemma_lex_le_trans(
                                lower_of(work@[m as int].name@),
                                lower_of(work@[old_m].name@),
                                lower_of(work@[t].name@),
                            );
                        } else {
                            crate::text::lemma_lex_le_total(
                                lower_of(work@[m as int].name@),
                                lower_of(work@[m as int].name@),
                            );
                        }
                    }
                }
            } else {
                proof {
                    crate::text::lemma_lex_le_total(
                        lower_of(work@[m as int].name@),
                        lower_of(work@[k as int].name@),
                    );
                }
            }
            k += 1;
        }
        let ghost workv = info_views(work@);
        let ghost outv = info_views(out@);
        let e = work.remove(m);
        out.push(e);
        proof {
            assert(info_views(work@) =~= workv.remove(m as int));
            vstd::seq_lib::to_multiset_remove(workv, m as int);
            assert(info_views(out@) =~= outv.push(e@));
            vstd::seq_lib::to_multiset_build(outv, e@);
            assert(workv[m as int] == e@);
            vstd::seq_lib::to_multiset_contains(workv, e@);
            assert(workv.contains(e@)) by {
                assert(workv[m as int] == e@);
            }
            assert(workv.to_multiset().count(e@) > 0);
            assert(info_views(out@).to_multiset().add(info_views(work@).to_multiset()) =~= orig);
        }
    }
    out
}

/// What a successful project creation looks like, for one choice of the
/// random identifier and suffix and the clock reading: the directory name is
/// the slug of the given name, disambiguated by a random suffix when taken,
/// and the sidecar starts the project as `active` with equal timestamps.
pub open spec fn create_project_ok(
    root: Seq<char>,
    name: Seq<char>,
    slug_taken: bool,
    info: ProjectInfo,
    actions: Seq<FsAction>,
    id: Seq<char>,
    now: Seq<char>,
    suffix: Seq<char>,
    token: Seq<char>,
) -> bool {
    let base = spec_slug_or(name, "project"@);
    let folder = if slug_taken {
        base + seq!['-'] + suffix
    } else {
        base
    };
    let dir = root + "/notes/projects/"@ + folder;
    &&& id.len() == 36
    &&& suffix.len() == 6
    &&& info.id@ == id
    &&& info.name@ == name
    &&& info.status@ == "active"@
    &&& info.created@ == now
    &&& info.modified@ == now
    &&& info.folder_relative_path@ == "notes/projects/"@ + folder
    &&& views_of(actions) == seq![FsActionV::EnsureDir(dir)] + spec_write_plan(
        dir + "/.project.json"@,
        spec_project_json(
            ProjectMetaV { id, name, status: "active"@, created: now, modified: now },
        ),
        token,
    )
}

/// A project creation succeeded for some choice of the random values and
/// clock reading.
pub open spec fn create_project_some(
    root: Seq<char>,
    name: Seq<char>,
    slug_taken: bool,
    info: ProjectInfo,
    actions: Seq<FsAction>,
) -> bool {
    exists|id: Seq<char>, now: Seq<char>, suffix: Seq<char>, token: Seq<char>|
        create_project_ok(root, name, slug_taken, info, actions, id, now, suffix, token)
}

/// Creates a project: a fresh identifier, a directory named by the slug of
/// the given name (suffixed when that name is already taken, so an existing
/// project is never overwritten), and an `active` sidecar.
pub fn vault_create_project(root: &str, name: &str, slug_taken: bool) -> (r: Result<
    (ProjectInfo, Vec<FsAction>),
    VaultError,
>)
    ensures
        r is Ok,
        r is Ok ==> create_project_some(root@, name@, slug_taken, r->Ok_0.0, r->Ok_0.1@),
{
    let id = sys::new_uuid_hyphenated();
    let now = sys::now_rfc3339();
    let base = slugify(name);
    let folder: String = if slug_taken {
        let simple = sys::new_uuid_simple();
        let suffix = simple.as_str().substring_char(0, 6);
        let mut f = str_concat(base.as_str(), "-");
        f.append(suffix);
        proof {
            reveal_strlit("-");
            assert(f@ =~= base@ + seq!['-'] + simple@.subrange(0, 6));
        }
        f
    } else {
        base
    };
    let ghost suffix_used: Seq<char> = if slug_taken {
        folder@.skip(folder@.len() - 6)
    } else {
        seq!['0', '0', '0', '0', '0', '0']
    };
    proof {
        if slug_taken {
            assert(folder@ =~= spec_slug_or(name@, "project"@) + seq!['-'] + suffix_used);
        }
    }

    let mut dir = str_concat(root, "/notes/projects/");
    dir.append(folder.as_str());
    let mut meta_path = str_concat(dir.as_str(), "/.project.json");
    let ghost dirv = dir@;
    proof {
        reveal_strlit("/notes/projects/");
        reveal_strlit("/.project.json");
        assert(dir@ =~= root@ + "/notes/projects/"@ + folder@);
        assert(meta_path@ == dirv + "/.project.json"@);
        assert(meta_path@[dirv.len() as int] == '/');
        fsops::lemma_last_slash_from(meta_path@, dirv.len() as int);
    }
    let meta = ProjectMeta {
        id: id.clone(),
        name: String::from_str(name),
        status: String::from_str("active"),
        created: now.clone(),
        modified: now.clone(),
    };
    let raw = project_json(&meta);
    let token = sys::new_uuid_hyphenated();
    match write_atomic_actions(meta_path.as_str(), raw.as_str(), token.as_str()) {
        Err(e) => Err(e),
        Ok(mut plan) => {
            let ghost planv = plan@;
            let mut actions: Vec<FsAction> = Vec::new();
            let mut folder_rel = String::from_str("notes/projects/");
            folder_rel.append(folder.as_str());
            actions.push(FsAction::EnsureDir(dir));
            let ghost first = actions@;
            actions.append(&mut plan);
            let info = ProjectInfo {
                id,
                name: String::from_str(name),
                status: String::from_str("active"),
                created: now.clone(),
                modified: now,
                folder_relative_path: folder_rel,
            };
            proof {
                assert(first[0]@ == FsActionV::EnsureDir(dirv));
                assert(actions@ =~= first + planv);
                assert(views_of(actions@) =~= seq![FsActionV::EnsureDir(dirv)] + views_of(planv));
                assert(create_project_ok(
                    root@,
                    name@,
                    slug_taken,
                    info,
                    actions@,
                    info.id@,
                    info.created@,
                    suffix_used,
                    token@,
                ));
                assert(create_project_some(root@, name@, slug_taken, info, actions@));
            }
            Ok((info, actions))
        },
    }
}

/// Disambiguation law: when a directory name is already taken, the chosen
/// name carries a non-empty suffix and so never equals the taken one; two
/// projects therefore never share a directory.
pub proof fn lemma_suffix_distinct(base: Seq<char>, suffix: Seq<char>)
    requires
        suffix.len() > 0,
    ensures
        base + seq!['-'] + suffix != base,
{
    assert((base + seq!['-'] + suffix).len() > base.len());
}

/// The directory a renamed project should have: the slug of its new name.
pub open spec fn desired_folder(name: Seq<char>) -> Seq<char> {
    spec_slug_or(name, "project"@)
}

/// The first scanned project with the given identifier.
pub open spec fn project_index(items: Seq<ProjectScanV>, id: Seq<char>) -> int {
    choose|i: int|
        0 <= i < items.len() && items[i].meta.id == id && forall|k: int|
            0 <= k < i ==> (#[trigger] items[k].meta.id) != id
}

/// Some scanned project carries the given identifier.
pub open spec fn has_project(items: Seq<ProjectScanV>, id: Seq<char>) -> bool {
    exists|i: int| 0 <= i < items.len() && (#[trigger] items[i].meta.id) == id
}

/// Finds the first scanned project with the given identifier.
fn find_project(items: &Vec<ProjectScan>, id: &str) -> (r: Option<usize>)
    ensures
        r is Some <==> has_project(items@.map_values(|e: ProjectScan| e@), id@),
        r is Some ==> {
            let i = r->0 as int;
            &&& i < items@.len()
            &&& items@[i].meta.id@ == id@
            &&& forall|k: int| 0 <= k < i ==> (#[trigger] items@[k].meta.id@) != id@
        },
{
    let ghost itemsv = items@.map_values(|e: ProjectScan| e@);
    let mut i: usize = 0;
    while i < items.len()
        invariant
            i <= items@.len(),
            itemsv =~= items@.map_values(|e: ProjectScan| e@),
            forall|k: int| 0 <= k < i ==> (#[trigger] items@[k].meta.id@) != id@,
        decreases items@.len() - i,
    {
        if str_eq(items[i].meta.id.as_str(), id) {
            proof {
                assert(itemsv[i as int].meta.id == id@);
            }
            return Some(i);
        }
        i += 1;
    }
    proof {
        assert forall|k: int|
            0 <= k < itemsv.len() implies (#[trigger] itemsv[k].meta.id) != id@ by {
            assert(itemsv[k].meta.id == items@[k].meta.id@);
        }
    }
    None
}

/// The folder slug an update would want, so the caller can test whether it
/// is already taken on disk: `None` when the name is unchanged, the slug of
/// the new name otherwise. Fails with `NotFound` when no scanned project
/// carries the identifier.
pub fn vault_update_project_desired(items: &Vec<ProjectScan>, args: &UpdateProjectArgs) -> (r:
    Result<Option<String>, VaultError>)
    ensures
        r is Ok <==> has_project(items@.map_values(|e: ProjectScan| e@), args.id@),
        r is Err ==> r->Err_0 == VaultError::NotFound,
        r is Ok ==> match args.name {
            None => r->Ok_0 is None,
            Some(nm) => r->Ok_0 is Some && r->Ok_0->0@ == desired_folder(nm@),
        },
{
    if find_project(items, args.id.as_str()).is_none() {
        return Err(VaultError::NotFound);
    }
    match &args.name {
        None => Ok(None),
        Some(nm) => Ok(Some(slugify(nm.as_str()))),
    }
}

/// What a successful update looks like, for the found project and one
/// choice of the clock reading and random values: the fields change as
/// requested, `modified` is refreshed, the directory is renamed only when
/// the new name's slug differs from the current directory (suffixed when
/// that slug is taken by another project, so no project is overwritten),
/// and the sidecar is rewritten at the final directory.
pub open spec fn update_project_ok(
    root: Seq<char>,
    items: Seq<ProjectScanV>,
    id: Seq<char>,
    new_name: Option<Seq<char>>,
    new_status: Option<Seq<char>>,
    desired_exists: bool,
    info: ProjectInfo,
    actions: Seq<FsAction>,
    i: int,
    now: Seq<char>,
    suffix: Seq<char>,
    token: Seq<char>,
) -> bool {
    &&& 0 <= i < items.len()
    &&& items[i].meta.id == id
    &&& forall|k: int| 0 <= k < i ==> (#[trigger] items[k].meta.id) != id
    &&& {
        let cur = items[i].folder_name;
        let name = match new_name {
            None => items[i].meta.name,
            Some(nm) => nm,
        };
        let status = match new_status {
            None => items[i].meta.status,
            Some(st) => st,
        };
        let folder = match new_name {
            None => cur,
            Some(nm) => if desired_folder(nm) == cur {
                cur
            } else if desired_exists {
                desired_folder(nm) + seq!['-'] + suffix
            } else {
                desired_folder(nm)
            },
        };
        let renamed = folder != cur;
        let meta = ProjectMetaV {
            id,
            name,
            status,
            created: items[i].meta.created,
            modified: now,
        };
        let dir = root + "/notes/projects/"@ + folder;
        &&& suffix.len() == 6
        &&& info.id@ == id
        &&& info.name@ == name
        &&& info.status@ == status
        &&& info.created@ == items[i].meta.created
        &&& info.modified@ == now
        &&& info.folder_relative_path@ == "notes/projects/"@ + folder
        &&& views_of(actions) == (if renamed {
            seq![
                FsActionV::RenameDir(root + "/notes/projects/"@ + cur, dir),
            ]
        } else {
            Seq::<FsActionV>::empty()
        }) + spec_write_plan(dir + "/.project.json"@, spec_project_json(meta), token)
    }
}

/// An update succeeded for some choice of the clock reading and random
/// values, at the first scanned project with the identifier.
pub open spec fn update_project_some(
    root: Seq<char>,
    items: Seq<ProjectScanV>,
    id: Seq<char>,
    new_name: Option<Seq<char>>,
    new_status: Option<Seq<char>>,
    desired_exists: bool,
    info: ProjectInfo,
    actions: Seq<FsAction>,
) -> bool {
    exists|i: int, now: Seq<char>, suffix: Seq<char>, token: Seq<char>|
        update_project_ok(
            root,
            items,
            id,
            new_name,
            new_status,
            desired_exists,
            info,
            actions,
            i,
            now,
            suffix,
            token,
        )
}

/// Updates a project found by identifier: applies the given name and status,
/// refreshes `modified`, renames the directory only when the new name's slug
/// differs from the current directory name, and rewrites the sidecar at the
/// final location. A status-only update never renames the directory.
pub fn vault_update_project(
    root: &str,
    args: &UpdateProjectArgs,
    items: &Vec<ProjectScan>,
    desired_exists: bool,
) -> (r: Result<(ProjectInfo, Vec<FsAction>), VaultError>)
    ensures
        r is Ok <==> has_project(items@.map_values(|e: ProjectScan| e@), args.id@),
        r is Err ==> r->Err_0 == VaultError::NotFound,
        r is Ok ==> update_project_some(
            root@,
            items@.map_values(|e: ProjectScan| e@),
            args.id@,
            match args.name {
                None => None,
                Some(ref nm) => Some(nm@),
            },
            match args.status {
                None => None,
                Some(ref st) => Some(st@),
            },
            desired_exists,
            r->Ok_0.0,
            r->Ok_0.1@,
        ),
{
    let ghost itemsv = items@.map_values(|e: ProjectScan| e@);
    let i = match find_project(items, args.id.as_str()) {
        None => {
            return Err(VaultError::NotFound);
        },
        Some(i) => i,
    };
    let it = &items[i];
    let cur = &it.folder_name;
    let name: String = match &args.name {
        None => it.meta.name.clone(),
        Some(nm) => nm.clone(),
    };
    let status: String = match &args.status {
        None => it.meta.status.clone(),
        Some(st) => st.clone(),
    };
    let now = sys::now_rfc3339();
    let simple = sys::new_uuid_simple();
    let suffix = simple.as_str().substring_char(0, 6);

    let mut renamed = false;
    let folder: String = match &args.name {
        None => cur.clone(),
        Some(nm) => {
            let desired = slugify(nm.as_str());
            if str_eq(desired.as_str(), cur.as_str()) {
                cur.clone()
            } else if desired_exists {
                let mut f = str_concat(desired.as_str(), "-");
                f.append(suffix);
                proof {
                    reveal_strlit("-");
                    assert(f@ =~= desired_folder(nm@) + seq!['-'] + simple@.subrange(0, 6));
                }
                renamed = !str_eq(f.as_str(), cur.as_str());
                f
            } else {
                renamed = true;
                desired
            }
        },
    };

    let mut dir = str_concat(root, "/notes/projects/");
    dir.append(folder.as_str());
    let mut meta_path = str_concat(dir.as_str(), "/.project.json");
    let ghost dirv = dir@;
    proof {
        reveal_strlit("/notes/projects/");
        reveal_strlit("/.project.json");
        assert(dir@ =~= root@ + "/notes/projects/"@ + folder@);
        assert(meta_path@ == dirv + "/.project.json"@);
        assert(meta_path@[dirv.len() as int] == '/');
        fsops::lemma_last_slash_from(meta_path@, dirv.len() as int);
    }
    let meta = ProjectMeta {
        id: it.meta.id.clone(),
        name: name.clone(),
        status: status.clone(),
        created: it.meta.created.clone(),
        modified: now.clone(),
    };
    let raw = project_json(&meta);
    let token = sys::new_uuid_hyphenated();
    match write_atomic_actions(meta_path.as_str(), raw.as_str(), token.as_str()) {
        Err(e) => Err(e),
        Ok(mut plan) => {
            let ghost planv = plan@;
            let mut actions: Vec<FsAction> = Vec::new();
            if renamed {
                let mut src = str_concat(root, "/notes/projects/");
                src.append(cur.as_str());
                proof {
                    assert(src@ =~= root@ + "/notes/projects/"@ + cur@);
                }
                actions.push(FsAction::RenameDir(src, dir));
            }
            let ghost renames = actions@;
            actions.append(&mut plan);
            proof {
                assert(renamed == (folder@ != cur@));
            }
            let mut folder_rel = String::from_str("notes/projects/");
            folder_rel.append(folder.as_str());
            let info = ProjectInfo {
                id: it.meta.id.clone(),
                name,
                status,
                created: it.meta.created.clone(),
                modified: now,
                folder_relative_path: folder_rel,
            };
            proof {
                assert(actions@ =~= renames + planv);
                assert(views_of(actions@) =~= views_of(renames) + views_of(planv));
                assert(itemsv[i as int] == items@[i as int]@);
                assert forall|k: int| 0 <= k < i as int implies (#[trigger] itemsv[k].meta.id)
                    != args.id@ by {
                    assert(itemsv[k] == items@[k]@);
                }
                assert(meta@ =~= ProjectMetaV {
                    id: args.id@,
                    name: info.name@,
                    status: info.status@,
                    created: itemsv[i as int].meta.created,
                    modified: info.modified@,
                });
                if renamed {
                    assert(views_of(renames) =~= seq![
                        FsActionV::RenameDir(
                            root@ + "/notes/projects/"@ + itemsv[i as int].folder_name,
                            dirv,
                        ),
                    ]);
                } else {
                    assert(views_of(renames) =~= Seq::<FsActionV>::empty());
                }
                assert(update_project_ok(
                    root@,
                    itemsv,
                    args.id@,
                    match args.name {
                        None => None,
                        Some(ref nm) => Some(nm@),
                    },
                    match args.status {
                        None => None,
                        Some(ref st) => Some(st@),
                    },
                    desired_exists,
                    info,
                    actions@,
                    i as int,
                    info.modified@,
                    simple@.subrange(0, 6),
                    token@,
                ));
                assert(update_project_some(
                    root@,
                    itemsv,
                    args.id@,
                    match args.name {
                        None => None,
                        Some(ref nm) => Some(nm@),
                    },
                    match args.status {
                        None => None,
                        Some(ref st) => Some(st@),
                    },
                    desired_exists,
                    info,
                    actions@,
                ));
            }
            Ok((info, actions))
        },
    }
}

} // verus!
