//! The vault skeleton: seven fixed directories and a default settings file,
//! created lazily and idempotently before any domain operation.

use vstd::prelude::*;
use crate::errors::VaultError;
use crate::fsops::{
    self, FsAction, FsActionV, FsModel, apply_actions, last_slash, spec_write_plan, touches_files,
    views_of, write_atomic_actions,
};
use crate::json::{escape_json, json_escape};
use crate::paths::homebase_vault_root;
use crate::sys;
use crate::text::str_concat;

verus! {

/// The on-disk layout version this crate writes.
pub const VAULT_VERSION: u32 = 1;

/// Where the vault lives and which layout version it uses.
#[derive(Debug, Clone)]
pub struct VaultInfo {
    pub vault_path: String,
    pub version: u32,
}

/// The seven fixed subtrees of a vault, as directory-creation actions.
pub open spec fn spec_ensure_dirs(root: Seq<char>) -> Seq<FsActionV> {
    seq![
        FsActionV::EnsureDir(root + "/notes/inbox"@),
        FsActionV::EnsureDir(root + "/notes/archive"@),
        FsActionV::EnsureDir(root + "/notes/folders"@),
        FsActionV::EnsureDir(root + "/notes/projects"@),
        FsActionV::EnsureDir(root + "/assets"@),
        FsActionV::EnsureDir(root + "/config"@),
        FsActionV::EnsureDir(root + "/.homebase"@),
    ]
}

/// The absolute path of the settings file.
pub open spec fn spec_settings_path(root: Seq<char>) -> Seq<char> {
    root + "/config/settings.json"@
}

/// The default settings document: version, vault path, creation timestamp,
/// pretty-printed with keys in alphabetical order.
pub open spec fn spec_settings_json(root: Seq<char>, now: Seq<char>) -> Seq<char> {
    "{\n  \"createdAt\": \""@ + json_escape(now) + "\",\n  \"vaultPath\": \""@ + json_escape(root)
        + "\",\n  \"version\": 1\n}"@
}

/// The default settings document for a given root and timestamp.
pub(crate) fn settings_json(root: &str, now: &str) -> (r: String)
    ensures
        r@ == spec_settings_json(root@, now@),
{
    let mut out = String::from_str("{\n  \"createdAt\": \"");
    out.append(escape_json(now).as_str());
    out.append("\",\n  \"vaultPath\": \"");
    out.append(escape_json(root).as_str());
    out.append("\",\n  \"version\": 1\n}");
    out
}

/// Plans the skeleton: the seven directories always, and the default
/// settings file only when it is absent, so an existing settings file is
/// never overwritten.
pub fn ensure_vault_structure(vault_root: &str, settings_exists: bool) -> (r: Result<
    Vec<FsAction>,
    VaultError,
>)
    ensures
        r is Ok,
        settings_exists ==> views_of(r->Ok_0@) =~= spec_ensure_dirs(vault_root@),
        !settings_exists ==> views_of(r->Ok_0@).len() == 11 && views_of(r->Ok_0@).take(7)
            =~= spec_ensure_dirs(vault_root@) && exists|now: Seq<char>, token: Seq<char>|
            views_of(r->Ok_0@).skip(7) =~= spec_write_plan(
                spec_settings_path(vault_root@),
                spec_settings_json(vault_root@, now),
                token,
            ),
{
    let mut actions: Vec<FsAction> = Vec::new();
    actions.push(FsAction::EnsureDir(str_concat(vault_root, "/notes/inbox")));
    actions.push(FsAction::EnsureDir(str_concat(vault_root, "/notes/archive")));
    actions.push(FsAction::EnsureDir(str_concat(vault_root, "/notes/folders")));
    actions.push(FsAction::EnsureDir(str_concat(vault_root, "/notes/projects")));
    actions.push(FsAction::EnsureDir(str_concat(vault_root, "/assets")));
    actions.push(FsAction::EnsureDir(str_concat(vault_root, "/config")));
    actions.push(FsAction::EnsureDir(str_concat(vault_root, "/.homebase")));
    proof {
        assert(views_of(actions@) =~= spec_ensure_dirs(vault_root@));
    }
    if settings_exists {
        return Ok(actions);
    }
    let settings_path = str_concat(vault_root, "/config/settings.json");
    let now = sys::now_rfc3339();
    let contents = settings_json(vault_root, now.as_str());
    let token = sys::new_uuid_hyphenated();
    proof {
        reveal_strlit("/config/settings.json");
        assert(settings_path@[vault_root@.len() as int] == '/');
        fsops::lemma_last_slash_from(settings_path@, vault_root@.len() as int);
    }
    match write_atomic_actions(settings_path.as_str(), contents.as_str(), token.as_str()) {
        Err(e) => Err(e),
        Ok(mut plan) => {
            let ghost before = actions@;
            let ghost planv = plan@;
            actions.append(&mut plan);
            proof {
                assert(actions@ =~= before + planv);
                assert(views_of(actions@).take(7) =~= views_of(before));
                assert(views_of(actions@).skip(7) =~= views_of(planv));
                assert(views_of(actions@).skip(7) =~= spec_write_plan(
                    spec_settings_path(vault_root@),
                    spec_settings_json(vault_root@, now@),
                    token@,
                ));
            }
            Ok(actions)
        },
    }
}

/// Resolves the vault root, plans the skeleton, and reports the vault path
/// and layout version.
pub fn vault_init(settings_exists: bool) -> (r: Result<(VaultInfo, Vec<FsAction>), VaultError>)
    ensures
        r is Err ==> r->Err_0 == VaultError::HomeDirUnavailable,
        r is Ok ==> r->Ok_0.0.version == VAULT_VERSION,
        r is Ok && settings_exists ==> views_of(r->Ok_0.1@) =~= spec_ensure_dirs(
            r->Ok_0.0.vault_path@,
        ),
        r is Ok && !settings_exists ==> views_of(r->Ok_0.1@).take(7) =~= spec_ensure_dirs(
            r->Ok_0.0.vault_path@,
        ) && exists|now: Seq<char>, token: Seq<char>|
            views_of(r->Ok_0.1@).skip(7) =~= spec_write_plan(
                spec_settings_path(r->Ok_0.0.vault_path@),
                spec_settings_json(r->Ok_0.0.vault_path@, now),
                token,
            ),
{
    let root = homebase_vault_root()?;
    match ensure_vault_structure(root.as_str(), settings_exists) {
        Err(e) => Err(e),
        Ok(actions) => Ok((VaultInfo { vault_path: root, version: VAULT_VERSION }, actions)),
    }
}

/// Bootstrapping is idempotent: once the settings file exists, the planned
/// actions only ensure directories, so a second run changes no stored file
/// and in particular never alters the settings file's contents.
pub proof fn lemma_bootstrap_idempotent(fs: FsModel, root: Seq<char>)
    ensures
        apply_actions(fs, spec_ensure_dirs(root)) == fs,
{
    let s = spec_ensure_dirs(root);
    assert(forall|i: int| 0 <= i < s.len() ==> !touches_files(#[trigger] s[i])) by {
        assert(!touches_files(s[0]));
        assert(!touches_files(s[1]));
        assert(!touches_files(s[2]));
        assert(!touches_files(s[3]));
        assert(!touches_files(s[4]));
        assert(!touches_files(s[5]));
        assert(!touches_files(s[6]));
    }
    fsops::lemma_dir_only_plan(fs, s);
}

} // verus!
