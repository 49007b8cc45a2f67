use std::collections::HashMap;

use homebase_vault::bootstrap::ensure_vault_structure;
use homebase_vault::errors::VaultError;
use homebase_vault::folders::{
    vault_create_folder, vault_delete_folder, vault_list_folders, vault_rename_folder, FolderScan,
};
use homebase_vault::fsops::{write_atomic, FsAction};
use homebase_vault::json::escape_json;
use homebase_vault::notes::{
    vault_archive_note, vault_create_note, vault_create_note_from_markdown, vault_list_notes,
    vault_move_note, vault_write_note, CreateNoteFromMarkdownArgs, NoteScan,
};
use homebase_vault::paths::{
    kind_from_relative_path, path_to_forward_slashes, relative_from_root_under,
    resolve_under_root, validate_relative_path,
};
use homebase_vault::projects::{
    vault_create_project, vault_list_projects, vault_update_project,
    vault_update_project_desired, ProjectMeta, ProjectScan, UpdateProjectArgs,
};
use homebase_vault::slug::slugify;

const ROOT: &str = "/home/someone/Homebase";

/// Replays a plan on an in-memory file map, as the shell would on disk.
fn apply(files: &mut HashMap<String, String>, actions: &[FsAction]) -> Result<(), VaultError> {
    for a in actions {
        match a {
            FsAction::EnsureDir(_) => {}
            FsAction::WriteTemp(p, c) => {
                files.insert(p.clone(), c.clone());
            }
            FsAction::RemoveFileIfExists(p) => {
                files.remove(p);
            }
            FsAction::RenameFile(f, t) => {
                let v = files.remove(f).expect("rename source must exist");
                files.insert(t.clone(), v);
            }
            FsAction::RenameDir(_, _) => {}
            FsAction::RemoveEmptyDir(_) => {}
            FsAction::FailIfExists(p) => {
                if files.contains_key(p) {
                    return Err(VaultError::AlreadyExists);
                }
            }
        }
    }
    Ok(())
}

#[test]
fn validate_normalizes_and_rejects() {
    assert_eq!(validate_relative_path("a/b").unwrap(), "a/b");
    assert_eq!(validate_relative_path("a//b/").unwrap(), "a/b");
    assert_eq!(validate_relative_path("./a/./b").unwrap(), "a/b");
    assert_eq!(validate_relative_path("a\\b").unwrap(), "a/b");
    assert_eq!(validate_relative_path("").unwrap(), "");
    assert_eq!(validate_relative_path("../x").unwrap_err(), VaultError::InvalidPath);
    assert_eq!(validate_relative_path("a/../b").unwrap_err(), VaultError::InvalidPath);
    assert_eq!(validate_relative_path("/abs").unwrap_err(), VaultError::InvalidPath);
    assert_eq!(validate_relative_path("a/..").unwrap_err(), VaultError::InvalidPath);
}

#[test]
fn resolve_round_trip() {
    let full = resolve_under_root(ROOT, "notes/inbox/a.md").unwrap();
    assert_eq!(full, format!("{}/notes/inbox/a.md", ROOT));
    let back = relative_from_root_under(ROOT, &full).unwrap();
    assert_eq!(back, "notes/inbox/a.md");
    let messy = resolve_under_root(ROOT, "notes//inbox/./a.md").unwrap();
    assert_eq!(relative_from_root_under(ROOT, &messy).unwrap(), "notes/inbox/a.md");
    assert_eq!(resolve_under_root(ROOT, "../up").unwrap_err(), VaultError::InvalidPath);
    assert_eq!(
        relative_from_root_under(ROOT, "/somewhere/else").unwrap_err(),
        VaultError::OutsideVault
    );
    assert_eq!(relative_from_root_under(ROOT, ROOT).unwrap(), "");
}

#[test]
fn resolved_path_stays_under_root() {
    let full = resolve_under_root(ROOT, "assets/img.png").unwrap();
    assert!(full.starts_with(&format!("{}/", ROOT)));
    assert!(full.len() > ROOT.len());
}

#[test]
fn forward_slashes() {
    assert_eq!(path_to_forward_slashes("a\\b/c"), "a/b/c");
    assert_eq!(path_to_forward_slashes("plain"), "plain");
}

#[test]
fn kind_by_prefix() {
    assert_eq!(kind_from_relative_path("notes/inbox/a.md"), "inbox");
    assert_eq!(kind_from_relative_path("notes/archive/inbox/a.md"), "archive");
    assert_eq!(kind_from_relative_path("notes/projects/p/a.md"), "project");
    assert_eq!(kind_from_relative_path("notes/folders/f/a.md"), "folder");
    assert_eq!(kind_from_relative_path("notes/a.md"), "other");
}

#[test]
fn slugify_values() {
    assert_eq!(slugify("My Plan"), "my-plan");
    assert_eq!(slugify("  --Weird__Name!!  "), "weird-name");
    assert_eq!(slugify("HELLO world 42"), "hello-world-42");
    assert_eq!(slugify(""), "project");
    assert_eq!(slugify("!!!"), "project");
}

#[test]
fn escape_json_values() {
    assert_eq!(escape_json("a\"b\\c\nd"), "a\\\"b\\\\c\\nd");
    assert_eq!(escape_json("\t\r"), "\\t\\r");
    assert_eq!(escape_json("\u{1}"), "\\u0001");
    assert_eq!(escape_json("plain"), "plain");
}

#[test]
fn error_messages() {
    assert_eq!(VaultError::NotFound.message(), "Not found");
    assert_eq!(VaultError::HomeDirUnavailable.message(), "Failed to determine home directory");
}

#[test]
fn write_atomic_plan_shape() {
    let path = format!("{}/notes/inbox/a.md", ROOT);
    let actions = write_atomic(&path, "A").unwrap();
    assert_eq!(actions.len(), 4);
    match &actions[0] {
        FsAction::EnsureDir(p) => assert_eq!(p, &format!("{}/notes/inbox", ROOT)),
        _ => panic!("expected a directory creation first"),
    }
    let tmp = match &actions[1] {
        FsAction::WriteTemp(p, c) => {
            assert!(p.starts_with(&format!("{}/notes/inbox/.a.md.tmp-", ROOT)));
            assert_eq!(c, "A");
            p.clone()
        }
        _ => panic!("expected the temporary write second"),
    };
    assert!(matches!(&actions[2], FsAction::RemoveFileIfExists(p) if p == &path));
    assert!(matches!(&actions[3], FsAction::RenameFile(f, t) if f == &tmp && t == &path));
    assert_eq!(write_atomic("noslash", "A").unwrap_err(), VaultError::InvalidPath);
}

#[test]
fn write_twice_leaves_second_contents() {
    let path = format!("{}/notes/inbox/a.md", ROOT);
    let mut files = HashMap::new();
    apply(&mut files, &write_atomic(&path, "A").unwrap()).unwrap();
    assert_eq!(files.get(&path).unwrap(), "A");
    apply(&mut files, &write_atomic(&path, "B").unwrap()).unwrap();
    assert_eq!(files.get(&path).unwrap(), "B");
    assert_eq!(files.len(), 1);
}

#[test]
fn bootstrap_is_idempotent() {
    let settings = format!("{}/config/settings.json", ROOT);
    let mut files = HashMap::new();
    let first = ensure_vault_structure(ROOT, false).unwrap();
    assert_eq!(first.len(), 11);
    apply(&mut files, &first).unwrap();
    let written = files.get(&settings).unwrap().clone();
    assert!(written.starts_with("{\n  \"createdAt\": \""));
    assert!(written.contains(&format!("\"vaultPath\": \"{}\"", ROOT)));
    assert!(written.ends_with("\"version\": 1\n}"));

    let again = ensure_vault_structure(ROOT, true).unwrap();
    assert_eq!(again.len(), 7);
    for a in &again {
        assert!(matches!(a, FsAction::EnsureDir(_)));
    }
    apply(&mut files, &again).unwrap();
    assert_eq!(files.get(&settings).unwrap(), &written);
}

#[test]
fn create_note_defaults_to_inbox() {
    let (res, actions) = vault_create_note(ROOT, None).unwrap();
    assert!(res.relative_path.starts_with("notes/inbox/"));
    assert!(res.relative_path.ends_with(".md"));
    assert!(res.relative_path.contains("-untitled-"));
    assert!(res.contents.contains("user_placed: false"));
    assert!(res.contents.starts_with(&format!("---\nid: {}\n", res.id)));
    assert_eq!(res.id.len(), 36);
    assert_eq!(actions.len(), 4);
}

#[test]
fn create_note_in_inbox_defaults() {
    let (res, actions) = homebase_vault::notes::vault_create_note_in_inbox(ROOT).unwrap();
    assert!(res.relative_path.starts_with("notes/inbox/"));
    assert!(res.contents.contains("user_placed: false"));
    assert_eq!(actions.len(), 4);
}

#[test]
fn create_note_elsewhere_is_user_placed() {
    let (res, _) = vault_create_note(ROOT, Some("notes/folders/x".to_string())).unwrap();
    assert!(res.relative_path.starts_with("notes/folders/x/"));
    assert!(res.contents.contains("user_placed: true"));
}

#[test]
fn create_note_rejects_bad_targets() {
    assert_eq!(
        vault_create_note(ROOT, Some("assets".to_string())).unwrap_err(),
        VaultError::InvalidArgument
    );
    assert_eq!(
        vault_create_note(ROOT, Some("notes/inboxtoo".to_string())).unwrap_err(),
        VaultError::InvalidArgument
    );
    assert_eq!(
        vault_create_note(ROOT, Some("../elsewhere".to_string())).unwrap_err(),
        VaultError::InvalidPath
    );
}

#[test]
fn import_note_embeds_slug_and_id() {
    let args = CreateNoteFromMarkdownArgs {
        id: "  abc-def-123456  ".to_string(),
        target_dir: None,
        title_hint: Some("My Note".to_string()),
        contents: "# hi\n".to_string(),
    };
    let (rel, actions) = vault_create_note_from_markdown(ROOT, args).unwrap();
    assert!(rel.starts_with("notes/inbox/"));
    assert!(rel.contains("-my-note-"));
    assert!(rel.ends_with("abcdef12.md"));
    assert!(matches!(&actions[0], FsAction::FailIfExists(p) if p == &format!("{}/{}", ROOT, rel)));
    assert_eq!(actions.len(), 5);

    let mut files = HashMap::new();
    files.insert(format!("{}/{}", ROOT, rel), "old".to_string());
    assert_eq!(apply(&mut files, &actions).unwrap_err(), VaultError::AlreadyExists);
}

#[test]
fn import_note_requires_id() {
    let args = CreateNoteFromMarkdownArgs {
        id: "   ".to_string(),
        target_dir: None,
        title_hint: None,
        contents: String::new(),
    };
    assert_eq!(
        vault_create_note_from_markdown(ROOT, args).unwrap_err(),
        VaultError::InvalidArgument
    );
}

#[test]
fn write_note_plans_atomic_overwrite() {
    let actions = vault_write_note(ROOT, "notes/inbox/a.md", "body").unwrap();
    assert_eq!(actions.len(), 4);
    assert!(matches!(&actions[2], FsAction::RemoveFileIfExists(p)
        if p == &format!("{}/notes/inbox/a.md", ROOT)));
    assert_eq!(
        vault_write_note(ROOT, "../a.md", "body").unwrap_err(),
        VaultError::InvalidPath
    );
}

#[test]
fn archive_mirrors_position() {
    let (rel, actions) = vault_archive_note(ROOT, "notes/inbox/a.md", true).unwrap();
    assert_eq!(rel, "notes/archive/inbox/a.md");
    assert_eq!(actions.len(), 2);
    assert!(matches!(&actions[0], FsAction::EnsureDir(p)
        if p == &format!("{}/notes/archive/inbox", ROOT)));
    assert!(matches!(&actions[1], FsAction::RenameFile(f, t)
        if f == &format!("{}/notes/inbox/a.md", ROOT)
            && t == &format!("{}/notes/archive/inbox/a.md", ROOT)));

    let (again, noop) = vault_archive_note(ROOT, &rel, true).unwrap();
    assert_eq!(again, rel);
    assert!(noop.is_empty());
}

#[test]
fn archive_errors() {
    assert_eq!(
        vault_archive_note(ROOT, "notes/inbox/a.md", false).unwrap_err(),
        VaultError::NotFound
    );
    assert_eq!(
        vault_archive_note(ROOT, "assets/a.md", true).unwrap_err(),
        VaultError::InvalidArgument
    );
    assert_eq!(
        vault_archive_note(ROOT, "../a.md", true).unwrap_err(),
        VaultError::InvalidPath
    );
}

#[test]
fn move_note_keeps_filename() {
    let (rel, actions) = vault_move_note(ROOT, "notes/inbox/a.md", "notes/folders/x", true).unwrap();
    assert_eq!(rel, "notes/folders/x/a.md");
    assert_eq!(actions.len(), 2);
    assert!(matches!(&actions[0], FsAction::EnsureDir(p)
        if p == &format!("{}/notes/folders/x", ROOT)));
    assert_eq!(
        vault_move_note(ROOT, "notes/inbox/a.md", "assets", true).unwrap_err(),
        VaultError::InvalidArgument
    );
    assert_eq!(
        vault_move_note(ROOT, "notes/inbox/a.md", "notes/folders/x", false).unwrap_err(),
        VaultError::NotFound
    );
}

#[test]
fn list_notes_filters_and_orders() {
    let scan = vec![
        NoteScan {
            path: format!("{}/notes/inbox/old.md", ROOT),
            is_file: true,
            mtime_ms: 100,
            size: 10,
        },
        NoteScan {
            path: format!("{}/notes/archive/inbox/gone.md", ROOT),
            is_file: true,
            mtime_ms: 300,
            size: 30,
        },
        NoteScan {
            path: format!("{}/notes/folders/x/new.md", ROOT),
            is_file: true,
            mtime_ms: 200,
            size: 20,
        },
        NoteScan {
            path: format!("{}/notes/inbox/not-markdown.txt", ROOT),
            is_file: true,
            mtime_ms: 400,
            size: 40,
        },
        NoteScan {
            path: format!("{}/notes/folders/x", ROOT),
            is_file: false,
            mtime_ms: 500,
            size: 0,
        },
    ];
    let visible = vault_list_notes(ROOT, false, &scan).unwrap();
    assert_eq!(visible.len(), 2);
    assert_eq!(visible[0].relative_path, "notes/folders/x/new.md");
    assert_eq!(visible[0].kind, "folder");
    assert_eq!(visible[1].relative_path, "notes/inbox/old.md");
    assert_eq!(visible[1].kind, "inbox");
    assert!(visible[0].mtime_ms >= visible[1].mtime_ms);

    let all = vault_list_notes(ROOT, true, &scan).unwrap();
    assert_eq!(all.len(), 3);
    assert_eq!(all[0].relative_path, "notes/archive/inbox/gone.md");
    assert_eq!(all[0].kind, "archive");
    assert!(all[0].mtime_ms >= all[1].mtime_ms && all[1].mtime_ms >= all[2].mtime_ms);
}

#[test]
fn folders_lifecycle() {
    let actions = vault_create_folder(ROOT, "notes/folders/plans").unwrap();
    assert_eq!(actions.len(), 1);
    assert!(matches!(&actions[0], FsAction::EnsureDir(p)
        if p == &format!("{}/notes/folders/plans", ROOT)));
    assert_eq!(
        vault_create_folder(ROOT, "notes/inbox/x").unwrap_err(),
        VaultError::InvalidArgument
    );

    let (rel, actions) = vault_rename_folder(ROOT, "notes/folders/a/b", "c").unwrap();
    assert_eq!(rel, "notes/folders/a/c");
    assert!(matches!(&actions[0], FsAction::RenameDir(f, t)
        if f == &format!("{}/notes/folders/a/b", ROOT)
            && t == &format!("{}/notes/folders/a/c", ROOT)));
    assert_eq!(
        vault_rename_folder(ROOT, "notes/folders/a", "x/y").unwrap_err(),
        VaultError::InvalidArgument
    );
    assert_eq!(
        vault_rename_folder(ROOT, "notes/folders/a", "  ").unwrap_err(),
        VaultError::InvalidArgument
    );
    assert_eq!(
        vault_rename_folder(ROOT, "notes/folders/a", "..").unwrap_err(),
        VaultError::InvalidArgument
    );
}

#[test]
fn delete_folder_requires_empty() {
    assert_eq!(
        vault_delete_folder(ROOT, "notes/folders/full", true).unwrap_err(),
        VaultError::NotEmpty
    );
    let actions = vault_delete_folder(ROOT, "notes/folders/empty", false).unwrap();
    assert!(matches!(&actions[0], FsAction::RemoveEmptyDir(p)
        if p == &format!("{}/notes/folders/empty", ROOT)));
    assert_eq!(
        vault_delete_folder(ROOT, "assets", false).unwrap_err(),
        VaultError::InvalidArgument
    );
}

#[test]
fn list_folders_sorted() {
    let scan = vec![
        FolderScan { path: format!("{}/notes/folders/zoo", ROOT), is_dir: true },
        FolderScan { path: format!("{}/notes/folders/abc", ROOT), is_dir: true },
        FolderScan { path: format!("{}/notes/folders/zoo/note.md", ROOT), is_dir: false },
        FolderScan { path: format!("{}/notes/folders/abc/sub", ROOT), is_dir: true },
    ];
    let folders = vault_list_folders(ROOT, &scan).unwrap();
    assert_eq!(
        folders,
        vec!["notes/folders/abc", "notes/folders/abc/sub", "notes/folders/zoo"]
    );
}

fn meta(id: &str, name: &str) -> ProjectMeta {
    ProjectMeta {
        id: id.to_string(),
        name: name.to_string(),
        status: "active".to_string(),
        created: "2024-01-01T00:00:00+00:00".to_string(),
        modified: "2024-01-01T00:00:00+00:00".to_string(),
    }
}

#[test]
fn create_project_slug_and_collision() {
    let (info, actions) = vault_create_project(ROOT, "My Plan", false).unwrap();
    assert_eq!(info.folder_relative_path, "notes/projects/my-plan");
    assert_eq!(info.status, "active");
    assert_eq!(info.created, info.modified);
    assert_eq!(info.id.len(), 36);
    assert!(matches!(&actions[0], FsAction::EnsureDir(p)
        if p == &format!("{}/notes/projects/my-plan", ROOT)));
    match &actions[2] {
        FsAction::WriteTemp(_, c) => {
            assert!(c.starts_with("{\n  \"id\": \""));
            assert!(c.contains("\"name\": \"My Plan\""));
            assert!(c.contains("\"status\": \"active\""));
        }
        _ => panic!("expected the sidecar write"),
    }

    let (second, _) = vault_create_project(ROOT, "My Plan", true).unwrap();
    assert!(second.folder_relative_path.starts_with("notes/projects/my-plan-"));
    assert_ne!(second.folder_relative_path, info.folder_relative_path);
    assert_ne!(second.id, info.id);
}

#[test]
fn update_project_status_only_never_renames() {
    let items = vec![ProjectScan { folder_name: "my-plan".to_string(), meta: meta("X", "My Plan") }];
    let args = UpdateProjectArgs {
        id: "X".to_string(),
        name: None,
        status: Some("done".to_string()),
    };
    assert_eq!(vault_update_project_desired(&items, &args).unwrap(), None);
    let (info, actions) = vault_update_project(ROOT, &args, &items, false).unwrap();
    assert_eq!(info.folder_relative_path, "notes/projects/my-plan");
    assert_eq!(info.status, "done");
    assert_eq!(info.name, "My Plan");
    for a in &actions {
        assert!(!matches!(a, FsAction::RenameDir(_, _)));
    }
}

#[test]
fn update_project_rename_disambiguates() {
    let items = vec![
        ProjectScan { folder_name: "my-plan".to_string(), meta: meta("X", "My Plan") },
        ProjectScan { folder_name: "other".to_string(), meta: meta("Y", "Other") },
    ];
    let args = UpdateProjectArgs {
        id: "X".to_string(),
        name: Some("Other".to_string()),
        status: None,
    };
    assert_eq!(
        vault_update_project_desired(&items, &args).unwrap(),
        Some("other".to_string())
    );
    let (info, actions) = vault_update_project(ROOT, &args, &items, true).unwrap();
    assert!(info.folder_relative_path.starts_with("notes/projects/other-"));
    assert_ne!(info.folder_relative_path, "notes/projects/other");
    assert!(matches!(&actions[0], FsAction::RenameDir(f, _)
        if f == &format!("{}/notes/projects/my-plan", ROOT)));

    let missing = UpdateProjectArgs { id: "Z".to_string(), name: None, status: None };
    assert_eq!(
        vault_update_project(ROOT, &missing, &items, false).unwrap_err(),
        VaultError::NotFound
    );
}

#[test]
fn list_projects_sorted_case_insensitively() {
    let items = vec![
        ProjectScan { folder_name: "beta".to_string(), meta: meta("B", "beta") },
        ProjectScan { folder_name: "alpha".to_string(), meta: meta("A", "Alpha") },
    ];
    let infos = vault_list_projects(&items);
    assert_eq!(infos.len(), 2);
    assert_eq!(infos[0].name, "Alpha");
    assert_eq!(infos[0].folder_relative_path, "notes/projects/alpha");
    assert_eq!(infos[1].name, "beta");
}
