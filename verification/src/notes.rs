//! The note lifecycle: create, import, overwrite, archive, move, and list
//! Markdown notes under the vault's `notes/` subtree. Notes may only be
//! created in or moved to the inbox, folders, or projects subtrees.

use vstd::prelude::*;
use crate::errors::VaultError;
use crate::fsops::{
    self, FsAction, FsActionV, parent_of, spec_write_plan, views_of,
    write_atomic_actions,
};
use crate::paths::{
    kind_from_relative_path, normalize, spec_kind, spec_relative_from_root,
    valid_rel, validate_relative_path, relative_from_root_under,
};
use crate::slug::{note_slug, spec_slug_or};
use crate::sys;
use crate::text::{is_prefix_of, is_sep, push_char, str_concat, str_eq, starts_with_str, spec_trim, trimmed};

verus! {

/// One note as the listing reports it: vault-relative path, kind derived
/// from the path prefix, last-modified time in milliseconds, byte size.
#[derive(Debug, Clone)]
pub struct VaultNoteEntry {
    pub relative_path: String,
    pub kind: String,
    pub mtime_ms: i64,
    pub size: u64,
}

/// The mathematical form of a listed note.
#[verifier::ext_equal]
pub struct NoteEntryV {
    pub relative_path: Seq<char>,
    pub kind: Seq<char>,
    pub mtime_ms: i64,
    pub size: u64,
}

impl View for VaultNoteEntry {
    type V = NoteEntryV;

    open spec fn view(&self) -> NoteEntryV {
        NoteEntryV {
            relative_path: self.relative_path@,
            kind: self.kind@,
            mtime_ms: self.mtime_ms,
            size: self.size,
        }
    }
}

/// One raw directory-walk record, as the shell reports it from disk: the
/// absolute path, whether it is a regular file, and its metadata.
#[derive(Debug, Clone)]
pub struct NoteScan {
    pub path: String,
    pub is_file: bool,
    pub mtime_ms: i64,
    pub size: u64,
}

/// The mathematical form of a walk record.
#[verifier::ext_equal]
pub struct NoteScanV {
    pub path: Seq<char>,
    pub is_file: bool,
    pub mtime_ms: i64,
    pub size: u64,
}

impl View for NoteScan {
    type V = NoteScanV;

    open spec fn view(&self) -> NoteScanV {
        NoteScanV { path: self.path@, is_file: self.is_file, mtime_ms: self.mtime_ms, size: self.size }
    }
}

/// What a fresh note returns to the caller.
#[derive(Debug, Clone)]
pub struct CreateNoteResult {
    pub id: String,
    pub relative_path: String,
    pub contents: String,
}

/// The caller-supplied pieces of an imported note.
#[derive(Debug, Clone)]
pub struct CreateNoteFromMarkdownArgs {
    pub id: String,
    pub target_dir: Option<String>,
    pub title_hint: Option<String>,
    pub contents: String,
}

/// `t` equals `base` or lies strictly under it.
pub open spec fn in_subtree(base: Seq<char>, t: Seq<char>) -> bool {
    t == base || is_prefix_of(base + seq!['/'], t)
}

/// A normalized directory where notes may be created or moved: the inbox,
/// folders, or projects subtree.
pub open spec fn allowed_target(t: Seq<char>) -> bool {
    in_subtree("notes/inbox"@, t) || in_subtree("notes/folders"@, t) || in_subtree(
        "notes/projects"@,
        t,
    )
}

/// Decides `allowed_target` on a normalized directory path.
pub fn allowed_target_dir(t: &str) -> (r: bool)
    ensures
        r == allowed_target(t@),
{
    let r = str_eq(t, "notes/inbox") || starts_with_str(t, "notes/inbox/") || str_eq(
        t,
        "notes/folders",
    ) || starts_with_str(t, "notes/folders/") || str_eq(t, "notes/projects")
        || starts_with_str(t, "notes/projects/");
    proof {
        reveal_strlit("notes/inbox");
        reveal_strlit("notes/inbox/");
        reveal_strlit("notes/folders");
        reveal_strlit("notes/folders/");
        reveal_strlit("notes/projects");
        reveal_strlit("notes/projects/");
        assert("notes/inbox"@ + seq!['/'] =~= "notes/inbox/"@);
        assert("notes/folders"@ + seq!['/'] =~= "notes/folders/"@);
        assert("notes/projects"@ + seq!['/'] =~= "notes/projects/"@);
    }
    r
}

/// The directory a new note lands in: the given one, or the inbox.
pub open spec fn create_target(t: Option<Seq<char>>) -> Seq<char> {
    match t {
        None => "notes/inbox"@,
        Some(t) => normalize(t),
    }
}

/// The view of an optional string argument.
pub open spec fn opt_view(t: Option<String>) -> Option<Seq<char>> {
    match t {
        None => None,
        Some(s) => Some(s@),
    }
}

/// Whether a creation target is acceptable: absent, or a valid relative
/// path inside an allowed subtree.
pub open spec fn target_acceptable(t: Option<Seq<char>>) -> bool {
    match t {
        None => true,
        Some(t) => valid_rel(t) && allowed_target(normalize(t)),
    }
}

/// A new note's vault-relative path: directory, date, slug, short
/// identifier, and the Markdown extension.
pub open spec fn new_note_rel(
    target: Seq<char>,
    date: Seq<char>,
    slug: Seq<char>,
    short: Seq<char>,
) -> Seq<char> {
    target + seq!['/'] + date + seq!['-'] + slug + seq!['-'] + short + ".md"@
}

/// A note is user-placed exactly when it was created outside the inbox.
pub open spec fn spec_user_placed(relp: Seq<char>) -> bool {
    !is_prefix_of("notes/inbox/"@, relp)
}

/// The YAML frontmatter of a fresh note: identifier, equal creation and
/// modification timestamps, empty lists, and the placement flag.
pub open spec fn spec_frontmatter(id: Seq<char>, now: Seq<char>, placed: bool) -> Seq<char> {
    "---\nid: "@ + id + "\ncreated: "@ + now + "\nmodified: "@ + now
        + "\nprojects: []\ntopics: []\nuser_placed: "@ + (if placed {
        "true"@
    } else {
        "false"@
    }) + "\n---\n\n"@
}

/// Composes the frontmatter of a fresh note.
pub(crate) fn note_frontmatter(id: &str, now: &str, placed: bool) -> (r: String)
    ensures
        r@ == spec_frontmatter(id@, now@, placed),
{
    let mut out = String::from_str("---\nid: ");
    out.append(id);
    out.append("\ncreated: ");
    out.append(now);
    out.append("\nmodified: ");
    out.append(now);
    out.append("\nprojects: []\ntopics: []\nuser_placed: ");
    if placed {
        out.append("true");
    } else {
        out.append("false");
    }
    out.append("\n---\n\n");
    out
}

/// Resolves the creation target: the inbox when absent, otherwise the
/// validated, normalized path, which must lie in an allowed subtree.
fn resolve_create_target(target_dir: &Option<String>) -> (r: Result<String, VaultError>)
    ensures
        r is Ok <==> target_acceptable(opt_view(*target_dir)),
        r is Ok ==> r->Ok_0@ == create_target(opt_view(*target_dir)),
        r is Err ==> match opt_view(*target_dir) {
            None => false,
            Some(t) => if !valid_rel(t) {
                r->Err_0 == VaultError::InvalidPath
            } else {
                r->Err_0 == VaultError::InvalidArgument
            },
        },
{
    match target_dir {
        None => {
            let t = String::from_str("notes/inbox");
            proof {
                reveal_strlit("notes/inbox");
            }
            assert(allowed_target(t@)) by {
                assert(in_subtree("notes/inbox"@, t@));
            }
            Ok(t)
        },
        Some(t) => {
            let tn = validate_relative_path(t.as_str())?;
            if !allowed_target_dir(tn.as_str()) {
                return Err(VaultError::InvalidArgument);
            }
            Ok(tn)
        },
    }
}

/// What a successful fresh-note creation looks like, for one choice of the
/// random identifier and suffix and the clock readings: the returned path,
/// frontmatter, and write plan are all determined by them.
pub open spec fn create_note_ok(
    root: Seq<char>,
    tv: Option<Seq<char>>,
    res: CreateNoteResult,
    actions: Seq<FsAction>,
    id: Seq<char>,
    short: Seq<char>,
    date: Seq<char>,
    now: Seq<char>,
    token: Seq<char>,
) -> bool {
    let target = create_target(tv);
    let relp = new_note_rel(target, date, "untitled"@, short);
    &&& id.len() == 36
    &&& short.len() == 8
    &&& res.id@ == id
    &&& res.relative_path@ == relp
    &&& res.contents@ == spec_frontmatter(id, now, spec_user_placed(relp))
    &&& views_of(actions) == spec_write_plan(
        root + seq!['/'] + relp,
        spec_frontmatter(id, now, spec_user_placed(relp)),
        token,
    )
}

/// A fresh-note creation succeeded for some choice of the random values
/// and clock readings.
pub open spec fn create_note_some(
    root: Seq<char>,
    tv: Option<Seq<char>>,
    res: CreateNoteResult,
    actions: Seq<FsAction>,
) -> bool {
    exists|id: Seq<char>, short: Seq<char>, date: Seq<char>, now: Seq<char>, token: Seq<char>|
        create_note_ok(root, tv, res, actions, id, short, date, now, token)
}

/// Creates a fresh note: a fresh identifier, a dated `untitled` filename
/// with a random suffix, frontmatter marking it user-placed exactly when
/// the target is outside the inbox, and an atomic write of the new file.
pub fn vault_create_note(root: &str, target_dir: Option<String>) -> (r: Result<
    (CreateNoteResult, Vec<FsAction>),
    VaultError,
>)
    ensures
        r is Ok <==> target_acceptable(opt_view(target_dir)),
        r is Err ==> match opt_view(target_dir) {
            None => false,
            Some(t) => if !valid_rel(t) {
                r->Err_0 == VaultError::InvalidPath
            } else {
                r->Err_0 == VaultError::InvalidArgument
            },
        },
        r is Ok ==> create_note_some(root@, opt_view(target_dir), r->Ok_0.0, r->Ok_0.1@),
{
    let ghost tdv = opt_view(target_dir);
    let target = resolve_create_target(&target_dir)?;
    let id = sys::new_uuid_hyphenated();
    let simple = sys::new_uuid_simple();
    let short = simple.as_str().substring_char(0, 8);
    let date = sys::today_date();
    let now = sys::now_rfc3339();

    let mut rel_path = str_concat(target.as_str(), "/");
    rel_path.append(date.as_str());
    rel_path.append("-untitled-");
    rel_path.append(short);
    rel_path.append(".md");
    let ghost relp = rel_path@;
    proof {
        reveal_strlit("/");
        reveal_strlit("-untitled-");
        reveal_strlit("untitled");
        assert("-untitled-"@ =~= seq!['-'] + "untitled"@ + seq!['-']);
        assert(relp =~= new_note_rel(target@, date@, "untitled"@, simple@.subrange(0, 8)));
    }
    let placed = !starts_with_str(rel_path.as_str(), "notes/inbox/");
    let contents = note_frontmatter(id.as_str(), now.as_str(), placed);

    let mut full = str_concat(root, "/");
    full.append(rel_path.as_str());
    proof {
        reveal_strlit("/");
        assert(full@[root@.len() as int] == '/');
        fsops::lemma_last_slash_from(full@, root@.len() as int);
    }
    let token = sys::new_uuid_hyphenated();
    match write_atomic_actions(full.as_str(), contents.as_str(), token.as_str()) {
        Err(e) => Err(e),
        Ok(actions) => {
            proof {
                assert(full@ =~= root@ + seq!['/'] + relp);
                assert(views_of(actions@) == spec_write_plan(
                    root@ + seq!['/'] + relp,
                    spec_frontmatter(id@, now@, spec_user_placed(relp)),
                    token@,
                ));
            }
            let out = (CreateNoteResult { id, relative_path: rel_path, contents }, actions);
            proof {
                assert(create_note_ok(
                    root@,
                    tdv,
                    out.0,
                    out.1@,
                    out.0.id@,
                    simple@.subrange(0, 8),
                    date@,
                    now@,
                    token@,
                ));
                assert(create_note_some(root@, tdv, out.0, out.1@));
            }
            Ok(out)
        },
    }
}

/// Creates a fresh note directly in the inbox.
pub fn vault_create_note_in_inbox(root: &str) -> (r: Result<
    (CreateNoteResult, Vec<FsAction>),
    VaultError,
>)
    ensures
        r is Ok,
        r is Ok ==> create_note_some(root@, None, r->Ok_0.0, r->Ok_0.1@),
{
    vault_create_note(root, None)
}

/// The characters of `s` that are not `-`, in order.
pub open spec fn strip_dashes(s: Seq<char>) -> Seq<char>
    decreases s.len(),
{
    if s.len() == 0 {
        Seq::empty()
    } else {
        strip_dashes(s.drop_last()) + (if s.last() == '-' {
            Seq::<char>::empty()
        } else {
            seq![s.last()]
        })
    }
}

/// Removes every `-` from `s`.
fn strip_dashes_exec(s: &str) -> (r: String)
    ensures
        r@ == strip_dashes(s@),
{
    let n = s.unicode_len();
    let mut out = String::new();
    let mut i: usize = 0;
    while i < n
        invariant
            i <= n,
            n == s@.len(),
            out@ =~= strip_dashes(s@.take(i as int)),
        decreases n - i,
    {
        let c = s.get_char(i);
        proof {
            assert(s@.take(i + 1).drop_last() =~= s@.take(i as int));
            assert(s@.take(i + 1).last() == s@[i as int]);
        }
        if c != '-' {
            push_char(&mut out, c);
        }
        proof {
            assert(out@ =~= strip_dashes(s@.take(i + 1)));
        }
        i += 1;
    }
    proof {
        assert(s@.take(n as int) =~= s@);
    }
    out
}

/// The slug an import derives from its title hint.
pub open spec fn import_slug(title_hint: Option<Seq<char>>) -> Seq<char> {
    match title_hint {
        None => "note"@,
        Some(t) => spec_slug_or(t, "note"@),
    }
}

/// What a successful import looks like, for one choice of the clock reading
/// and the random tokens: the returned path embeds the date, the title
/// slug, and the short identifier; the plan guards against a name collision
/// and then writes the given contents atomically.
pub open spec fn import_note_ok(
    root: Seq<char>,
    tv: Option<Seq<char>>,
    id: Seq<char>,
    title_hint: Option<Seq<char>>,
    contents: Seq<char>,
    rel: Seq<char>,
    actions: Seq<FsAction>,
    short: Seq<char>,
    date: Seq<char>,
    token: Seq<char>,
) -> bool {
    let target = create_target(tv);
    let stripped = strip_dashes(spec_trim(id));
    let relp = new_note_rel(target, date, import_slug(title_hint), short);
    &&& (stripped.len() > 0 ==> short == stripped.take(
        if stripped.len() < 8 {
            stripped.len() as int
        } else {
            8
        },
    ))
    &&& (stripped.len() == 0 ==> short.len() == 8)
    &&& rel == relp
    &&& views_of(actions) == seq![FsActionV::FailIfExists(root + seq!['/'] + relp)]
        + spec_write_plan(root + seq!['/'] + relp, contents, token)
}

/// An import succeeded for some choice of the clock reading and tokens.
pub open spec fn import_note_some(
    root: Seq<char>,
    tv: Option<Seq<char>>,
    id: Seq<char>,
    title_hint: Option<Seq<char>>,
    contents: Seq<char>,
    rel: Seq<char>,
    actions: Seq<FsAction>,
) -> bool {
    exists|short: Seq<char>, date: Seq<char>, token: Seq<char>|
        import_note_ok(root, tv, id, title_hint, contents, rel, actions, short, date, token)
}

/// Imports externally authored Markdown as a note: the identifier and
/// contents are caller-supplied; the filename embeds the date, a slug from
/// the title hint, and the first eight non-dash characters of the trimmed
/// identifier (or a random suffix if none remain). Fails with
/// `InvalidArgument` when the identifier is blank, and aborts with
/// `AlreadyExists` when the computed filename is already taken.
pub fn vault_create_note_from_markdown(root: &str, args: CreateNoteFromMarkdownArgs) -> (r: Result<
    (String, Vec<FsAction>),
    VaultError,
>)
    ensures
        r is Ok <==> spec_trim(args.id@).len() > 0 && target_acceptable(opt_view(args.target_dir)),
        r is Err && spec_trim(args.id@).len() == 0 ==> r->Err_0 == VaultError::InvalidArgument,
        r is Err && spec_trim(args.id@).len() > 0 ==> match opt_view(args.target_dir) {
            None => false,
            Some(t) => if !valid_rel(t) {
                r->Err_0 == VaultError::InvalidPath
            } else {
                r->Err_0 == VaultError::InvalidArgument
            },
        },
        r is Ok ==> import_note_some(
            root@,
            opt_view(args.target_dir),
            args.id@,
            opt_view(args.title_hint),
            args.contents@,
            r->Ok_0.0@,
            r->Ok_0.1@,
        ),
{
    let ghost idv = args.id@;
    let ghost tdv = opt_view(args.target_dir);
    let ghost thv = opt_view(args.title_hint);
    let ghost cv = args.contents@;
    let id_trimmed = trimmed(args.id.as_str());
    if id_trimmed.as_str().unicode_len() == 0 {
        return Err(VaultError::InvalidArgument);
    }
    let stripped = strip_dashes_exec(id_trimmed.as_str());
    let sl = stripped.as_str().unicode_len();
    let short: String = if sl == 0 {
        let simple = sys::new_uuid_simple();
        simple.as_str().substring_char(0, 8).to_owned()
    } else {
        let k = if sl < 8 {
            sl
        } else {
            8
        };
        stripped.as_str().substring_char(0, k).to_owned()
    };
    let slug = note_slug(args.title_hint.as_ref());
    let date = sys::today_date();
    let target = resolve_create_target(&args.target_dir)?;

    let mut rel_path = str_concat(target.as_str(), "/");
    rel_path.append(date.as_str());
    rel_path.append("-");
    rel_path.append(slug.as_str());
    rel_path.append("-");
    rel_path.append(short.as_str());
    rel_path.append(".md");
    let ghost relp = rel_path@;
    proof {
        reveal_strlit("/");
        reveal_strlit("-");
        assert("-"@ =~= seq!['-']);
        assert(relp =~= new_note_rel(target@, date@, slug@, short@));
    }

    let mut full = str_concat(root, "/");
    full.append(rel_path.as_str());
    proof {
        reveal_strlit("/");
        assert(full@[root@.len() as int] == '/');
        fsops::lemma_last_slash_from(full@, root@.len() as int);
        assert(full@ =~= root@ + seq!['/'] + relp);
    }
    let guard = full.clone();
    let token = sys::new_uuid_hyphenated();
    match write_atomic_actions(full.as_str(), args.contents.as_str(), token.as_str()) {
        Err(e) => Err(e),
        Ok(mut plan) => {
            let ghost planv = plan@;
            let mut actions: Vec<FsAction> = Vec::new();
            actions.push(FsAction::FailIfExists(guard));
            actions.append(&mut plan);
            proof {
                assert(actions@ =~= seq![FsAction::FailIfExists(guard)] + planv);
                assert(views_of(actions@) =~= seq![
                    FsActionV::FailIfExists(root@ + seq!['/'] + relp),
                ] + views_of(planv));
                assert(views_of(actions@) == seq![
                    FsActionV::FailIfExists(root@ + seq!['/'] + relp),
                ] + spec_write_plan(root@ + seq!['/'] + relp, cv, token@));
                assert(import_note_ok(
                    root@,
                    tdv,
                    idv,
                    thv,
                    cv,
                    rel_path@,
                    actions@,
                    short@,
                    date@,
                    token@,
                ));
                assert(import_note_some(root@, tdv, idv, thv, cv, rel_path@, actions@));
            }
            Ok((rel_path, actions))
        },
    }
}

/// Overwrites a note's whole contents atomically at a validated
/// vault-relative path.
pub fn vault_write_note(root: &str, relative_path: &str, contents: &str) -> (r: Result<
    Vec<FsAction>,
    VaultError,
>)
    ensures
        r is Ok <==> valid_rel(relative_path@),
        r is Err ==> r->Err_0 == VaultError::InvalidPath,
        r is Ok ==> exists|token: Seq<char>|
            views_of(r->Ok_0@) == spec_write_plan(
                root@ + seq!['/'] + normalize(relative_path@),
                contents@,
                token,
            ),
{
    let rel = validate_relative_path(relative_path)?;
    let mut full = str_concat(root, "/");
    full.append(rel.as_str());
    proof {
        reveal_strlit("/");
        assert(full@[root@.len() as int] == '/');
        fsops::lemma_last_slash_from(full@, root@.len() as int);
        assert(full@ =~= root@ + seq!['/'] + normalize(relative_path@));
    }
    let token = sys::new_uuid_hyphenated();
    write_atomic_actions(full.as_str(), contents, token.as_str())
}

/// The archive mirror of a path under `notes/`: the same relative position
/// under `notes/archive/`.
pub open spec fn spec_archive_target(reln: Seq<char>) -> Seq<char> {
    "notes/archive/"@ + reln.skip(6)
}

/// Archives a note: already-archived notes are left where they are; any
/// other note under `notes/` moves to the mirrored position under
/// `notes/archive/`.
pub fn vault_archive_note(root: &str, relative_path: &str, source_exists: bool) -> (r: Result<
    (String, Vec<FsAction>),
    VaultError,
>)
    ensures
        !valid_rel(relative_path@) ==> r is Err && r->Err_0 == VaultError::InvalidPath,
        valid_rel(relative_path@) && !source_exists ==> r is Err && r->Err_0
            == VaultError::NotFound,
        valid_rel(relative_path@) && source_exists ==> {
            let reln = normalize(relative_path@);
            if is_prefix_of("notes/archive/"@, reln) {
                r is Ok && r->Ok_0.0@ == reln && r->Ok_0.1@.len() == 0
            } else if !is_prefix_of("notes/"@, reln) {
                r is Err && r->Err_0 == VaultError::InvalidArgument
            } else {
                r is Ok && r->Ok_0.0@ == spec_archive_target(reln) && views_of(r->Ok_0.1@)
                    =~= seq![
                    FsActionV::EnsureDir(
                        parent_of(root@ + seq!['/'] + spec_archive_target(reln)),
                    ),
                    FsActionV::RenameFile(
                        root@ + seq!['/'] + reln,
                        root@ + seq!['/'] + spec_archive_target(reln),
                    ),
                ]
            }
        },
{
    let rel = validate_relative_path(relative_path)?;
    if !source_exists {
        return Err(VaultError::NotFound);
    }
    if starts_with_str(rel.as_str(), "notes/archive/") {
        return Ok((rel, Vec::new()));
    }
    if !starts_with_str(rel.as_str(), "notes/") {
        return Err(VaultError::InvalidArgument);
    }
    let n = rel.as_str().unicode_len();
    proof {
        reveal_strlit("notes/");
        assert("notes/"@.len() == 6);
    }
    let under = rel.as_str().substring_char(6, n);
    let mut target_rel = String::from_str("notes/archive/");
    target_rel.append(under);
    proof {
        assert(under@ =~= rel@.skip(6));
        assert(target_rel@ == spec_archive_target(rel@));
    }
    let mut src = str_concat(root, "/");
    src.append(rel.as_str());
    let mut dst = str_concat(root, "/");
    dst.append(target_rel.as_str());
    proof {
        reveal_strlit("/");
        assert(dst@[root@.len() as int] == '/');
        fsops::lemma_last_slash_from(dst@, root@.len() as int);
        assert(src@ =~= root@ + seq!['/'] + rel@);
        assert(dst@ =~= root@ + seq!['/'] + spec_archive_target(rel@));
    }
    let parent = match fsops::parent_dir(dst.as_str()) {
        Some(p) => p,
        None => {
            return Err(VaultError::InvalidPath);
        },
    };
    let mut actions: Vec<FsAction> = Vec::new();
    actions.push(FsAction::EnsureDir(parent));
    actions.push(FsAction::RenameFile(src, dst));
    Ok((target_rel, actions))
}

/// Moves a note into one of the allowed subtrees, keeping its filename.
pub fn vault_move_note(
    root: &str,
    relative_path: &str,
    target_dir: &str,
    source_exists: bool,
) -> (r: Result<(String, Vec<FsAction>), VaultError>)
    ensures
        !valid_rel(relative_path@) ==> r is Err && r->Err_0 == VaultError::InvalidPath,
        valid_rel(relative_path@) && !source_exists ==> r is Err && r->Err_0
            == VaultError::NotFound,
        valid_rel(relative_path@) && source_exists && !valid_rel(target_dir@) ==> r is Err
            && r->Err_0 == VaultError::InvalidPath,
        valid_rel(relative_path@) && source_exists && valid_rel(target_dir@) && !allowed_target(
            normalize(target_dir@),
        ) ==> r is Err && r->Err_0 == VaultError::InvalidArgument,
        valid_rel(relative_path@) && source_exists && valid_rel(target_dir@) && allowed_target(
            normalize(target_dir@),
        ) ==> {
            let reln = normalize(relative_path@);
            let tn = normalize(target_dir@);
            if reln.len() == 0 {
                r is Err && r->Err_0 == VaultError::InvalidArgument
            } else {
                let dest = tn + seq!['/'] + fsops::file_name_of(reln);
                r is Ok && r->Ok_0.0@ == dest && views_of(r->Ok_0.1@) =~= seq![
                    FsActionV::EnsureDir(root@ + seq!['/'] + tn),
                    FsActionV::RenameFile(root@ + seq!['/'] + reln, root@ + seq!['/'] + dest),
                ]
            }
        },
{
    let rel = validate_relative_path(relative_path)?;
    if !source_exists {
        return Err(VaultError::NotFound);
    }
    let tn = validate_relative_path(target_dir)?;
    if !allowed_target_dir(tn.as_str()) {
        return Err(VaultError::InvalidArgument);
    }
    let n = rel.as_str().unicode_len();
    if n == 0 {
        return Err(VaultError::InvalidArgument);
    }
    let mut j: usize = n;
    while j > 0 && rel.as_str().get_char(j - 1) != '/'
        invariant
            j <= n,
            n == rel@.len(),
            forall|k: int| j <= k < n ==> rel@[k] != '/',
        decreases j,
    {
        j -= 1;
    }
    let file_name = rel.as_str().substring_char(j, n);
    proof {
        if j == 0 {
            fsops::lemma_no_slash(rel@);
        } else {
            fsops::lemma_last_slash_at(rel@, j - 1);
        }
        assert(file_name@ =~= fsops::file_name_of(rel@));
    }
    let mut dest_rel = str_concat(tn.as_str(), "/");
    dest_rel.append(file_name);
    let mut src = str_concat(root, "/");
    src.append(rel.as_str());
    let mut dst = str_concat(root, "/");
    dst.append(dest_rel.as_str());
    let mut dest_dir = str_concat(root, "/");
    dest_dir.append(tn.as_str());
    proof {
        reveal_strlit("/");
        assert(dest_rel@ =~= tn@ + seq!['/'] + fsops::file_name_of(rel@));
        assert(src@ =~= root@ + seq!['/'] + rel@);
        assert(dst@ =~= root@ + seq!['/'] + dest_rel@);
        assert(dest_dir@ =~= root@ + seq!['/'] + tn@);
    }
    let mut actions: Vec<FsAction> = Vec::new();
    actions.push(FsAction::EnsureDir(dest_dir));
    actions.push(FsAction::RenameFile(src, dst));
    Ok((dest_rel, actions))
}

/// Placement law: a note created with no target lands under the inbox and
/// is not user-placed; one created under the folders subtree is user-placed.
pub proof fn lemma_create_note_placement(
    date: Seq<char>,
    slug: Seq<char>,
    short: Seq<char>,
    t: Seq<char>,
)
    ensures
        !spec_user_placed(new_note_rel(create_target(None), date, slug, short)),
        is_prefix_of("notes/inbox"@, new_note_rel(create_target(None), date, slug, short)),
        is_prefix_of("notes/folders"@, t) ==> spec_user_placed(new_note_rel(t, date, slug, short)),
{
    reveal_strlit("notes/inbox");
    reveal_strlit("notes/inbox/");
    reveal_strlit("notes/folders");
    let relp = new_note_rel("notes/inbox"@, date, slug, short);
    assert(relp.subrange(0, 12) =~= "notes/inbox/"@);
    assert(relp.subrange(0, 11) =~= "notes/inbox"@);
    if is_prefix_of("notes/folders"@, t) {
        let rp = new_note_rel(t, date, slug, short);
        if is_prefix_of("notes/inbox/"@, rp) {
            assert(rp.subrange(0, 12)[6] == rp[6]);
            assert(t.subrange(0, 13)[6] == t[6]);
            assert(rp[6] == t[6]);
            assert(false);
        }
    }
}

/// Archive mirror law: the archive target of a note under `notes/` is the
/// same relative position under `notes/archive/`, and that target itself
/// lies under `notes/archive/`, so archiving it again leaves it in place.
pub proof fn lemma_archive_mirror(reln: Seq<char>)
    requires
        is_prefix_of("notes/"@, reln),
    ensures
        is_prefix_of("notes/archive/"@, spec_archive_target(reln)),
        spec_archive_target(reln).skip(14) == reln.skip(6),
        "notes/"@ + spec_archive_target(reln).skip(14) == reln,
{
    reveal_strlit("notes/");
    reveal_strlit("notes/archive/");
    let target = spec_archive_target(reln);
    assert(target.subrange(0, 14) =~= "notes/archive/"@);
    assert(target.skip(14) =~= reln.skip(6));
    assert("notes/"@ + reln.skip(6) =~= reln) by {
        assert(reln.subrange(0, 6) =~= "notes/"@);
    }
}

/// Archive idempotence law: the archive target of a normalized note path
/// under `notes/` is itself a valid, already-normal path under
/// `notes/archive/`, so archiving it a second time takes the no-change
/// branch of `vault_archive_note` and returns the same path with no
/// filesystem action.
pub proof fn lemma_archive_idempotent(p: Seq<char>)
    requires
        valid_rel(p),
        is_prefix_of("notes/"@, normalize(p)),
        !is_prefix_of("notes/archive/"@, normalize(p)),
    ensures
        ({
            let target = spec_archive_target(normalize(p));
            &&& valid_rel(target)
            &&& normalize(target) == target
            &&& is_prefix_of("notes/archive/"@, target)
        }),
{
    reveal_strlit("notes/");
    reveal_strlit("notes");
    reveal_strlit("archive");
    reveal_strlit("notes/archive");
    reveal_strlit("notes/archive/");
    let reln = normalize(p);
    let cs = crate::paths::components(p);
    crate::paths::lemma_split_no_sep(p);
    crate::paths::lemma_clean_no_sep(crate::paths::split_path(p));
    crate::paths::lemma_clean_all_kept(crate::paths::split_path(p));
    assert(reln.len() >= 6);
    assert(cs.len() >= 1) by {
        if cs.len() == 0 {
            assert(reln =~= Seq::<char>::empty());
        }
    }
    crate::paths::lemma_split_join(cs);
    let rest = reln.skip(6);
    assert("notes/"@ + rest =~= reln) by {
        assert(reln.subrange(0, 6) =~= "notes/"@);
    }
    crate::paths::lemma_split_sepfree("notes"@);
    assert("notes/"@.drop_last() =~= "notes"@);
    assert(crate::paths::split_path("notes/"@) == crate::paths::split_path(
        "notes"@,
    ).push(Seq::<char>::empty()));
    crate::paths::lemma_split_after_sep("notes/"@, rest);
    assert(crate::paths::split_path("notes/"@).drop_last() =~= seq!["notes"@]);
    let sr = crate::paths::split_path(rest);
    assert(cs == seq!["notes"@] + sr);
    assert(sr =~= cs.skip(1));

    let target = spec_archive_target(reln);
    let a2 = "notes/archive/"@;
    crate::paths::lemma_split_sepfree("archive"@);
    crate::paths::lemma_split_after_sep("notes/"@, "archive"@);
    assert("notes/"@ + "archive"@ =~= "notes/archive"@);
    assert(crate::paths::split_path("notes/archive"@) =~= seq!["notes"@, "archive"@]);
    assert(a2.drop_last() =~= "notes/archive"@);
    assert(crate::paths::split_path(a2) == crate::paths::split_path(
        "notes/archive"@,
    ).push(Seq::<char>::empty()));
    crate::paths::lemma_split_after_sep(a2, rest);
    assert(crate::paths::split_path(a2).drop_last() =~= seq!["notes"@, "archive"@]);
    assert(crate::paths::split_path(target) == seq!["notes"@, "archive"@] + sr);

    assert(crate::paths::keep_comp("notes"@));
    assert(crate::paths::keep_comp("archive"@));
    assert forall|i: int|
        0 <= i < crate::paths::split_path(target).len() implies crate::paths::keep_comp(
        #[trigger] crate::paths::split_path(target)[i],
    ) by {
        if i >= 2 {
            assert(crate::paths::split_path(target)[i] == cs[i - 1]);
        }
    }
    crate::paths::lemma_clean_kept(crate::paths::split_path(target));

    crate::paths::lemma_split_path_len(rest);
    crate::paths::lemma_join_cons("archive"@, sr);
    crate::paths::lemma_join_cons("notes"@, seq!["archive"@] + sr);
    assert(seq!["notes"@] + (seq!["archive"@] + sr) =~= seq!["notes"@, "archive"@] + sr);
    crate::paths::lemma_join_cons("notes"@, sr);
    assert(seq!["notes"@] + sr =~= cs);
    assert(crate::paths::join_slash(cs) == "notes"@ + seq!['/'] + crate::paths::join_slash(sr));
    assert(rest =~= crate::paths::join_slash(sr)) by {
        assert(("notes/"@ + rest).skip(6) =~= rest);
        assert(("notes"@ + seq!['/'] + crate::paths::join_slash(sr)).skip(6)
            =~= crate::paths::join_slash(sr));
    }
    assert(normalize(target) == crate::paths::join_slash(seq!["notes"@, "archive"@] + sr));
    assert(normalize(target) =~= a2 + rest);
    assert(target =~= a2 + rest);

    assert(!crate::paths::is_abs(target)) by {
        assert(target[0] == 'n');
    }
    assert(!crate::paths::components(target).contains(crate::paths::dotdot())) by {
        assert forall|i: int|
            0 <= i < crate::paths::components(target).len() implies #[trigger] crate::paths::components(
            target,
        )[i] != crate::paths::dotdot() by {
            if i >= 2 {
                assert(crate::paths::components(target)[i] == cs[i - 1]);
                assert(!cs.contains(crate::paths::dotdot()));
            }
        }
    }
    assert(is_prefix_of("notes/archive/"@, target)) by {
        assert(target.subrange(0, 14) =~= a2);
    }
}

/// A Markdown path: it ends in `.md`, and the dot does not begin the
/// filename.
pub open spec fn is_md_path(s: Seq<char>) -> bool {
    s.len() >= 4 && s[s.len() - 3] == '.' && s[s.len() - 2] == 'm' && s[s.len() - 1] == 'd'
        && !is_sep(s[s.len() - 4])
}

/// Decides `is_md_path` on a real path.
fn md_path(s: &str) -> (r: bool)
    ensures
        r == is_md_path(s@),
{
    let n = s.unicode_len();
    if n < 4 {
        return false;
    }
    let c = s.get_char(n - 4);
    s.get_char(n - 3) == '.' && s.get_char(n - 2) == 'm' && s.get_char(n - 1) == 'd' && c != '/'
        && c != '\\'
}

/// A scanned file the listing cannot express: a Markdown file that does not
/// lie under the given root.
pub open spec fn note_offender(root: Seq<char>, e: NoteScanV) -> bool {
    e.is_file && is_md_path(e.path) && spec_relative_from_root(root, e.path) is None
}

/// Whether a scanned entry appears in the listing: a Markdown file under the
/// root, and outside the archive subtree unless archived notes were asked
/// for.
pub open spec fn note_selected(root: Seq<char>, include_archived: bool, e: NoteScanV) -> bool {
    &&& e.is_file
    &&& is_md_path(e.path)
    &&& spec_relative_from_root(root, e.path) is Some
    &&& (include_archived || !is_prefix_of(
        "notes/archive/"@,
        spec_relative_from_root(root, e.path)->0,
    ))
}

/// The listed form of one selected entry.
pub open spec fn note_entry_of(root: Seq<char>, e: NoteScanV) -> NoteEntryV {
    let rel = spec_relative_from_root(root, e.path)->0;
    NoteEntryV { relative_path: rel, kind: spec_kind(rel), mtime_ms: e.mtime_ms, size: e.size }
}

/// The listed entries of a scan, in scan order.
pub open spec fn selected_entries(
    root: Seq<char>,
    include_archived: bool,
    s: Seq<NoteScanV>,
) -> Seq<NoteEntryV>
    decreases s.len(),
{
    if s.len() == 0 {
        Seq::empty()
    } else {
        selected_entries(root, include_archived, s.drop_last()) + (if note_selected(
            root,
            include_archived,
            s.last(),
        ) {
            seq![note_entry_of(root, s.last())]
        } else {
            Seq::<NoteEntryV>::empty()
        })
    }
}

/// The views of a list of notes.
pub open spec fn entry_views(s: Seq<VaultNoteEntry>) -> Seq<NoteEntryV> {
    s.map_values(|x: VaultNoteEntry| x@)
}

/// Lists the Markdown notes found by a scan of `notes/`: archived notes only
/// when asked for, each with its kind, size, and modification time, sorted
/// by modification time with the most recently modified first.
pub fn vault_list_notes(root: &str, include_archived: bool, scan: &Vec<NoteScan>) -> (r: Result<
    Vec<VaultNoteEntry>,
    VaultError,
>)
    ensures
        r is Err <==> exists|i: int|
            0 <= i < scan@.len() && note_offender(root@, #[trigger] scan@[i]@),
        r is Err ==> r->Err_0 == VaultError::OutsideVault,
        r is Ok ==> entry_views(r->Ok_0@).to_multiset() == selected_entries(
            root@,
            include_archived,
            scan@.map_values(|e: NoteScan| e@),
        ).to_multiset(),
        r is Ok ==> forall|i: int, j: int|
            0 <= i < j < r->Ok_0@.len() ==> r->Ok_0@[i].mtime_ms >= r->Ok_0@[j].mtime_ms,
{
    broadcast use vstd::seq_lib::group_to_multiset_ensures;

    let ghost scanv = scan@.map_values(|e: NoteScan| e@);
    let mut entries: Vec<VaultNoteEntry> = Vec::new();
    let mut i: usize = 0;
    while i < scan.len()
        invariant
            i <= scan@.len(),
            scanv =~= scan@.map_values(|e: NoteScan| e@),
            entries@.len() <= i,
            entry_views(entries@) =~= selected_entries(root@, include_archived, scanv.take(i as int)),
            forall|k: int| 0 <= k < i ==> !note_offender(root@, #[trigger] scan@[k]@),
        decreases scan@.len() - i,
    {
        proof {
            assert(scanv.take(i + 1).drop_last() =~= scanv.take(i as int));
            assert(scanv.take(i + 1).last() == scanv[i as int]);
            assert(scanv[i as int] == scan@[i as int]@);
        }
        let e = &scan[i];
        if e.is_file && md_path(e.path.as_str()) {
            match relative_from_root_under(root, e.path.as_str()) {
                Err(_) => {
                    proof {
                        assert(note_offender(root@, scan@[i as int]@));
                    }
                    return Err(VaultError::OutsideVault);
                },
                Ok(rel) => {
                    if include_archived || !starts_with_str(rel.as_str(), "notes/archive/") {
                        let kind = kind_from_relative_path(rel.as_str());
                        let ghost entv = entries@;
                        let entry = VaultNoteEntry {
                            relative_path: rel,
                            kind,
                            mtime_ms: e.mtime_ms,
                            size: e.size,
                        };
                        let ghost ev = entry@;
                        entries.push(entry);
                        proof {
                            assert(entries@[entv.len() as int]@ == ev);
                            assert(ev =~= note_entry_of(root@, scanv[i as int]));
                        }
                    }
                },
            }
        }
        proof {
            assert(entry_views(entries@) =~= selected_entries(
                root@,
                include_archived,
                scanv.take(i + 1),
            ));
        }
        i += 1;
    }
    proof {
        assert(scanv.take(scan@.len() as int) =~= scanv);
    }
    let ghost orig = entry_views(entries@).to_multiset();
    let mut work = entries;
    let mut out: Vec<VaultNoteEntry> = Vec::new();
    while work.len() > 0
        invariant
            entry_views(out@).to_multiset().add(entry_views(work@).to_multiset()) =~= orig,
            forall|i: int, j: int|
                0 <= i < j < out@.len() ==> out@[i].mtime_ms >= out@[j].mtime_ms,
            forall|i: int, j: int|
                0 <= i < out@.len() && 0 <= j < work@.len() ==> out@[i].mtime_ms
                    >= work@[j].mtime_ms,
        decreases work.len(),
    {
        let mut m: usize = 0;
        let mut k: usize = 1;
        while k < work.len()
            invariant
                1 <= k <= work@.len(),
                m < k,
                forall|t: int| 0 <= t < k ==> work@[m as int].mtime_ms >= #[trigger] work@[t].mtime_ms,
            decreases work@.len() - k,
        {
            if work[k].mtime_ms > work[m].mtime_ms {
                m = k;
            }
            k += 1;
        }
        let ghost workv = entry_views(work@);
        let ghost outv = entry_views(out@);
        let e = work.remove(m);
        out.push(e);
        proof {
            assert(entry_views(work@) =~= workv.remove(m as int));
            vstd::seq_lib::to_multiset_remove(workv, m as int);
            assert(entry_views(out@) =~= outv.push(e@));
            vstd::seq_lib::to_multiset_build(outv, e@);
            assert(workv[m as int] == e@);
            vstd::seq_lib::to_multiset_contains(workv, e@);
            assert(workv.contains(e@)) by {
                assert(workv[m as int] == e@);
            }
            assert(workv.to_multiset().count(e@) > 0);
            assert(entry_views(out@).to_multiset().add(entry_views(work@).to_multiset())
                =~= orig);
        }
    }
    Ok(out)
}

} // verus!
