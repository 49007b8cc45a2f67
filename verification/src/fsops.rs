//! The primitive filesystem actions that operations plan. Every operation
//! returns its result together with a sequence of these actions; an
//! unverified shell performs them in order on the real disk. The model here
//! gives each action a meaning over a map from absolute file path to file
//! contents, so that what a plan does to the stored files can be proved.

use vstd::prelude::*;
use crate::errors::VaultError;
use crate::sys;
use crate::text::{is_prefix_of, str_concat};

verus! {

/// One primitive filesystem step.
#[derive(Debug, Clone)]
pub enum FsAction {
    /// Create the directory and all missing ancestors; existing directories
    /// are left alone.
    EnsureDir(String),
    /// Write the contents to a fresh temporary file at the given path.
    WriteTemp(String, String),
    /// Remove the file if it exists; absent files are left alone.
    RemoveFileIfExists(String),
    /// Rename one file from the first path to the second.
    RenameFile(String, String),
    /// Rename a directory, carrying its whole subtree along.
    RenameDir(String, String),
    /// Remove a directory that holds no entries.
    RemoveEmptyDir(String),
    /// Abort the whole plan with `AlreadyExists` if the path exists.
    FailIfExists(String),
}

/// The mathematical form of an action: paths and contents as sequences.
pub enum FsActionV {
    EnsureDir(Seq<char>),
    WriteTemp(Seq<char>, Seq<char>),
    RemoveFileIfExists(Seq<char>),
    RenameFile(Seq<char>, Seq<char>),
    RenameDir(Seq<char>, Seq<char>),
    RemoveEmptyDir(Seq<char>),
    FailIfExists(Seq<char>),
}

impl View for FsAction {
    type V = FsActionV;

    open spec fn view(&self) -> FsActionV {
        match self {
            FsAction::EnsureDir(p) => FsActionV::EnsureDir(p@),
            FsAction::WriteTemp(p, c) => FsActionV::WriteTemp(p@, c@),
            FsAction::RemoveFileIfExists(p) => FsActionV::RemoveFileIfExists(p@),
            FsAction::RenameFile(f, t) => FsActionV::RenameFile(f@, t@),
            FsAction::RenameDir(f, t) => FsActionV::RenameDir(f@, t@),
            FsAction::RemoveEmptyDir(p) => FsActionV::RemoveEmptyDir(p@),
            FsAction::FailIfExists(p) => FsActionV::FailIfExists(p@),
        }
    }
}

/// The views of a whole plan.
pub open spec fn views_of(s: Seq<FsAction>) -> Seq<FsActionV> {
    s.map_values(|a: FsAction| a@)
}

/// The stored files: absolute path to complete contents. A file is either
/// wholly present or wholly absent, which is exactly the guarantee the
/// write-temp-then-rename discipline provides to readers.
pub type FsModel = Map<Seq<char>, Seq<char>>;

/// `k` lies at or under the directory path `p`.
pub open spec fn under_path(p: Seq<char>, k: Seq<char>) -> bool {
    k == p || is_prefix_of(p + seq!['/'], k)
}

/// What one action does to the stored files. Directory-only actions change
/// no file; `RemoveEmptyDir` is directory-only because it applies only to a
/// directory with no entries.
pub open spec fn apply_action(fs: FsModel, a: FsActionV) -> FsModel {
    match a {
        FsActionV::EnsureDir(_) => fs,
        FsActionV::WriteTemp(p, c) => fs.insert(p, c),
        FsActionV::RemoveFileIfExists(p) => fs.remove(p),
        FsActionV::RenameFile(f, t) => if fs.dom().contains(f) {
            fs.remove(f).insert(t, fs[f])
        } else {
            fs
        },
        FsActionV::RenameDir(f, t) => Map::new(
            |k: Seq<char>|
                (fs.dom().contains(k) && !under_path(f, k)) || (exists|k0: Seq<char>|
                    fs.dom().contains(k0) && under_path(f, k0) && k == t + k0.skip(f.len() as int)),
            |k: Seq<char>|
                if fs.dom().contains(k) && !under_path(f, k) {
                    fs[k]
                } else {
                    fs[f + k.skip(t.len() as int)]
                },
        ),
        FsActionV::RemoveEmptyDir(_) => fs,
        FsActionV::FailIfExists(_) => fs,
    }
}

/// What a whole plan does to the stored files, action by action.
pub open spec fn apply_actions(fs: FsModel, s: Seq<FsActionV>) -> FsModel
    decreases s.len(),
{
    if s.len() == 0 {
        fs
    } else {
        apply_action(apply_actions(fs, s.drop_last()), s.last())
    }
}

/// An action that can change some stored file.
pub open spec fn touches_files(a: FsActionV) -> bool {
    match a {
        FsActionV::EnsureDir(_) => false,
        FsActionV::RemoveEmptyDir(_) => false,
        FsActionV::FailIfExists(_) => false,
        _ => true,
    }
}

/// A plan of directory-only actions leaves every stored file as it was.
pub proof fn lemma_dir_only_plan(fs: FsModel, s: Seq<FsActionV>)
    requires
        forall|i: int| 0 <= i < s.len() ==> !touches_files(#[trigger] s[i]),
    ensures
        apply_actions(fs, s) == fs,
    decreases s.len(),
{
    if s.len() > 0 {
        lemma_dir_only_plan(fs, s.drop_last());
    }
}

/// The index of the last `/` in `s`, or `-1` if there is none.
pub open spec fn last_slash(s: Seq<char>) -> int
    decreases s.len(),
{
    if s.len() == 0 {
        -1
    } else if s.last() == '/' {
        s.len() - 1
    } else {
        last_slash(s.drop_last())
    }
}

/// The directory part of an absolute path: everything before the last `/`.
pub open spec fn parent_of(s: Seq<char>) -> Seq<char> {
    s.take(last_slash(s))
}

/// The filename part of an absolute path: everything after the last `/`.
pub open spec fn file_name_of(s: Seq<char>) -> Seq<char> {
    s.skip(last_slash(s) + 1)
}

/// The sibling temporary path used while writing `s`: a hidden name beside
/// the target, made unique by a random token.
pub open spec fn tmp_path_of(s: Seq<char>, token: Seq<char>) -> Seq<char> {
    parent_of(s) + "/."@ + file_name_of(s) + ".tmp-"@ + token
}

/// The atomic-write plan: make the parent directory, write the whole new
/// contents to a sibling temporary file, drop any old file, and rename the
/// temporary file into place. A reader therefore only ever sees the old
/// contents or the new contents, never a mixture.
pub open spec fn spec_write_plan(path: Seq<char>, contents: Seq<char>, token: Seq<char>) -> Seq<
    FsActionV,
> {
    seq![
        FsActionV::EnsureDir(parent_of(path)),
        FsActionV::WriteTemp(tmp_path_of(path, token), contents),
        FsActionV::RemoveFileIfExists(path),
        FsActionV::RenameFile(tmp_path_of(path, token), path),
    ]
}

/// The last-slash index is always inside the sequence or `-1`.
pub proof fn lemma_last_slash_range(s: Seq<char>)
    ensures
        -1 <= last_slash(s) < s.len(),
    decreases s.len(),
{
    if s.len() > 0 && s.last() != '/' {
        lemma_last_slash_range(s.drop_last());
    }
}

/// A path with a `/` somewhere has a last slash.
pub proof fn lemma_last_slash_from(s: Seq<char>, k: int)
    requires
        0 <= k < s.len(),
        s[k] == '/',
    ensures
        last_slash(s) >= 0,
    decreases s.len(),
{
    if s.last() != '/' {
        lemma_last_slash_from(s.drop_last(), k);
    }
}

pub(crate) proof fn lemma_last_slash_at(s: Seq<char>, j: int)
    requires
        0 <= j < s.len(),
        s[j] == '/',
        forall|k: int| j < k < s.len() ==> s[k] != '/',
    ensures
        last_slash(s) == j,
    decreases s.len(),
{
    if j == s.len() - 1 {
    } else {
        lemma_last_slash_at(s.drop_last(), j);
    }
}

pub(crate) proof fn lemma_no_slash(s: Seq<char>)
    requires
        forall|k: int| 0 <= k < s.len() ==> s[k] != '/',
    ensures
        last_slash(s) == -1,
    decreases s.len(),
{
    if s.len() > 0 {
        lemma_no_slash(s.drop_last());
    }
}

/// The directory part of an absolute path, or `None` if it has no `/`.
pub(crate) fn parent_dir(path: &str) -> (r: Option<String>)
    ensures
        r is Some <==> last_slash(path@) >= 0,
        r is Some ==> r->0@ == parent_of(path@),
{
    let n = path.unicode_len();
    let mut j: usize = n;
    while j > 0 && path.get_char(j - 1) != '/'
        invariant
            j <= n,
            n == path@.len(),
            forall|k: int| j <= k < n ==> path@[k] != '/',
        decreases j,
    {
        j -= 1;
    }
    if j == 0 {
        proof {
            lemma_no_slash(path@);
        }
        return None;
    }
    proof {
        lemma_last_slash_at(path@, j - 1);
    }
    let parent = path.substring_char(0, j - 1);
    proof {
        assert(parent@ =~= parent_of(path@));
    }
    Some(parent.to_owned())
}

/// The actions of one atomic write, with the uniqueness token given.
pub(crate) fn write_atomic_actions(path: &str, contents: &str, token: &str) -> (r: Result<
    Vec<FsAction>,
    VaultError,
>)
    ensures
        r is Ok <==> last_slash(path@) >= 0,
        r is Ok ==> views_of(r->Ok_0@) =~= spec_write_plan(path@, contents@, token@),
        r is Err ==> r->Err_0 == VaultError::InvalidPath,
{
    let n = path.unicode_len();
    let mut j: usize = n;
    while j > 0 && path.get_char(j - 1) != '/'
        invariant
            j <= n,
            n == path@.len(),
            forall|k: int| j <= k < n ==> path@[k] != '/',
        decreases j,
    {
        j -= 1;
    }
    if j == 0 {
        proof {
            lemma_no_slash(path@);
        }
        return Err(VaultError::InvalidPath);
    }
    proof {
        lemma_last_slash_at(path@, j - 1);
    }
    let parent = path.substring_char(0, j - 1);
    let file = path.substring_char(j, n);
    proof {
        assert(parent@ =~= parent_of(path@));
        assert(file@ =~= file_name_of(path@));
    }
    let mut tmp = str_concat(parent, "/.");
    tmp.append(file);
    tmp.append(".tmp-");
    tmp.append(token);
    proof {
        assert(tmp@ =~= tmp_path_of(path@, token@));
    }
    let mut actions: Vec<FsAction> = Vec::new();
    actions.push(FsAction::EnsureDir(parent.to_owned()));
    actions.push(FsAction::WriteTemp(tmp, contents.to_owned()));
    actions.push(FsAction::RemoveFileIfExists(path.to_owned()));
    let tmp2 = {
        let p2 = path.substring_char(0, j - 1);
        let f2 = path.substring_char(j, n);
        let mut t2 = str_concat(p2, "/.");
        t2.append(f2);
        t2.append(".tmp-");
        t2.append(token);
        t2
    };
    proof {
        assert(tmp2@ =~= tmp_path_of(path@, token@));
    }
    actions.push(FsAction::RenameFile(tmp2, path.to_owned()));
    proof {
        assert(views_of(actions@) =~= spec_write_plan(path@, contents@, token@));
    }
    Ok(actions)
}

/// Plans one atomic overwrite of `path` with `contents`, using a fresh
/// random token for the temporary sibling file.
pub fn write_atomic(path: &str, contents: &str) -> (r: Result<Vec<FsAction>, VaultError>)
    ensures
        r is Ok <==> last_slash(path@) >= 0,
        r is Ok ==> exists|token: Seq<char>|
            views_of(r->Ok_0@) == spec_write_plan(path@, contents@, token),
        r is Err ==> r->Err_0 == VaultError::InvalidPath,
{
    let token = sys::new_uuid_hyphenated();
    let r = write_atomic_actions(path, contents, token.as_str());
    proof {
        if last_slash(path@) >= 0 {
            assert(views_of(r->Ok_0@) == spec_write_plan(path@, contents@, token@));
        }
    }
    r
}

/// The temporary sibling is never the target itself, so the plan's rename
/// always lands the complete new contents at the target.
pub proof fn lemma_tmp_differs(path: Seq<char>, token: Seq<char>)
    requires
        last_slash(path) >= 0,
    ensures
        tmp_path_of(path, token) != path,
{
    reveal_strlit("/.");
    reveal_strlit(".tmp-");
    lemma_last_slash_range(path);
    assert(tmp_path_of(path, token).len() == parent_of(path).len() + 2 + file_name_of(path).len()
        + 5 + token.len());
    assert(path.len() == parent_of(path).len() + 1 + file_name_of(path).len());
}

/// After an atomic-write plan runs, the target holds exactly the new
/// contents.
pub proof fn lemma_write_plan_lands(
    fs: FsModel,
    path: Seq<char>,
    contents: Seq<char>,
    token: Seq<char>,
)
    requires
        last_slash(path) >= 0,
    ensures
        apply_actions(fs, spec_write_plan(path, contents, token)).dom().contains(path),
        apply_actions(fs, spec_write_plan(path, contents, token))[path] == contents,
{
    lemma_tmp_differs(path, token);
    let plan = spec_write_plan(path, contents, token);
    let tmp = tmp_path_of(path, token);
    let fs0 = apply_actions(fs, plan.take(0));
    let fs1 = apply_actions(fs, plan.take(1));
    let fs2 = apply_actions(fs, plan.take(2));
    let fs3 = apply_actions(fs, plan.take(3));
    assert(plan.take(0).len() == 0);
    assert(fs0 == fs);
    assert(plan.take(1).drop_last() =~= plan.take(0));
    assert(plan.take(1).last() == plan[0]);
    assert(fs1 == apply_action(fs0, plan[0]));
    assert(plan.take(2).drop_last() =~= plan.take(1));
    assert(plan.take(2).last() == plan[1]);
    assert(fs2 == apply_action(fs1, plan[1]));
    assert(fs2 == fs1.insert(tmp, contents));
    assert(plan.take(3).drop_last() =~= plan.take(2));
    assert(plan.take(3).last() == plan[2]);
    assert(fs3 == apply_action(fs2, plan[2]));
    assert(fs3 == fs2.remove(path));
    assert(plan.drop_last() =~= plan.take(3));
    assert(apply_actions(fs, plan) == apply_action(fs3, plan[3]));
    assert(fs3.dom().contains(tmp));
    assert(fs3[tmp] == contents);
    assert(apply_actions(fs, plan) == fs3.remove(tmp).insert(path, contents));
}

/// At every step of an atomic-write plan, a reader of the target sees
/// either the complete old contents or the complete new contents — never a
/// mixture. The only other visible state is the documented window in which
/// the target is briefly absent, between the removal and the rename.
pub proof fn lemma_write_plan_states(
    fs: FsModel,
    path: Seq<char>,
    contents: Seq<char>,
    token: Seq<char>,
    k: int,
)
    requires
        last_slash(path) >= 0,
        0 <= k <= 4,
    ensures
        ({
            let fsk = apply_actions(fs, spec_write_plan(path, contents, token).take(k));
            if k <= 2 {
                fsk.dom().contains(path) == fs.dom().contains(path) && (fs.dom().contains(path)
                    ==> fsk[path] == fs[path])
            } else if k == 3 {
                !fsk.dom().contains(path)
            } else {
                fsk.dom().contains(path) && fsk[path] == contents
            }
        }),
{
    lemma_tmp_differs(path, token);
    let plan = spec_write_plan(path, contents, token);
    let tmp = tmp_path_of(path, token);
    let fs0 = apply_actions(fs, plan.take(0));
    let fs1 = apply_actions(fs, plan.take(1));
    let fs2 = apply_actions(fs, plan.take(2));
    let fs3 = apply_actions(fs, plan.take(3));
    assert(plan.take(0).len() == 0);
    assert(fs0 == fs);
    assert(plan.take(1).drop_last() =~= plan.take(0));
    assert(plan.take(1).last() == plan[0]);
    assert(fs1 == apply_action(fs0, plan[0]));
    assert(plan.take(2).drop_last() =~= plan.take(1));
    assert(plan.take(2).last() == plan[1]);
    assert(fs2 == fs1.insert(tmp, contents));
    assert(plan.take(3).drop_last() =~= plan.take(2));
    assert(plan.take(3).last() == plan[2]);
    assert(fs3 == fs2.remove(path));
    if k == 4 {
        assert(plan.take(4).drop_last() =~= plan.take(3));
        assert(plan.take(4).last() == plan[3]);
        assert(fs3.dom().contains(tmp));
        assert(apply_actions(fs, plan.take(4)) == fs3.remove(tmp).insert(path, contents));
    }
}

/// Two successive atomic writes leave the second contents at the target:
/// a reader sees complete old or complete new contents at every step, and
/// the final state is the second write.
pub proof fn lemma_write_twice(
    fs: FsModel,
    path: Seq<char>,
    a: Seq<char>,
    b: Seq<char>,
    t1: Seq<char>,
    t2: Seq<char>,
)
    requires
        last_slash(path) >= 0,
    ensures
        ({
            let fs1 = apply_actions(fs, spec_write_plan(path, a, t1));
            let fs2 = apply_actions(fs1, spec_write_plan(path, b, t2));
            fs1.dom().contains(path) && fs1[path] == a && fs2.dom().contains(path) && fs2[path]
                == b
        }),
{
    lemma_write_plan_lands(fs, path, a, t1);
    let fs1 = apply_actions(fs, spec_write_plan(path, a, t1));
    lemma_write_plan_lands(fs1, path, b, t2);
}

} // verus!
