//! The folder lifecycle: list, create, rename, and delete directories under
//! the `notes/folders` subtree. A folder has no metadata; existence on disk
//! is its only state, and it must be empty to be deleted.

use vstd::prelude::*;
use crate::errors::VaultError;
use crate::fsops::{self, FsAction, FsActionV, views_of};
use crate::paths::{normalize, spec_relative_from_root, valid_rel, validate_relative_path,
    relative_from_root_under};
use crate::text::{contains_sep, is_prefix_of, is_sep, lex_le, spec_trim, starts_with_str,
    str_concat, str_eq, str_le, trimmed};

verus! {

/// One raw directory-walk record for the folder listing: the absolute path
/// and whether it is a directory.
#[derive(Debug, Clone)]
pub struct FolderScan {
    pub path: String,
    pub is_dir: bool,
}

/// The mathematical form of a folder walk record.
#[verifier::ext_equal]
pub struct FolderScanV {
    pub path: Seq<char>,
    pub is_dir: bool,
}

impl View for FolderScan {
    type V = FolderScanV;

    open spec fn view(&self) -> FolderScanV {
        FolderScanV { path: self.path@, is_dir: self.is_dir }
    }
}

/// The views of a list of strings.
pub open spec fn str_views(s: Seq<String>) -> Seq<Seq<char>> {
    s.map_values(|x: String| x@)
}

/// A directory entry that the listing cannot express: a directory that does
/// not lie under the given root.
pub open spec fn folder_offender(root: Seq<char>, e: FolderScanV) -> bool {
    e.is_dir && spec_relative_from_root(root, e.path) is None
}

/// The vault-relative paths of the scanned directories, in scan order.
pub open spec fn folder_rels(root: Seq<char>, s: Seq<FolderScanV>) -> Seq<Seq<char>>
    decreases s.len(),
{
    if s.len() == 0 {
        Seq::empty()
    } else {
        folder_rels(root, s.drop_last()) + (if s.last().is_dir && spec_relative_from_root(
            root,
            s.last().path,
        ) is Some {
            seq![spec_relative_from_root(root, s.last().path)->0]
        } else {
            Seq::<Seq<char>>::empty()
        })
    }
}

/// Sorts strings into lexicographic order, keeping exactly the same
/// collection of values.
pub(crate) fn sort_strings(v: Vec<String>) -> (r: Vec<String>)
    ensures
        str_views(r@).to_multiset() == str_views(v@).to_multiset(),
        forall|i: int, j: int| 0 <= i < j < r@.len() ==> lex_le(r@[i]@, r@[j]@),
{
    broadcast use vstd::seq_lib::group_to_multiset_ensures;

    let ghost orig = str_views(v@).to_multiset();
    let mut work = v;
    let mut out: Vec<String> = Vec::new();
    while work.len() > 0
        invariant
            str_views(out@).to_multiset().add(str_views(work@).to_multiset()) =~= orig,
            forall|i: int, j: int| 0 <= i < j < out@.len() ==> lex_le(out@[i]@, out@[j]@),
            forall|i: int, j: int|
                0 <= i < out@.len() && 0 <= j < work@.len() ==> lex_le(out@[i]@, work@[j]@),
        decreases work.len(),
    {
        let mut m: usize = 0;
        let mut k: usize = 1;
        proof {
            crate::text::lemma_lex_le_total(work@[0]@, work@[0]@);
        }
        while k < work.len()
            invariant
                1 <= k <= work@.len(),
                m < k,
                forall|t: int| 0 <= t < k ==> lex_le(work@[m as int]@, #[trigger] work@[t]@),
            decreases work@.len() - k,
        {
            if str_le(work[k].as_str(), work[m].as_str()) {
                let ghost old_m = m as int;
                m = k;
                proof {
                    assert forall|t: int| 0 <= t < k + 1 implies lex_le(
                        work@[m as int]@,
                        #[trigger] work@[t]@,
                    ) by {
                        if t < k {
                            crate::text::lemma_lex_le_trans(
                                work@[m as int]@,
                                work@[old_m]@,
                                work@[t]@,
                            );
                        } else {
                            crate::text::lemma_lex_le_total(work@[m as int]@, work@[m as int]@);
                        }
                    }
                }
            } else {
                proof {
                    crate::text::lemma_lex_le_total(work@[m as int]@, work@[k as int]@);
                }
            }
            k += 1;
        }
        let ghost workv = str_views(work@);
        let ghost outv = str_views(out@);
        let e = work.remove(m);
        let ghost worknew = str_views(work@);
        out.push(e);
        proof {
            assert(worknew =~= workv.remove(m as int));
            vstd::seq_lib::to_multiset_remove(workv, m as int);
            assert(str_views(out@) =~= outv.push(e@));
            vstd::seq_lib::to_multiset_build(outv, e@);
            assert(workv[m as int] == e@);
            vstd::seq_lib::to_multiset_contains(workv, e@);
            assert(workv.contains(e@)) by {
                assert(workv[m as int] == e@);
            }
            assert(workv.to_multiset().count(e@) > 0);
            assert(str_views(out@).to_multiset().add(str_views(work@).to_multiset()) =~= orig);
        }
    }
    out
}

/// Lists every directory strictly under `notes/folders`, at any depth, as
/// sorted vault-relative paths.
pub fn vault_list_folders(root: &str, scan: &Vec<FolderScan>) -> (r: Result<
    Vec<String>,
    VaultError,
>)
    ensures
        r is Err <==> exists|i: int|
            0 <= i < scan@.len() && folder_offender(root@, #[trigger] scan@[i]@),
        r is Err ==> r->Err_0 == VaultError::OutsideVault,
        r is Ok ==> str_views(r->Ok_0@).to_multiset() == folder_rels(
            root@,
            scan@.map_values(|e: FolderScan| e@),
        ).to_multiset(),
        r is Ok ==> forall|i: int, j: int|
            0 <= i < j < r->Ok_0@.len() ==> lex_le(r->Ok_0@[i]@, r->Ok_0@[j]@),
{
    let ghost scanv = scan@.map_values(|e: FolderScan| e@);
    let mut rels: Vec<String> = Vec::new();
    let mut i: usize = 0;
    while i < scan.len()
        invariant
            i <= scan@.len(),
            scanv =~= scan@.map_values(|e: FolderScan| e@),
            str_views(rels@) =~= folder_rels(root@, scanv.take(i as int)),
            forall|k: int| 0 <= k < i ==> !folder_offender(root@, #[trigger] scan@[k]@),
        decreases scan@.len() - i,
    {
        proof {
            assert(scanv.take(i + 1).drop_last() =~= scanv.take(i as int));
            assert(scanv.take(i + 1).last() == scanv[i as int]);
        }
        let entry = &scan[i];
        if entry.is_dir {
            match relative_from_root_under(root, entry.path.as_str()) {
                Err(_) => {
                    proof {
                        assert(folder_offender(root@, scan@[i as int]@));
                    }
                    return Err(VaultError::OutsideVault);
                },
                Ok(rel) => {
                    rels.push(rel);
                },
            }
        }
        proof {
            assert(str_views(rels@) =~= folder_rels(root@, scanv.take(i + 1)));
        }
        i += 1;
    }
    proof {
        assert(scanv.take(scan@.len() as int) =~= scanv);
    }
    Ok(sort_strings(rels))
}

/// Creates a folder, with all intermediate directories, strictly under
/// `notes/folders`.
pub fn vault_create_folder(root: &str, relative_path: &str) -> (r: Result<Vec<FsAction>, VaultError>)
    ensures
        r is Ok <==> valid_rel(relative_path@) && is_prefix_of(
            "notes/folders/"@,
            normalize(relative_path@),
        ),
        !valid_rel(relative_path@) ==> r is Err && r->Err_0 == VaultError::InvalidPath,
        valid_rel(relative_path@) && !is_prefix_of("notes/folders/"@, normalize(relative_path@))
            ==> r is Err && r->Err_0 == VaultError::InvalidArgument,
        r is Ok ==> views_of(r->Ok_0@) =~= seq![
            FsActionV::EnsureDir(root@ + seq!['/'] + normalize(relative_path@)),
        ],
{
    let rel = validate_relative_path(relative_path)?;
    if !starts_with_str(rel.as_str(), "notes/folders/") {
        return Err(VaultError::InvalidArgument);
    }
    let mut full = str_concat(root, "/");
    full.append(rel.as_str());
    proof {
        reveal_strlit("/");
        assert(full@ =~= root@ + seq!['/'] + normalize(relative_path@));
    }
    let mut actions: Vec<FsAction> = Vec::new();
    actions.push(FsAction::EnsureDir(full));
    Ok(actions)
}

/// A legal new folder name: not blank, no path separators, and neither `.`
/// nor `..` once trimmed.
pub open spec fn legal_folder_name(name: Seq<char>) -> bool {
    &&& spec_trim(name).len() > 0
    &&& !(exists|i: int| 0 <= i < name.len() && is_sep(name[i]))
    &&& spec_trim(name) != "."@
    &&& spec_trim(name) != ".."@
}

/// Renames a folder within its parent directory: the new name must be a
/// plain name, so the folder cannot move elsewhere in the tree.
pub fn vault_rename_folder(root: &str, from_relative_path: &str, to_name: &str) -> (r: Result<
    (String, Vec<FsAction>),
    VaultError,
>)
    ensures
        !valid_rel(from_relative_path@) ==> r is Err && r->Err_0 == VaultError::InvalidPath,
        valid_rel(from_relative_path@) && !is_prefix_of(
            "notes/folders/"@,
            normalize(from_relative_path@),
        ) ==> r is Err && r->Err_0 == VaultError::InvalidArgument,
        valid_rel(from_relative_path@) && is_prefix_of(
            "notes/folders/"@,
            normalize(from_relative_path@),
        ) && !legal_folder_name(to_name@) ==> r is Err && r->Err_0 == VaultError::InvalidArgument,
        r is Ok <==> valid_rel(from_relative_path@) && is_prefix_of(
            "notes/folders/"@,
            normalize(from_relative_path@),
        ) && legal_folder_name(to_name@),
        r is Ok ==> {
            let from = normalize(from_relative_path@);
            let dest = fsops::parent_of(from) + seq!['/'] + to_name@;
            r->Ok_0.0@ == dest && views_of(r->Ok_0.1@) =~= seq![
                FsActionV::RenameDir(root@ + seq!['/'] + from, root@ + seq!['/'] + dest),
            ]
        },
{
    let from = validate_relative_path(from_relative_path)?;
    if !starts_with_str(from.as_str(), "notes/folders/") {
        return Err(VaultError::InvalidArgument);
    }
    let t = trimmed(to_name);
    if t.as_str().unicode_len() == 0 {
        return Err(VaultError::InvalidArgument);
    }
    if contains_sep(to_name) {
        return Err(VaultError::InvalidArgument);
    }
    if str_eq(t.as_str(), ".") || str_eq(t.as_str(), "..") {
        return Err(VaultError::InvalidArgument);
    }
    proof {
        assert(legal_folder_name(to_name@));
    }
    let parent = match fsops::parent_dir(from.as_str()) {
        Some(p) => p,
        None => {
            proof {
                reveal_strlit("notes/folders/");
                assert(from@.subrange(0, 14)[5] == from@[5]);
                assert(from@[5] == '/');
                fsops::lemma_last_slash_from(from@, 5);
            }
            return Err(VaultError::InvalidPath);
        },
    };
    let mut dest = str_concat(parent.as_str(), "/");
    dest.append(to_name);
    let mut src_abs = str_concat(root, "/");
    src_abs.append(from.as_str());
    let mut dst_abs = str_concat(root, "/");
    dst_abs.append(dest.as_str());
    proof {
        reveal_strlit("/");
        assert(dest@ =~= fsops::parent_of(from@) + seq!['/'] + to_name@);
        assert(src_abs@ =~= root@ + seq!['/'] + from@);
        assert(dst_abs@ =~= root@ + seq!['/'] + dest@);
    }
    let mut actions: Vec<FsAction> = Vec::new();
    actions.push(FsAction::RenameDir(src_abs, dst_abs));
    Ok((dest, actions))
}

/// Deletes a folder under `notes/folders`, refusing with `NotEmpty` when it
/// still holds any entry at any depth.
pub fn vault_delete_folder(root: &str, relative_path: &str, has_entries: bool) -> (r: Result<
    Vec<FsAction>,
    VaultError,
>)
    ensures
        !valid_rel(relative_path@) ==> r is Err && r->Err_0 == VaultError::InvalidPath,
        valid_rel(relative_path@) && !is_prefix_of("notes/folders/"@, normalize(relative_path@))
            ==> r is Err && r->Err_0 == VaultError::InvalidArgument,
        valid_rel(relative_path@) && is_prefix_of("notes/folders/"@, normalize(relative_path@))
            && has_entries ==> r is Err && r->Err_0 == VaultError::NotEmpty,
        r is Ok <==> valid_rel(relative_path@) && is_prefix_of(
            "notes/folders/"@,
            normalize(relative_path@),
        ) && !has_entries,
        r is Ok ==> views_of(r->Ok_0@) =~= seq![
            FsActionV::RemoveEmptyDir(root@ + seq!['/'] + normalize(relative_path@)),
        ],
{
    let rel = validate_relative_path(relative_path)?;
    if !starts_with_str(rel.as_str(), "notes/folders/") {
        return Err(VaultError::InvalidArgument);
    }
    if has_entries {
        return Err(VaultError::NotEmpty);
    }
    let mut full = str_concat(root, "/");
    full.append(rel.as_str());
    proof {
        reveal_strlit("/");
        assert(full@ =~= root@ + seq!['/'] + normalize(relative_path@));
    }
    let mut actions: Vec<FsAction> = Vec::new();
    actions.push(FsAction::RemoveEmptyDir(full));
    Ok(actions)
}

} // verus!
