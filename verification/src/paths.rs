//! Path sandboxing: every vault operation works on vault-relative paths, and
//! no resolved path may escape the vault root. Validation is lexical (reject
//! absolute paths and `..` components) so that it works before the target
//! exists on disk. Returned identifiers always use forward slashes.

use vstd::prelude::*;
use crate::errors::VaultError;
use crate::sys;
use crate::text::{is_sep, is_prefix_of, push_char, str_concat, starts_with_str};

verus! {

/// `s` split at separators, left to right. Splitting the empty string gives
/// one empty component, and each separator opens a new component.
pub open spec fn split_path(s: Seq<char>) -> Seq<Seq<char>>
    decreases s.len(),
{
    if s.len() == 0 {
        seq![Seq::<char>::empty()]
    } else {
        let r = split_path(s.drop_last());
        if is_sep(s.last()) {
            r.push(Seq::<char>::empty())
        } else {
            r.update(r.len() - 1, r.last().push(s.last()))
        }
    }
}

/// The component `.`, which names the current directory.
pub open spec fn dot() -> Seq<char> {
    seq!['.']
}

/// The component `..`, which names the parent directory and is never allowed.
pub open spec fn dotdot() -> Seq<char> {
    seq!['.', '.']
}

/// A component that survives normalization: non-empty and not `.`.
pub open spec fn keep_comp(c: Seq<char>) -> bool {
    c.len() > 0 && c != dot()
}

/// The components that survive normalization, in order.
pub open spec fn clean_comps(cs: Seq<Seq<char>>) -> Seq<Seq<char>>
    decreases cs.len(),
{
    if cs.len() == 0 {
        Seq::empty()
    } else {
        clean_comps(cs.drop_last()) + (if keep_comp(cs.last()) {
            seq![cs.last()]
        } else {
            Seq::<Seq<char>>::empty()
        })
    }
}

/// The meaningful components of a path string.
pub open spec fn components(s: Seq<char>) -> Seq<Seq<char>> {
    clean_comps(split_path(s))
}

/// Components joined with a single forward slash between each pair.
pub open spec fn join_slash(cs: Seq<Seq<char>>) -> Seq<char>
    decreases cs.len(),
{
    if cs.len() == 0 {
        Seq::empty()
    } else if cs.len() == 1 {
        cs[0]
    } else {
        join_slash(cs.drop_last()) + seq!['/'] + cs.last()
    }
}

/// The normal form of a relative path: meaningful components joined with
/// forward slashes, with no empty or `.` components left.
pub open spec fn normalize(s: Seq<char>) -> Seq<char> {
    join_slash(components(s))
}

/// An absolute path begins with a separator.
pub open spec fn is_abs(s: Seq<char>) -> bool {
    s.len() > 0 && is_sep(s[0])
}

/// A valid relative path: not absolute and with no `..` component.
pub open spec fn valid_rel(s: Seq<char>) -> bool {
    !is_abs(s) && !components(s).contains(dotdot())
}

/// Where a valid relative path lands under the vault root.
pub open spec fn resolved(root: Seq<char>, p: Seq<char>) -> Seq<char> {
    root + seq!['/'] + normalize(p)
}

/// A character with host separators turned into forward slashes.
pub open spec fn fwd_char(c: char) -> char {
    if c == '\\' {
        '/'
    } else {
        c
    }
}

/// A path with every separator turned into a forward slash.
pub open spec fn fwd_slashes(s: Seq<char>) -> Seq<char> {
    s.map_values(|c: char| fwd_char(c))
}

/// The vault-relative form of an absolute path, if it lies under the root.
pub open spec fn spec_relative_from_root(root: Seq<char>, full: Seq<char>) -> Option<Seq<char>> {
    if full == root {
        Some(Seq::<char>::empty())
    } else if is_prefix_of(root + seq!['/'], full) {
        Some(fwd_slashes(full.skip(root.len() as int + 1)))
    } else {
        None
    }
}

/// The kind of a note, derived purely from its path prefix.
pub open spec fn spec_kind(s: Seq<char>) -> Seq<char> {
    if is_prefix_of("notes/inbox/"@, s) {
        "inbox"@
    } else if is_prefix_of("notes/archive/"@, s) {
        "archive"@
    } else if is_prefix_of("notes/projects/"@, s) {
        "project"@
    } else if is_prefix_of("notes/folders/"@, s) {
        "folder"@
    } else {
        "other"@
    }
}

/// Splitting never yields an empty component list.
pub proof fn lemma_split_path_len(s: Seq<char>)
    ensures
        split_path(s).len() >= 1,
    decreases s.len(),
{
    if s.len() > 0 {
        lemma_split_path_len(s.drop_last());
    }
}

/// No character of any split component is a separator.
pub proof fn lemma_split_no_sep(s: Seq<char>)
    ensures
        forall|i: int, k: int|
            0 <= i < split_path(s).len() && 0 <= k < split_path(s)[i].len() ==> !is_sep(
                split_path(s)[i][k],
            ),
    decreases s.len(),
{
    if s.len() > 0 {
        lemma_split_no_sep(s.drop_last());
        lemma_split_path_len(s.drop_last());
        let r = split_path(s.drop_last());
        if !is_sep(s.last()) {
            assert forall|i: int, k: int|
                0 <= i < split_path(s).len() && 0 <= k < split_path(s)[i].len() implies !is_sep(
                split_path(s)[i][k],
            ) by {
                if i == r.len() - 1 && k == r.last().len() {
                    assert(split_path(s)[i][k] == s.last());
                } else {
                    assert(split_path(s)[i][k] == r[i][k]);
                }
            }
        }
    }
}

/// Cleaning distributes over concatenation of component lists.
pub proof fn lemma_clean_append(a: Seq<Seq<char>>, b: Seq<Seq<char>>)
    ensures
        clean_comps(a + b) =~= clean_comps(a) + clean_comps(b),
    decreases b.len(),
{
    if b.len() == 0 {
        assert(a + b =~= a);
    } else {
        lemma_clean_append(a, b.drop_last());
        assert((a + b).drop_last() =~= a + b.drop_last());
        assert((a + b).last() == b.last());
    }
}

/// Cleaning keeps only split components, so it introduces no separators.
pub proof fn lemma_clean_no_sep(cs: Seq<Seq<char>>)
    requires
        forall|i: int, k: int| 0 <= i < cs.len() && 0 <= k < cs[i].len() ==> !is_sep(cs[i][k]),
    ensures
        forall|i: int, k: int|
            0 <= i < clean_comps(cs).len() && 0 <= k < clean_comps(cs)[i].len() ==> !is_sep(
                clean_comps(cs)[i][k],
            ),
    decreases cs.len(),
{
    if cs.len() > 0 {
        lemma_clean_no_sep(cs.drop_last());
        let left = clean_comps(cs.drop_last());
        assert forall|i: int, k: int|
            0 <= i < clean_comps(cs).len() && 0 <= k < clean_comps(cs)[i].len() implies !is_sep(
            clean_comps(cs)[i][k],
        ) by {
            if i < left.len() {
                assert(clean_comps(cs)[i] == left[i]);
            } else {
                assert(clean_comps(cs)[i] == cs.last());
                assert(cs.last() == cs[cs.len() - 1]);
            }
        }
    }
}

/// Joining components free of backslashes yields a path free of backslashes.
pub proof fn lemma_join_no_backslash(cs: Seq<Seq<char>>)
    requires
        forall|i: int, k: int| 0 <= i < cs.len() && 0 <= k < cs[i].len() ==> cs[i][k] != '\\',
    ensures
        forall|k: int| 0 <= k < join_slash(cs).len() ==> join_slash(cs)[k] != '\\',
    decreases cs.len(),
{
    if cs.len() > 1 {
        lemma_join_no_backslash(cs.drop_last());
        let left = join_slash(cs.drop_last());
        assert forall|k: int| 0 <= k < join_slash(cs).len() implies join_slash(cs)[k] != '\\' by {
            if k < left.len() {
                assert(join_slash(cs)[k] == left[k]);
            } else if k == left.len() {
                assert(join_slash(cs)[k] == '/');
            } else {
                assert(join_slash(cs)[k] == cs.last()[k - left.len() - 1]);
            }
        }
    }
}

/// A normalized path contains no backslash.
pub proof fn lemma_normalize_no_backslash(s: Seq<char>)
    ensures
        forall|k: int| 0 <= k < normalize(s).len() ==> normalize(s)[k] != '\\',
{
    lemma_split_no_sep(s);
    lemma_clean_no_sep(split_path(s));
    lemma_join_no_backslash(components(s));
}

/// A separator-free string splits into exactly itself.
pub proof fn lemma_split_sepfree(s: Seq<char>)
    requires
        forall|k: int| 0 <= k < s.len() ==> !is_sep(s[k]),
    ensures
        split_path(s) == seq![s],
    decreases s.len(),
{
    if s.len() == 0 {
        assert(s =~= Seq::<char>::empty());
        assert(split_path(s) =~= seq![s]);
    } else {
        lemma_split_sepfree(s.drop_last());
        assert(s.drop_last().push(s.last()) =~= s);
        assert(split_path(s) =~= seq![s]);
    }
}

/// Splitting after a separator boundary splits the parts independently.
pub proof fn lemma_split_after_sep(a: Seq<char>, b: Seq<char>)
    requires
        a.len() > 0,
        is_sep(a.last()),
    ensures
        split_path(a + b) == split_path(a).drop_last() + split_path(b),
    decreases b.len(),
{
    lemma_split_path_len(a.drop_last());
    if b.len() == 0 {
        assert(a + b =~= a);
        assert(split_path(a) == split_path(a.drop_last()).push(Seq::<char>::empty()));
        assert(split_path(a).drop_last() + split_path(b) =~= split_path(a));
    } else {
        lemma_split_after_sep(a, b.drop_last());
        lemma_split_path_len(b.drop_last());
        let sa = split_path(a).drop_last();
        let sb = split_path(b.drop_last());
        assert((a + b).drop_last() =~= a + b.drop_last());
        assert((a + b).last() == b.last());
        if is_sep(b.last()) {
            assert(split_path(a + b) == (sa + sb).push(Seq::<char>::empty()));
            assert(split_path(b) == sb.push(Seq::<char>::empty()));
            assert(split_path(a + b) =~= sa + split_path(b));
        } else {
            let c = b.last();
            assert(split_path(a + b) == (sa + sb).update(
                sa.len() + sb.len() - 1,
                (sa + sb).last().push(c),
            ));
            assert((sa + sb).last() == sb.last());
            assert(split_path(b) == sb.update(sb.len() - 1, sb.last().push(c)));
            assert(split_path(a + b) =~= sa + split_path(b));
        }
    }
}

/// Cleaning keeps only components that survive it.
pub proof fn lemma_clean_all_kept(cs: Seq<Seq<char>>)
    ensures
        forall|i: int|
            0 <= i < clean_comps(cs).len() ==> keep_comp(#[trigger] clean_comps(cs)[i]),
    decreases cs.len(),
{
    if cs.len() > 0 {
        lemma_clean_all_kept(cs.drop_last());
        let left = clean_comps(cs.drop_last());
        assert forall|i: int|
            0 <= i < clean_comps(cs).len() implies keep_comp(#[trigger] clean_comps(cs)[i]) by {
            if i < left.len() {
                assert(clean_comps(cs)[i] == left[i]);
            } else {
                assert(clean_comps(cs)[i] == cs.last());
            }
        }
    }
}

/// A component list that cleaning would keep whole is left whole.
pub proof fn lemma_clean_kept(cs: Seq<Seq<char>>)
    requires
        forall|i: int| 0 <= i < cs.len() ==> keep_comp(#[trigger] cs[i]),
    ensures
        clean_comps(cs) == cs,
    decreases cs.len(),
{
    if cs.len() == 0 {
        assert(clean_comps(cs) =~= cs);
    } else {
        lemma_clean_kept(cs.drop_last());
        assert(keep_comp(cs.last()));
        assert(clean_comps(cs) =~= cs);
    }
}

/// Joining then splitting gives back the components, provided none holds a
/// separator.
pub proof fn lemma_split_join(cs: Seq<Seq<char>>)
    requires
        cs.len() >= 1,
        forall|i: int, k: int| 0 <= i < cs.len() && 0 <= k < cs[i].len() ==> !is_sep(cs[i][k]),
    ensures
        split_path(join_slash(cs)) == cs,
    decreases cs.len(),
{
    if cs.len() == 1 {
        lemma_split_sepfree(cs[0]);
        assert(split_path(join_slash(cs)) =~= cs);
    } else {
        lemma_split_join(cs.drop_last());
        let a = join_slash(cs.drop_last()) + seq!['/'];
        lemma_split_sepfree(cs.last());
        lemma_split_after_sep(a, cs.last());
        assert(a + cs.last() =~= join_slash(cs));
        assert(a.drop_last() =~= join_slash(cs.drop_last()));
        assert(split_path(a) == split_path(a.drop_last()).push(Seq::<char>::empty()));
        assert(split_path(a).drop_last() =~= cs.drop_last());
        assert(split_path(join_slash(cs)) =~= cs);
    }
}

/// Joining decomposes at the first component.
pub proof fn lemma_join_cons(c: Seq<char>, rest: Seq<Seq<char>>)
    requires
        rest.len() >= 1,
    ensures
        join_slash(seq![c] + rest) == c + seq!['/'] + join_slash(rest),
    decreases rest.len(),
{
    let cs = seq![c] + rest;
    if rest.len() == 1 {
        assert(cs.len() == 2);
        assert(cs.drop_last() =~= seq![c]);
        assert(cs.last() == rest[0]);
        assert(join_slash(rest) == rest[0]);
        assert(join_slash(cs) =~= c + seq!['/'] + join_slash(rest));
    } else {
        lemma_join_cons(c, rest.drop_last());
        assert(cs.drop_last() =~= seq![c] + rest.drop_last());
        assert(cs.last() == rest.last());
        assert(join_slash(cs) == join_slash(seq![c] + rest.drop_last()) + seq!['/'] + rest.last());
        assert(join_slash(rest) == join_slash(rest.drop_last()) + seq!['/'] + rest.last());
        assert(join_slash(cs) =~= c + seq!['/'] + join_slash(rest));
    }
}

/// `split_components` realizes `split_path` on a real string.
fn split_components(p: &str) -> (r: Vec<String>)
    ensures
        r@.map_values(|c: String| c@) =~= split_path(p@),
{
    let n = p.unicode_len();
    let mut done: Vec<String> = Vec::new();
    let mut cur: String = String::new();
    let mut i: usize = 0;
    while i < n
        invariant
            i <= n,
            n == p@.len(),
            done@.map_values(|c: String| c@).push(cur@) =~= split_path(p@.take(i as int)),
        decreases n - i,
    {
        let c = p.get_char(i);
        proof {
            assert(p@.take(i + 1).drop_last() =~= p@.take(i as int));
            assert(p@.take(i + 1).last() == p@[i as int]);
        }
        if c == '/' || c == '\\' {
            done.push(cur);
            cur = String::new();
            proof {
                assert(done@.map_values(|c: String| c@).push(cur@) =~= split_path(
                    p@.take(i + 1),
                ));
            }
        } else {
            let ghost prev = split_path(p@.take(i as int));
            let ghost oldcur = cur@;
            push_char(&mut cur, c);
            proof {
                assert(prev == done@.map_values(|c: String| c@).push(oldcur));
                assert(prev.len() == done@.len() + 1);
                assert(prev.last() == oldcur);
                assert(cur@ == oldcur.push(p@[i as int]));
                assert(split_path(p@.take(i + 1)) == prev.update(
                    prev.len() - 1,
                    prev.last().push(p@[i as int]),
                ));
                assert(done@.map_values(|c: String| c@).push(cur@) =~= split_path(
                    p@.take(i + 1),
                ));
            }
        }
        i += 1;
    }
    proof {
        assert(p@.take(n as int) =~= p@);
    }
    done.push(cur);
    done
}

/// Rejects absolute paths and paths with a `..` component; returns the
/// normalized relative path.
pub fn validate_relative_path(path: &str) -> (r: Result<String, VaultError>)
    ensures
        r is Ok <==> valid_rel(path@),
        r is Ok ==> r->Ok_0@ == normalize(path@),
        r is Err ==> r->Err_0 == VaultError::InvalidPath,
{
    let n = path.unicode_len();
    if n > 0 {
        let c0 = path.get_char(0);
        if c0 == '/' || c0 == '\\' {
            return Err(VaultError::InvalidPath);
        }
    }
    let comps = split_components(path);
    let ghost compsv = comps@.map_values(|c: String| c@);
    let mut kept: Vec<String> = Vec::new();
    let mut i: usize = 0;
    while i < comps.len()
        invariant
            i <= comps.len(),
            compsv =~= comps@.map_values(|c: String| c@),
            compsv =~= split_path(path@),
            kept@.map_values(|c: String| c@) =~= clean_comps(compsv.take(i as int)),
            forall|k: int| 0 <= k < kept@.len() ==> #[trigger] kept@[k]@ != dotdot(),
        decreases comps.len() - i,
    {
        let comp = &comps[i];
        let m = comp.as_str().unicode_len();
        proof {
            assert(comp@ == compsv[i as int]);
            assert(compsv.take(i + 1).drop_last() =~= compsv.take(i as int));
            assert(compsv.take(i + 1).last() == compsv[i as int]);
        }
        let is_dot = m == 1 && comp.as_str().get_char(0) == '.';
        let is_dotdot = m == 2 && comp.as_str().get_char(0) == '.' && comp.as_str().get_char(1)
            == '.';
        proof {
            if is_dot {
                assert(comp@ =~= dot());
            }
            if is_dotdot {
                assert(comp@ =~= dotdot());
            }
            if m == 0 || is_dot {
                assert(!keep_comp(compsv[i as int]));
            } else {
                assert(comp@ != dot());
                assert(keep_comp(compsv[i as int]));
            }
        }
        if is_dotdot {
            proof {
                let upto = clean_comps(compsv.take(i + 1));
                assert(upto.last() == dotdot());
                lemma_clean_append(compsv.take(i + 1), compsv.skip(i + 1));
                assert(compsv.take(i + 1) + compsv.skip(i + 1) =~= compsv);
                assert(clean_comps(compsv)[upto.len() - 1] == dotdot());
                assert(components(path@).contains(dotdot()));
            }
            return Err(VaultError::InvalidPath);
        }
        if m > 0 && !is_dot {
            kept.push(comp.clone());
            proof {
                assert(kept@.map_values(|c: String| c@) =~= clean_comps(compsv.take(i + 1)));
            }
        } else {
            proof {
                assert(clean_comps(compsv.take(i + 1)) =~= clean_comps(compsv.take(i as int)));
            }
        }
        i += 1;
    }
    proof {
        assert(compsv.take(comps@.len() as int) =~= compsv);
        assert(kept@.map_values(|c: String| c@) =~= components(path@));
        assert(!components(path@).contains(dotdot()));
        assert(valid_rel(path@));
    }
    let ghost keptv = kept@.map_values(|c: String| c@);
    let mut out = String::new();
    let mut j: usize = 0;
    while j < kept.len()
        invariant
            j <= kept.len(),
            keptv =~= kept@.map_values(|c: String| c@),
            out@ =~= join_slash(keptv.take(j as int)),
        decreases kept.len() - j,
    {
        proof {
            assert(keptv.take(j + 1).drop_last() =~= keptv.take(j as int));
            assert(keptv.take(j + 1).last() == keptv[j as int]);
            if j + 1 == 1 {
                assert(join_slash(keptv.take(j + 1)) == keptv.take(j + 1)[0]);
            }
        }
        if j > 0 {
            push_char(&mut out, '/');
        }
        out.append(kept[j].as_str());
        proof {
            assert(out@ =~= join_slash(keptv.take(j + 1)));
        }
        j += 1;
    }
    proof {
        assert(keptv.take(kept@.len() as int) =~= keptv);
    }
    Ok(out)
}

/// Every separator becomes a forward slash, so returned identifiers are
/// stable across host conventions.
pub fn path_to_forward_slashes(path: &str) -> (r: String)
    ensures
        r@ == fwd_slashes(path@),
{
    let n = path.unicode_len();
    let mut out = String::new();
    let mut i: usize = 0;
    while i < n
        invariant
            i <= n,
            n == path@.len(),
            out@ =~= fwd_slashes(path@).take(i as int),
        decreases n - i,
    {
        let c = path.get_char(i);
        if c == '\\' {
            push_char(&mut out, '/');
        } else {
            push_char(&mut out, c);
        }
        proof {
            assert(out@ =~= fwd_slashes(path@).take(i + 1));
        }
        i += 1;
    }
    proof {
        assert(fwd_slashes(path@).take(n as int) =~= fwd_slashes(path@));
    }
    out
}

/// The vault root: the `Homebase` directory in the user's home directory,
/// recomputed from the environment on every call.
pub fn homebase_vault_root() -> (r: Result<String, VaultError>)
    ensures
        r is Err ==> r->Err_0 == VaultError::HomeDirUnavailable,
        r is Ok ==> exists|h: Seq<char>| r->Ok_0@ == h + "/Homebase"@,
{
    match sys::os_home_dir() {
        None => Err(VaultError::HomeDirUnavailable),
        Some(home) => {
            let root = str_concat(home.as_str(), "/Homebase");
            proof {
                assert(root@ == home@ + "/Homebase"@);
            }
            Ok(root)
        },
    }
}

/// Composes a given root with a validated relative path.
pub fn resolve_under_root(root: &str, relative_path: &str) -> (r: Result<String, VaultError>)
    ensures
        r is Ok <==> valid_rel(relative_path@),
        r is Ok ==> r->Ok_0@ == resolved(root@, relative_path@),
        r is Err ==> r->Err_0 == VaultError::InvalidPath,
{
    let rel = validate_relative_path(relative_path)?;
    let base = str_concat(root, "/");
    proof {
        reveal_strlit("/");
        assert(base@ =~= root@ + seq!['/']);
    }
    Ok(base.concat(rel.as_str()))
}

/// Composes the vault root with a validated relative path. Fails when the
/// home directory is unavailable or the relative path is invalid.
pub fn resolve_vault_path(relative_path: &str) -> (r: Result<String, VaultError>)
    ensures
        r is Ok ==> valid_rel(relative_path@) && exists|root: Seq<char>|
            r->Ok_0@ == resolved(root, relative_path@),
        r is Err ==> r->Err_0 == VaultError::HomeDirUnavailable || (r->Err_0
            == VaultError::InvalidPath && !valid_rel(relative_path@)),
        valid_rel(relative_path@) && r is Err ==> r->Err_0 == VaultError::HomeDirUnavailable,
{
    let root = homebase_vault_root()?;
    let full = resolve_under_root(root.as_str(), relative_path)?;
    proof {
        assert(full@ == resolved(root@, relative_path@));
    }
    Ok(full)
}

/// Strips a given root from an absolute path, returning the forward-slashed
/// vault-relative remainder.
pub fn relative_from_root_under(root: &str, full_path: &str) -> (r: Result<String, VaultError>)
    ensures
        r is Ok <==> spec_relative_from_root(root@, full_path@) is Some,
        r is Ok ==> Some(r->Ok_0@) == spec_relative_from_root(root@, full_path@),
        r is Err ==> r->Err_0 == VaultError::OutsideVault,
{
    let rn = root.unicode_len();
    let fnn = full_path.unicode_len();
    if rn == fnn {
        if starts_with_str(full_path, root) {
            proof {
                assert(full_path@.subrange(0, root@.len() as int) =~= full_path@);
                assert(full_path@ == root@);
            }
            return Ok(String::new());
        }
        proof {
            assert(full_path@ != root@) by {
                if full_path@ == root@ {
                    assert(full_path@.subrange(0, root@.len() as int) =~= root@);
                }
            }
            assert(!is_prefix_of(root@ + seq!['/'], full_path@));
        }
        return Err(VaultError::OutsideVault);
    }
    let pref = str_concat(root, "/");
    proof {
        reveal_strlit("/");
        assert(pref@ =~= root@ + seq!['/']);
    }
    if starts_with_str(full_path, pref.as_str()) {
        let rest = full_path.substring_char(rn + 1, fnn);
        proof {
            assert(rest@ =~= full_path@.skip(root@.len() as int + 1));
            assert(full_path@ != root@);
        }
        Ok(path_to_forward_slashes(rest))
    } else {
        proof {
            assert(full_path@.len() != root@.len());
            assert(full_path@ != root@);
        }
        Err(VaultError::OutsideVault)
    }
}

/// The inverse of resolution: the vault-relative, forward-slashed form of an
/// absolute path, or `OutsideVault` if the vault root is not a prefix of it.
pub fn relative_from_vault_root(full_path: &str) -> (r: Result<String, VaultError>)
    ensures
        r is Ok ==> exists|root: Seq<char>|
            Some(r->Ok_0@) == spec_relative_from_root(root, full_path@),
        r is Err ==> r->Err_0 == VaultError::HomeDirUnavailable || r->Err_0
            == VaultError::OutsideVault,
{
    let root = homebase_vault_root()?;
    relative_from_root_under(root.as_str(), full_path)
}

/// The kind classification of a note, from its path prefix alone.
pub fn kind_from_relative_path(relative_path: &str) -> (r: String)
    ensures
        r@ == spec_kind(relative_path@),
{
    if starts_with_str(relative_path, "notes/inbox/") {
        return String::from_str("inbox");
    }
    if starts_with_str(relative_path, "notes/archive/") {
        return String::from_str("archive");
    }
    if starts_with_str(relative_path, "notes/projects/") {
        return String::from_str("project");
    }
    if starts_with_str(relative_path, "notes/folders/") {
        return String::from_str("folder");
    }
    String::from_str("other")
}

/// A path with a `..` component is never a valid relative path, so
/// resolution rejects it with `InvalidPath`; and every path that is not
/// absolute and has no `..` component resolves to a strict descendant of
/// the root.
pub proof fn lemma_resolve_sandbox(root: Seq<char>, p: Seq<char>)
    ensures
        components(p).contains(dotdot()) ==> !valid_rel(p),
        !is_abs(p) && !components(p).contains(dotdot()) ==> valid_rel(p) && is_prefix_of(
            root + seq!['/'],
            resolved(root, p),
        ) && resolved(root, p).len() > root.len(),
{
    if !is_abs(p) && !components(p).contains(dotdot()) {
        assert((root + seq!['/'] + normalize(p)).subrange(0, root.len() as int + 1) =~= root
            + seq!['/']);
    }
}

/// Round trip: resolving a valid relative path and taking the result
/// relative to the same root gives back exactly the normalized path.
pub proof fn lemma_resolve_round_trip(root: Seq<char>, p: Seq<char>)
    requires
        valid_rel(p),
    ensures
        spec_relative_from_root(root, resolved(root, p)) == Some(normalize(p)),
{
    let full = resolved(root, p);
    assert(full.len() > root.len());
    assert(full != root);
    assert(full.subrange(0, root.len() as int + 1) =~= root + seq!['/']);
    assert(is_prefix_of(root + seq!['/'], full));
    assert(full.skip(root.len() as int + 1) =~= normalize(p));
    lemma_normalize_no_backslash(p);
    assert(fwd_slashes(normalize(p)) =~= normalize(p));
}

} // verus!
