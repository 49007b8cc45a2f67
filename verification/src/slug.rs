//! Slug derivation, shared by note filenames and project directory names:
//! lower-case each character, collapse every run of other characters into a
//! single `-`, trim `-` from both ends, and substitute a default word when
//! nothing is left.

use vstd::prelude::*;
use crate::text::push_char;

verus! {

/// An ASCII letter or digit, the characters a slug keeps (after lowering).
pub open spec fn is_alnum(c: char) -> bool {
    (48 <= c as u32 && c as u32 <= 57) || (65 <= c as u32 && c as u32 <= 90) || (97 <= c as u32
        && c as u32 <= 122)
}

/// An upper-case ASCII letter mapped to its lower-case form; every other
/// character is unchanged.
pub open spec fn spec_lower(c: char) -> char {
    if c == 'A' { 'a' } else if c == 'B' { 'b' } else if c == 'C' { 'c' }
    else if c == 'D' { 'd' } else if c == 'E' { 'e' } else if c == 'F' { 'f' }
    else if c == 'G' { 'g' } else if c == 'H' { 'h' } else if c == 'I' { 'i' }
    else if c == 'J' { 'j' } else if c == 'K' { 'k' } else if c == 'L' { 'l' }
    else if c == 'M' { 'm' } else if c == 'N' { 'n' } else if c == 'O' { 'o' }
    else if c == 'P' { 'p' } else if c == 'Q' { 'q' } else if c == 'R' { 'r' }
    else if c == 'S' { 's' } else if c == 'T' { 't' } else if c == 'U' { 'u' }
    else if c == 'V' { 'v' } else if c == 'W' { 'w' } else if c == 'X' { 'x' }
    else if c == 'Y' { 'y' } else if c == 'Z' { 'z' } else { c }
}

/// The dash-collapsed, lowered form of `s`, before end trimming: kept
/// characters are lowered and appended; any other character appends a single
/// `-` unless one was just appended.
pub open spec fn slug_raw(s: Seq<char>) -> Seq<char>
    decreases s.len(),
{
    if s.len() == 0 {
        Seq::empty()
    } else {
        let r = slug_raw(s.drop_last());
        let c = s.last();
        if is_alnum(c) {
            r.push(spec_lower(c))
        } else if r.len() > 0 && r.last() == '-' {
            r
        } else {
            r.push('-')
        }
    }
}

pub open spec fn dash_front(s: Seq<char>) -> Seq<char>
    decreases s.len(),
{
    if s.len() > 0 && s[0] == '-' {
        dash_front(s.skip(1))
    } else {
        s
    }
}

pub open spec fn dash_back(s: Seq<char>) -> Seq<char>
    decreases s.len(),
{
    if s.len() > 0 && s[s.len() - 1] == '-' {
        dash_back(s.drop_last())
    } else {
        s
    }
}

/// The slug of `s` before the default word is substituted: collapsed,
/// lowered, and with `-` trimmed from both ends.
pub open spec fn spec_slug_core(s: Seq<char>) -> Seq<char> {
    dash_back(dash_front(slug_raw(s)))
}

/// The slug of `s`, with `dflt` substituted when nothing is left.
pub open spec fn spec_slug_or(s: Seq<char>, dflt: Seq<char>) -> Seq<char> {
    if spec_slug_core(s).len() == 0 {
        dflt
    } else {
        spec_slug_core(s)
    }
}

/// Lower-cases one ASCII letter.
pub fn lower_char(c: char) -> (r: char)
    ensures
        r == spec_lower(c),
{
    if c == 'A' { 'a' } else if c == 'B' { 'b' } else if c == 'C' { 'c' }
    else if c == 'D' { 'd' } else if c == 'E' { 'e' } else if c == 'F' { 'f' }
    else if c == 'G' { 'g' } else if c == 'H' { 'h' } else if c == 'I' { 'i' }
    else if c == 'J' { 'j' } else if c == 'K' { 'k' } else if c == 'L' { 'l' }
    else if c == 'M' { 'm' } else if c == 'N' { 'n' } else if c == 'O' { 'o' }
    else if c == 'P' { 'p' } else if c == 'Q' { 'q' } else if c == 'R' { 'r' }
    else if c == 'S' { 's' } else if c == 'T' { 't' } else if c == 'U' { 'u' }
    else if c == 'V' { 'v' } else if c == 'W' { 'w' } else if c == 'X' { 'x' }
    else if c == 'Y' { 'y' } else if c == 'Z' { 'z' } else { c }
}

/// Tests whether a character is an ASCII letter or digit.
pub fn is_alnum_char(c: char) -> (r: bool)
    ensures
        r == is_alnum(c),
{
    let u = c as u32;
    (48 <= u && u <= 57) || (65 <= u && u <= 90) || (97 <= u && u <= 122)
}

proof fn lemma_dash_front_skip(s: Seq<char>, i: int)
    requires
        0 <= i <= s.len(),
        forall|k: int| 0 <= k < i ==> s[k] == '-',
        i == s.len() || s[i] != '-',
    ensures
        dash_front(s) =~= s.skip(i),
    decreases i,
{
    if i > 0 {
        lemma_dash_front_skip(s.skip(1), i - 1);
        assert(s.skip(1).skip(i - 1) =~= s.skip(i));
    }
}

proof fn lemma_dash_back_take(s: Seq<char>, j: int)
    requires
        0 <= j <= s.len(),
        forall|k: int| j <= k < s.len() ==> s[k] == '-',
        j == 0 || s[j - 1] != '-',
    ensures
        dash_back(s) =~= s.take(j),
    decreases s.len() - j,
{
    if j < s.len() {
        lemma_dash_back_take(s.drop_last(), j);
        assert(s.drop_last() =~= s.take(s.len() - 1));
        assert(s.take(s.len() - 1).take(j) =~= s.take(j));
    }
}

/// The slug of `input` before the default word: collapsed, lowered, trimmed.
pub(crate) fn slug_core(input: &str) -> (r: String)
    ensures
        r@ == spec_slug_core(input@),
{
    let n = input.unicode_len();
    let mut out = String::new();
    let mut i: usize = 0;
    let mut last_dash = false;
    while i < n
        invariant
            i <= n,
            n == input@.len(),
            out@ =~= slug_raw(input@.take(i as int)),
            last_dash == (out@.len() > 0 && out@.last() == '-'),
        decreases n - i,
    {
        let c = input.get_char(i);
        proof {
            assert(input@.take(i + 1).drop_last() =~= input@.take(i as int));
            assert(input@.take(i + 1).last() == input@[i as int]);
        }
        if is_alnum_char(c) {
            let l = lower_char(c);
            push_char(&mut out, l);
            proof {
                assert(spec_lower(c) != '-');
            }
            last_dash = false;
        } else if !last_dash {
            push_char(&mut out, '-');
            last_dash = true;
        }
        proof {
            assert(out@ =~= slug_raw(input@.take(i + 1)));
        }
        i += 1;
    }
    proof {
        assert(input@.take(n as int) =~= input@);
    }
    let raw = out;
    let m = raw.as_str().unicode_len();
    let mut a: usize = 0;
    while a < m && raw.as_str().get_char(a) == '-'
        invariant
            a <= m,
            m == raw@.len(),
            forall|k: int| 0 <= k < a ==> raw@[k] == '-',
        decreases m - a,
    {
        a += 1;
    }
    proof {
        lemma_dash_front_skip(raw@, a as int);
    }
    let mut b: usize = m;
    while b > a && raw.as_str().get_char(b - 1) == '-'
        invariant
            a <= b <= m,
            m == raw@.len(),
            forall|k: int| 0 <= k < a ==> raw@[k] == '-',
            a == m || raw@[a as int] != '-',
            forall|k: int| b <= k < m ==> raw@[k] == '-',
        decreases b,
    {
        b -= 1;
    }
    let core = raw.as_str().substring_char(a, b);
    proof {
        let t = raw@.skip(a as int);
        lemma_dash_back_take(t, b - a);
        assert(t.take(b - a) =~= raw@.subrange(a as int, b as int));
    }
    core.to_owned()
}

/// The slug of `input`, with the project default substituted when the
/// collapsed and trimmed form is empty.
pub fn slugify(input: &str) -> (r: String)
    ensures
        r@ == spec_slug_or(input@, "project"@),
{
    let core = slug_core(input);
    if core.as_str().unicode_len() == 0 {
        proof {
            assert(spec_slug_core(input@).len() == 0);
        }
        String::from_str("project")
    } else {
        core
    }
}

/// The slug used in an imported note's filename: derived from the title
/// hint, with the note default substituted when absent or empty.
pub fn note_slug(title_hint: Option<&String>) -> (r: String)
    ensures
        r@ == match title_hint {
            Some(t) => spec_slug_or(t@, "note"@),
            None => "note"@,
        },
{
    match title_hint {
        None => String::from_str("note"),
        Some(t) => {
            let core = slug_core(t.as_str());
            if core.as_str().unicode_len() == 0 {
                String::from_str("note")
            } else {
                core
            }
        },
    }
}

} // verus!
