//! Derivation of emoji identifiers and categories.
//!
//! An emoji's identifier comes from the file's base name: lowercase it, strip
//! the trailing extension, turn spaces and hyphens into underscores, and drop
//! any remaining dots. Its category is `<group> - <remainder>`, where the
//! remainder is the file's directory path relative to the scan root with
//! separators and dots removed.

use vstd::prelude::*;
use vstd::string::StringExecFns;

use crate::text::chars_to_string;
use crate::text::str_to_chars;

verus! {

/// ASCII uppercase letters map to their lowercase form; every other character
/// is kept as it is.
pub open spec fn lower_char(c: char) -> char {
    if 65 <= c as u32 && c as u32 <= 90 {
        ((c as u32 + 32) as u8) as char
    } else {
        c
    }
}

/// Spaces and hyphens become underscores; every other character is kept.
pub open spec fn underscore_char(c: char) -> char {
    if c == ' ' || c == '-' {
        '_'
    } else {
        c
    }
}

pub open spec fn lower_seq(s: Seq<char>) -> Seq<char> {
    s.map_values(|c: char| lower_char(c))
}

pub open spec fn underscore_seq(s: Seq<char>) -> Seq<char> {
    s.map_values(|c: char| underscore_char(c))
}

/// The characters of `s` with every literal dot removed.
pub open spec fn drop_dots(s: Seq<char>) -> Seq<char>
    decreases s.len(),
{
    if s.len() == 0 {
        s
    } else if s.last() == '.' {
        drop_dots(s.drop_last())
    } else {
        drop_dots(s.drop_last()).push(s.last())
    }
}

/// Index of the dot that starts the trailing extension of a file name: the
/// last dot, provided it is not the leading character. `-1` when the name has
/// no extension (as in `archive` or `.profile`).
pub open spec fn ext_dot(s: Seq<char>) -> int
    decreases s.len(),
{
    if s.len() <= 1 {
        -1
    } else if s.last() == '.' {
        s.len() - 1
    } else {
        ext_dot(s.drop_last())
    }
}

/// The file name without its trailing extension; a name with no extension is
/// kept whole.
pub open spec fn strip_extension(s: Seq<char>) -> Seq<char> {
    if ext_dot(s) >= 1 {
        s.take(ext_dot(s))
    } else {
        s
    }
}

/// Normalized emoji identifier for a file base name.
pub open spec fn spec_derive_name(base: Seq<char>) -> Seq<char> {
    drop_dots(underscore_seq(strip_extension(lower_seq(base))))
}

/// The leading directory part of a relative path: everything up to and
/// including the last `/`, or empty when the path has no separator.
pub open spec fn dir_prefix(rel: Seq<char>) -> Seq<char>
    decreases rel.len(),
{
    if rel.len() == 0 {
        rel
    } else if rel.last() == '/' {
        rel
    } else {
        dir_prefix(rel.drop_last())
    }
}

/// The base name of a relative path: what follows the last `/`.
pub open spec fn spec_base_name(rel: Seq<char>) -> Seq<char> {
    rel.skip(dir_prefix(rel).len() as int)
}

/// The characters of `s` with every path separator and dot removed.
pub open spec fn drop_seps_and_dots(s: Seq<char>) -> Seq<char>
    decreases s.len(),
{
    if s.len() == 0 {
        s
    } else if s.last() == '/' || s.last() == '.' {
        drop_seps_and_dots(s.drop_last())
    } else {
        drop_seps_and_dots(s.drop_last()).push(s.last())
    }
}

/// The category remainder for a file: its directory path relative to the
/// scan root, with separators and dots removed.
pub open spec fn spec_subcategory(rel: Seq<char>) -> Seq<char> {
    drop_seps_and_dots(dir_prefix(rel))
}

/// The full category string: `<group> - <remainder>`.
pub open spec fn spec_derive_category(group: Seq<char>, rel: Seq<char>) -> Seq<char> {
    group + seq![' ', '-', ' '] + spec_subcategory(rel)
}

fn lower_char_exec(c: char) -> (r: char)
    ensures
        r == lower_char(c),
{
    let u = c as u32;
    if 65 <= u && u <= 90 {
        ((u + 32) as u8) as char
    } else {
        c
    }
}

fn underscore_char_exec(c: char) -> (r: char)
    ensures
        r == underscore_char(c),
{
    if c == ' ' || c == '-' {
        '_'
    } else {
        c
    }
}

/// Position after the last dot search: the index of the extension dot of `v`,
/// or the length of `v` when there is no extension. Either way, taking this
/// many leading characters strips the extension.
fn find_ext_cut(v: &Vec<char>) -> (cut: usize)
    ensures
        cut <= v@.len(),
        v@.take(cut as int) == strip_extension(v@),
{
    let mut j: usize = v.len();
    proof {
        assert(v@.take(v@.len() as int) =~= v@);
    }
    while j > 1
        invariant
            j <= v@.len(),
            ext_dot(v@) == ext_dot(v@.take(j as int)),
        decreases j,
    {
        j = j - 1;
        proof {
            let t = v@.take(j + 1 as int);
            assert(t.len() == j + 1);
            assert(t.last() == v@[j as int]);
            assert(t.drop_last() =~= v@.take(j as int));
        }
        if v[j] == '.' {
            proof {
                assert(ext_dot(v@) == j);
                assert(v@.take(j as int) =~= strip_extension(v@));
            }
            return j;
        }
    }
    proof {
        assert(ext_dot(v@.take(j as int)) == -1);
        assert(strip_extension(v@) == v@);
        assert(v@.take(v@.len() as int) =~= v@);
    }
    v.len()
}

/// Derives the normalized emoji identifier from a file's base name: the name
/// is lowercased, its trailing extension stripped, spaces and hyphens turned
/// into underscores, and remaining dots dropped.
pub fn derive_name(base: &str) -> (r: String)
    ensures
        r@ == spec_derive_name(base@),
{
    let chars = str_to_chars(base);
    let mut low: Vec<char> = Vec::new();
    let mut i: usize = 0;
    while i < chars.len()
        invariant
            i <= chars@.len(),
            chars@ == base@,
            low@ == lower_seq(base@.take(i as int)),
        decreases chars@.len() - i,
    {
        let c = lower_char_exec(chars[i]);
        low.push(c);
        proof {
            assert(low@ =~= lower_seq(base@.take(i + 1 as int)));
        }
        i = i + 1;
    }
    proof {
        assert(base@.take(base@.len() as int) =~= base@);
        assert(low@ == lower_seq(base@));
    }
    let cut = find_ext_cut(&low);
    let ghost stripped = strip_extension(lower_seq(base@));
    let mut out: Vec<char> = Vec::new();
    let mut k: usize = 0;
    while k < cut
        invariant
            k <= cut,
            cut <= low@.len(),
            low@ == lower_seq(base@),
            stripped == low@.take(cut as int),
            out@ == drop_dots(underscore_seq(stripped.take(k as int))),
        decreases cut - k,
    {
        let c = low[k];
        proof {
            let p = stripped.take(k as int);
            let p1 = stripped.take(k + 1 as int);
            assert(stripped[k as int] == low@[k as int]);
            assert(p1 =~= p.push(c));
            assert(underscore_seq(p.push(c)) =~= underscore_seq(p).push(underscore_char(c)));
            let z = underscore_seq(p);
            let e = underscore_char(c);
            assert(z.push(e).drop_last() =~= z);
            assert(z.push(e).last() == e);
            assert(drop_dots(z.push(e)) == if e == '.' {
                drop_dots(z)
            } else {
                drop_dots(z).push(e)
            });
            assert(e == '.' <==> c == '.');
        }
        if c != '.' {
            let u = underscore_char_exec(c);
            out.push(u);
        }
        k = k + 1;
    }
    proof {
        assert(stripped.take(cut as int) =~= stripped);
    }
    chars_to_string(out)
}

/// The length of the directory prefix of `rel`: everything up to and
/// including the last separator.
pub(crate) fn dir_prefix_len(rel: &Vec<char>) -> (p: usize)
    ensures
        p <= rel@.len(),
        dir_prefix(rel@) == rel@.take(p as int),
{
    let mut j: usize = rel.len();
    proof {
        assert(rel@.take(rel@.len() as int) =~= rel@);
    }
    while j > 0
        invariant
            j <= rel@.len(),
            dir_prefix(rel@) == dir_prefix(rel@.take(j as int)),
        decreases j,
    {
        proof {
            let t = rel@.take(j as int);
            assert(t.len() == j);
            assert(t.last() == rel@[j - 1]);
            assert(t.drop_last() =~= rel@.take(j - 1));
        }
        if rel[j - 1] == '/' {
            proof {
                assert(dir_prefix(rel@.take(j as int)) == rel@.take(j as int));
            }
            return j;
        }
        j = j - 1;
    }
    proof {
        assert(rel@.take(0) =~= Seq::<char>::empty());
        assert(dir_prefix(rel@) == rel@.take(0));
    }
    0
}

/// The base name of a `/`-separated relative path: what follows the last
/// separator, or the whole path when it has none.
pub fn base_name(rel_path: &str) -> (r: String)
    ensures
        r@ == spec_base_name(rel_path@),
{
    let rel = str_to_chars(rel_path);
    let p = dir_prefix_len(&rel);
    let mut out: Vec<char> = Vec::new();
    let mut i: usize = p;
    while i < rel.len()
        invariant
            p <= i <= rel@.len(),
            rel@ == rel_path@,
            out@ == rel@.subrange(p as int, i as int),
        decreases rel@.len() - i,
    {
        let c = rel[i];
        out.push(c);
        proof {
            assert(out@ =~= rel@.subrange(p as int, i + 1 as int));
        }
        i = i + 1;
    }
    proof {
        assert(out@ =~= spec_base_name(rel_path@));
    }
    chars_to_string(out)
}

/// Derives the category string `<group> - <remainder>` for a file at the
/// given `/`-separated path relative to the scan root.
pub fn derive_category(group: &str, rel_path: &str) -> (r: String)
    ensures
        r@ == spec_derive_category(group@, rel_path@),
{
    let rel = str_to_chars(rel_path);
    let p = dir_prefix_len(&rel);
    let mut out: Vec<char> = Vec::new();
    let mut i: usize = 0;
    while i < p
        invariant
            i <= p,
            p <= rel@.len(),
            rel@ == rel_path@,
            dir_prefix(rel@) == rel@.take(p as int),
            out@ == drop_seps_and_dots(rel@.take(i as int)),
        decreases p - i,
    {
        let c = rel[i];
        proof {
            let q = rel@.take(i as int);
            let q1 = rel@.take(i + 1 as int);
            assert(q1 =~= q.push(c));
            assert(q.push(c).drop_last() =~= q);
            assert(q.push(c).last() == c);
            assert(drop_seps_and_dots(q.push(c)) == if c == '/' || c == '.' {
                drop_seps_and_dots(q)
            } else {
                drop_seps_and_dots(q).push(c)
            });
        }
        if c != '/' && c != '.' {
            out.push(c);
        }
        i = i + 1;
    }
    let sub = chars_to_string(out);
    let mut r = group.to_owned();
    r.append(" - ");
    r.append(sub.as_str());
    proof {
        reveal_strlit(" - ");
        assert(" - "@ =~= seq![' ', '-', ' ']);
        assert(r@ =~= spec_derive_category(group@, rel_path@));
    }
    r
}

/// A character that name derivation can leave in place: not a dot, space or
/// hyphen, and not an ASCII uppercase letter.
pub open spec fn normalized_char(c: char) -> bool {
    c != '.' && c != ' ' && c != '-' && !(65 <= c as u32 && c as u32 <= 90)
}

/// Every character of `s` is normalized.
pub open spec fn normalized(s: Seq<char>) -> bool {
    forall|i: int| 0 <= i < s.len() ==> normalized_char(s[i])
}

proof fn lemma_ext_dot_range(s: Seq<char>)
    ensures
        ext_dot(s) == -1 || 1 <= ext_dot(s) < s.len(),
    decreases s.len(),
{
    if s.len() > 1 && s.last() != '.' {
        lemma_ext_dot_range(s.drop_last());
    }
}

proof fn lemma_drop_dots_normalized(s: Seq<char>)
    requires
        forall|i: int| 0 <= i < s.len() ==> s[i] != ' ' && s[i] != '-' && !(65 <= s[i] as u32
            && s[i] as u32 <= 90),
    ensures
        normalized(drop_dots(s)),
    decreases s.len(),
{
    if s.len() > 0 {
        assert(forall|i: int|
            0 <= i < s.drop_last().len() ==> s.drop_last()[i] != ' ' && s.drop_last()[i] != '-'
                && !(65 <= s.drop_last()[i] as u32 && s.drop_last()[i] as u32 <= 90));
        lemma_drop_dots_normalized(s.drop_last());
    }
}

/// Every character of a derived name is normalized: no dot, no space, no
/// hyphen, no ASCII uppercase letter.
pub proof fn lemma_derive_name_normalized(base: Seq<char>)
    ensures
        normalized(spec_derive_name(base)),
{
    let l = lower_seq(base);
    let st = strip_extension(l);
    let u = underscore_seq(st);
    lemma_ext_dot_range(l);
    assert(forall|i: int|
        0 <= i < l.len() ==> !(65 <= #[trigger] l[i] as u32 && l[i] as u32 <= 90));
    assert forall|i: int|
        0 <= i < u.len() implies u[i] != ' ' && u[i] != '-' && !(65 <= #[trigger] u[i] as u32
            && u[i] as u32 <= 90) by {
        assert(st[i] == l[i]);
        assert(u[i] == underscore_char(st[i]));
    }
    lemma_drop_dots_normalized(u);
}

proof fn lemma_no_dot_ext_dot(s: Seq<char>)
    requires
        forall|i: int| 0 <= i < s.len() ==> s[i] != '.',
    ensures
        ext_dot(s) == -1,
    decreases s.len(),
{
    if s.len() > 1 {
        assert(s.last() != '.');
        lemma_no_dot_ext_dot(s.drop_last());
    }
}

proof fn lemma_drop_dots_no_dot(s: Seq<char>)
    requires
        forall|i: int| 0 <= i < s.len() ==> s[i] != '.',
    ensures
        drop_dots(s) == s,
    decreases s.len(),
{
    if s.len() > 0 {
        lemma_drop_dots_no_dot(s.drop_last());
        assert(drop_dots(s) == s.drop_last().push(s.last()));
        assert(s.drop_last().push(s.last()) =~= s);
    }
}

proof fn lemma_normalized_fixed(s: Seq<char>)
    requires
        normalized(s),
    ensures
        spec_derive_name(s) == s,
{
    assert(lower_seq(s) =~= s);
    lemma_no_dot_ext_dot(s);
    assert(strip_extension(s) == s);
    assert(underscore_seq(s) =~= s);
    lemma_drop_dots_no_dot(s);
}

/// Name derivation is idempotent: deriving a name from an already-derived
/// name changes nothing.
pub proof fn lemma_derive_name_idempotent(base: Seq<char>)
    ensures
        spec_derive_name(spec_derive_name(base)) == spec_derive_name(base),
{
    lemma_derive_name_normalized(base);
    lemma_normalized_fixed(spec_derive_name(base));
}

proof fn lemma_no_sep_dir_prefix_empty(rel: Seq<char>)
    requires
        forall|i: int| 0 <= i < rel.len() ==> rel[i] != '/',
    ensures
        dir_prefix(rel) == Seq::<char>::empty(),
    decreases rel.len(),
{
    if rel.len() > 0 {
        assert(rel.last() != '/');
        lemma_no_sep_dir_prefix_empty(rel.drop_last());
    } else {
        assert(rel =~= Seq::<char>::empty());
    }
}

/// A file directly at the scan root, whose relative path holds no separator,
/// gets the category `<group> - ` with an empty remainder.
pub proof fn lemma_category_at_root(group: Seq<char>, rel: Seq<char>)
    requires
        forall|i: int| 0 <= i < rel.len() ==> rel[i] != '/',
    ensures
        spec_derive_category(group, rel) == group + seq![' ', '-', ' '],
{
    lemma_no_sep_dir_prefix_empty(rel);
    assert(spec_subcategory(rel) == Seq::<char>::empty());
    assert(group + seq![' ', '-', ' '] + Seq::<char>::empty() =~= group + seq![' ', '-', ' ']);
}

} // verus!
