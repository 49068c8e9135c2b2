//! Path filter: decides which paths take part in the file tree.
//!
//! A path is invisible when its final component starts with `.`; a file path
//! is visible only when its extension is in the fixed allow-list; a directory
//! is never filtered by extension.

use vstd::prelude::*;

verus! {

/// Index just after the last occurrence of `c` in `s`, or 0 when `c` does not occur.
pub open spec fn after_last(s: Seq<char>, c: char) -> int
    decreases s.len(),
{
    if s.len() == 0 {
        0
    } else if s[s.len() - 1] == c {
        s.len() as int
    } else {
        after_last(s.drop_last(), c)
    }
}

pub proof fn lemma_after_last_bounds(s: Seq<char>, c: char)
    ensures
        0 <= after_last(s, c) <= s.len(),
    decreases s.len(),
{
    if s.len() != 0 && s[s.len() - 1] != c {
        lemma_after_last_bounds(s.drop_last(), c);
    }
}

/// `after_last` is pinned down by its characteristic property: position `i` is
/// just after a `c` (or at the start), and no `c` follows it.
pub proof fn lemma_after_last_at(s: Seq<char>, c: char, i: int)
    requires
        0 <= i <= s.len(),
        i == 0 || s[i - 1] == c,
        forall|j: int| i <= j < s.len() ==> s[j] != c,
    ensures
        after_last(s, c) == i,
    decreases s.len(),
{
    if s.len() == 0 {
    } else if s[s.len() - 1] == c {
        assert(i == s.len());
    } else {
        assert(i < s.len());
        lemma_after_last_at(s.drop_last(), c, i);
    }
}

/// The final component of a path: everything after the last `/`.
pub open spec fn spec_file_name(path: Seq<char>) -> Seq<char> {
    path.subrange(after_last(path, '/'), path.len() as int)
}

/// Extension of a file name, as the portion after the final `.`, following
/// the usual convention: a name with no embedded dot, or whose only dot is
/// the leading one of a hidden name, has no extension.
pub open spec fn spec_extension(name: Seq<char>) -> Option<Seq<char>> {
    if after_last(name, '.') <= 1 {
        None
    } else {
        Some(name.subrange(after_last(name, '.'), name.len() as int))
    }
}

/// The fixed allow-list of file extensions that take part in the tree.
pub open spec fn spec_ext_supported(e: Seq<char>) -> bool {
    ||| e == "md"@
    ||| e == "MD"@
    ||| e == "png"@
    ||| e == "jpg"@
    ||| e == "jpeg"@
    ||| e == "gif"@
    ||| e == "svg"@
    ||| e == "webp"@
}

/// A path names a supported file when the extension of its final component
/// is in the allow-list.
pub open spec fn spec_is_supported_path(path: Seq<char>) -> bool {
    match spec_extension(spec_file_name(path)) {
        Some(e) => spec_ext_supported(e),
        None => false,
    }
}

/// A name is hidden when it starts with `.`.
pub open spec fn spec_is_hidden(name: Seq<char>) -> bool {
    name.len() > 0 && name[0] == '.'
}

/// Whether a path takes part in the tree: never when its final component is
/// hidden; a directory always otherwise; a file only with a supported extension.
pub open spec fn spec_is_visible(path: Seq<char>, is_dir: bool) -> bool {
    &&& !spec_is_hidden(spec_file_name(path))
    &&& (is_dir || spec_is_supported_path(path))
}

/// Find the index just after the last occurrence of `c` in `s`.
fn find_after_last(s: &str, c: char) -> (i: usize)
    ensures
        i == after_last(s@, c),
{
    let n = s.unicode_len();
    let mut i = n;
    while i > 0
        invariant
            0 <= i <= n,
            n == s@.len(),
            forall|j: int| i <= j < s@.len() ==> s@[j] != c,
        decreases i,
    {
        if s.get_char(i - 1) == c {
            proof {
                lemma_after_last_at(s@, c, i as int);
            }
            return i;
        }
        i = i - 1;
    }
    proof {
        lemma_after_last_at(s@, c, 0);
    }
    0
}

/// The final component of a path: everything after the last `/`.
pub fn file_name_of(path: &str) -> (r: &str)
    ensures
        r@ == spec_file_name(path@),
{
    let start = find_after_last(path, '/');
    proof {
        lemma_after_last_bounds(path@, '/');
    }
    path.substring_char(start, path.unicode_len())
}

/// Character-for-character string equality.
pub fn str_eq_value(a: &str, b: &str) -> (r: bool)
    ensures
        r == (a@ == b@),
{
    let na = a.unicode_len();
    let nb = b.unicode_len();
    if na != nb {
        return false;
    }
    let mut i: usize = 0;
    while i < na
        invariant
            0 <= i <= na,
            na == a@.len(),
            na == b@.len(),
            forall|j: int| 0 <= j < i ==> a@[j] == b@[j],
        decreases na - i,
    {
        if a.get_char(i) != b.get_char(i) {
            return false;
        }
        i = i + 1;
    }
    proof {
        assert(a@ =~= b@);
    }
    true
}

/// The extension of a file name, or `None` when it has none.
pub fn extension_of<'a>(name: &'a str) -> (r: Option<&'a str>)
    ensures
        match spec_extension(name@) {
            Some(e) => r matches Some(s) && s@ == e,
            None => r is None,
        },
{
    let d = find_after_last(name, '.');
    proof {
        lemma_after_last_bounds(name@, '.');
    }
    if d <= 1 {
        None
    } else {
        Some(name.substring_char(d, name.unicode_len()))
    }
}

/// Whether an extension is in the fixed allow-list.
fn ext_supported(e: &str) -> (r: bool)
    ensures
        r == spec_ext_supported(e@),
{
    str_eq_value(e, "md") || str_eq_value(e, "MD") || str_eq_value(e, "png") || str_eq_value(
        e,
        "jpg",
    ) || str_eq_value(e, "jpeg") || str_eq_value(e, "gif") || str_eq_value(e, "svg")
        || str_eq_value(e, "webp")
}

/// Whether the path names a file with a supported extension.
pub fn is_supported_file(path: &str) -> (r: bool)
    ensures
        r == spec_is_supported_path(path@),
{
    let name = file_name_of(path);
    match extension_of(name) {
        Some(e) => ext_supported(e),
        None => false,
    }
}

/// Whether a path takes part in the tree.
pub fn is_visible(path: &str, is_dir: bool) -> (r: bool)
    ensures
        r == spec_is_visible(path@, is_dir),
{
    let name = file_name_of(path);
    if name.unicode_len() > 0 && name.get_char(0) == '.' {
        return false;
    }
    if is_dir {
        return true;
    }
    is_supported_file(path)
}

/// A path whose final component is hidden is never visible, directory or not.
pub proof fn lemma_hidden_never_visible(path: Seq<char>, is_dir: bool)
    requires
        spec_is_hidden(spec_file_name(path)),
    ensures
        !spec_is_visible(path, is_dir),
{
}

/// For a non-hidden file path, visibility holds exactly when the extension of
/// its final component is in the allow-list.
pub proof fn lemma_file_visible_iff_supported(path: Seq<char>)
    requires
        !spec_is_hidden(spec_file_name(path)),
    ensures
        spec_is_visible(path, false) <==> (spec_extension(spec_file_name(path)) matches Some(e)
            && spec_ext_supported(e)),
{
}

} // verus!
