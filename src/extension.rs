//! The pieces of a path that naming depends on (file name, stem, extension)
//! and the two extension predicates: archive type and split-part number.
use vstd::prelude::*;
use vstd::string::*;

use crate::text::{eq_ignore_ascii_case, folded, parse_bounded, same_ignoring_case, u32_value};

verus! {

/// The final component of `path`, as the platform's path rules give it.
pub uninterp spec fn file_name_of(path: Seq<char>) -> Option<Seq<char>>;

/// Relies on `std::path::Path::file_name`: the final component of the path,
/// or nothing when the path has none (a root, or a path ending in `..`).
/// A `&str` path is valid UTF-8, so the lossy conversion keeps every character.
#[verifier::external_body]
pub(crate) fn path_file_name(path: &str) -> (r: Option<String>)
    ensures
        match r {
            Some(n) => file_name_of(path@) == Some(n@),
            None => file_name_of(path@) is None,
        },
{
    match std::path::Path::new(path).file_name() {
        Some(n) => Some(n.to_string_lossy().into_owned()),
        None => None,
    }
}

/// Position of the last occurrence of `c` in `s`.
pub open spec fn last_index_of(s: Seq<char>, c: char) -> Option<int>
    decreases s.len(),
{
    if s.len() == 0 {
        None
    } else if s.last() == c {
        Some(s.len() - 1)
    } else {
        last_index_of(s.drop_last(), c)
    }
}

pub proof fn lemma_last_index_in_bounds(s: Seq<char>, c: char)
    ensures
        last_index_of(s, c) matches Some(k) ==> 0 <= k < s.len() && s[k] == c,
    decreases s.len(),
{
    if s.len() > 0 && s.last() != c {
        lemma_last_index_in_bounds(s.drop_last(), c);
    }
}

/// The last dot of `x.y` is the one between them when `y` holds none.
pub proof fn lemma_last_dot_before(x: Seq<char>, y: Seq<char>)
    requires
        forall|i: int| 0 <= i < y.len() ==> y[i] != '.',
    ensures
        last_index_of(x + seq!['.'] + y, '.') == Some(x.len() as int),
    decreases y.len(),
{
    let t = x + seq!['.'] + y;
    if y.len() == 0 {
        assert(t.last() == '.');
    } else {
        assert(t.drop_last() == x + seq!['.'] + y.drop_last());
        assert(t.last() == y.last());
        lemma_last_dot_before(x, y.drop_last());
    }
}

/// Where a file name splits into stem and extension: at its last dot, unless
/// nothing stands before that dot (`.profile`) or the name is `..`.
pub open spec fn extension_dot(name: Seq<char>) -> Option<int> {
    if name == seq!['.', '.'] {
        None
    } else {
        match last_index_of(name, '.') {
            Some(k) => if k > 0 {
                Some(k)
            } else {
                None
            },
            None => None,
        }
    }
}

/// The extension of a file name: what follows the splitting dot.
pub open spec fn extension_of(name: Seq<char>) -> Option<Seq<char>> {
    match extension_dot(name) {
        Some(k) => Some(name.subrange(k + 1, name.len() as int)),
        None => None,
    }
}

/// The stem of a file name: what precedes the splitting dot, or the whole name.
pub open spec fn stem_of(name: Seq<char>) -> Seq<char> {
    match extension_dot(name) {
        Some(k) => name.subrange(0, k),
        None => name,
    }
}

/// The extension of the final component of `path`.
pub open spec fn path_extension(path: Seq<char>) -> Option<Seq<char>> {
    match file_name_of(path) {
        Some(n) => extension_of(n),
        None => None,
    }
}

/// The archive types this tool recognises, compared without regard to case.
pub open spec fn is_archive_ext(ext: Seq<char>) -> bool {
    ||| same_ignoring_case(ext, seq!['7', 'z'])
    ||| same_ignoring_case(ext, seq!['z', 'i', 'p'])
    ||| same_ignoring_case(ext, seq!['r', 'a', 'r'])
    ||| same_ignoring_case(ext, seq!['t', 'g', 'z'])
}

/// A split-archive part number: the extension reads as a `u32`.
pub open spec fn is_numeric_ext(ext: Seq<char>) -> bool {
    u32_value(ext) is Some
}

pub open spec fn has_archive_ext(ext: Option<Seq<char>>) -> bool {
    ext matches Some(e) && is_archive_ext(e)
}

pub open spec fn has_numeric_ext(ext: Option<Seq<char>>) -> bool {
    ext matches Some(e) && is_numeric_ext(e)
}

/// The part number that the extension of `path` carries.
pub open spec fn numeric_suffix(path: Seq<char>) -> Option<nat> {
    match path_extension(path) {
        Some(e) => u32_value(e),
        None => None,
    }
}

fn last_dot(name: &str) -> (r: Option<usize>)
    ensures
        match r {
            Some(k) => last_index_of(name@, '.') == Some(k as int) && k < name@.len(),
            None => last_index_of(name@, '.') is None,
        },
{
    let mut i: usize = name.unicode_len();
    assert(name@.subrange(0, i as int) == name@);
    while i > 0
        invariant
            i <= name@.len(),
            last_index_of(name@, '.') == last_index_of(name@.subrange(0, i as int), '.'),
        decreases i,
    {
        let ghost t = name@.subrange(0, i as int);
        assert(t.drop_last() == name@.subrange(0, i - 1));
        if name.get_char(i - 1) == '.' {
            proof {
                lemma_last_index_in_bounds(name@, '.');
            }
            return Some(i - 1);
        }
        i = i - 1;
    }
    None
}

fn is_dot_dot(name: &str) -> (r: bool)
    ensures
        r == (name@ == seq!['.', '.']),
{
    if name.unicode_len() != 2 {
        return false;
    }
    let r = name.get_char(0) == '.' && name.get_char(1) == '.';
    assert(r ==> name@ =~= seq!['.', '.']);
    r
}

/// Splits a file name into its stem and its extension, as `Path::file_stem`
/// and `Path::extension` do for the final component.
pub fn split_extension(name: &str) -> (r: (String, Option<String>))
    ensures
        r.0@ == stem_of(name@),
        match r.1 {
            Some(e) => extension_of(name@) == Some(e@),
            None => extension_of(name@) is None,
        },
{
    if is_dot_dot(name) {
        return (String::from_str(name), None);
    }
    let len = name.unicode_len();
    match last_dot(name) {
        Some(k) => if k > 0 {
            let stem = String::from_str(name.substring_char(0, k));
            let ext = String::from_str(name.substring_char(k + 1, len));
            (stem, Some(ext))
        } else {
            (String::from_str(name), None)
        },
        None => (String::from_str(name), None),
    }
}

/// The extension of the final component of `path`.
pub fn file_extension(path: &str) -> (r: Option<String>)
    ensures
        match r {
            Some(e) => path_extension(path@) == Some(e@),
            None => path_extension(path@) is None,
        },
{
    match path_file_name(path) {
        Some(n) => split_extension(n.as_str()).1,
        None => None,
    }
}

/// Whether `ext` names an archive type: `7z`, `zip`, `rar` or `tgz`, in any case.
pub fn is_archive_extension(ext: &str) -> (r: bool)
    ensures
        r == is_archive_ext(ext@),
{
    proof {
        reveal_strlit("7z");
        reveal_strlit("zip");
        reveal_strlit("rar");
        reveal_strlit("tgz");
    }
    eq_ignore_ascii_case(ext, "7z") || eq_ignore_ascii_case(ext, "zip") || eq_ignore_ascii_case(
        ext,
        "rar",
    ) || eq_ignore_ascii_case(ext, "tgz")
}

/// Whether `ext` reads as a `u32`: digits, leading zeros allowed, an optional `+`.
pub fn is_numeric_extension(ext: &str) -> (r: bool)
    ensures
        r == is_numeric_ext(ext@),
{
    parse_bounded(ext, u32::MAX as u64).is_some()
}

/// Whether the extension of the final component of `path` is an archive type.
pub fn is_archive(path: &str) -> (r: bool)
    ensures
        r == has_archive_ext(path_extension(path@)),
{
    match file_extension(path) {
        Some(e) => is_archive_extension(e.as_str()),
        None => false,
    }
}

/// Whether the extension of the final component of `path` is a part number.
pub fn is_numeric(path: &str) -> (r: bool)
    ensures
        r == has_numeric_ext(path_extension(path@)),
{
    match file_extension(path) {
        Some(e) => is_numeric_extension(e.as_str()),
        None => false,
    }
}

/// The part number in the extension of `path`, if it carries one.
pub fn numeric_extension(path: &str) -> (r: Option<u32>)
    ensures
        match numeric_suffix(path@) {
            Some(v) => r == Some(v as u32),
            None => r is None,
        },
{
    match file_extension(path) {
        Some(e) => match parse_bounded(e.as_str(), u32::MAX as u64) {
            Some(v) => Some(v as u32),
            None => None,
        },
        None => None,
    }
}

/// The archive-type test ignores the case of ASCII letters: `7Z`, `Zip` and
/// `rar` are archive types as `7z`, `zip` and `RAR` are.
pub proof fn lemma_archive_ext_ignores_case(a: Seq<char>, b: Seq<char>)
    requires
        same_ignoring_case(a, b),
    ensures
        is_archive_ext(a) == is_archive_ext(b),
{
    assert forall|t: Seq<char>| same_ignoring_case(a, t) <==> same_ignoring_case(b, t) by {
        if same_ignoring_case(a, t) {
            assert forall|i: int| 0 <= i < b.len() implies folded(#[trigger] b[i]) == folded(t[i]) by {
                assert(folded(a[i]) == folded(b[i]));
            }
        }
        if same_ignoring_case(b, t) {
            assert forall|i: int| 0 <= i < a.len() implies folded(#[trigger] a[i]) == folded(t[i]) by {
                assert(folded(a[i]) == folded(b[i]));
            }
        }
    }
}

/// An empty extension, or none at all, is neither an archive type nor a part
/// number.
pub proof fn lemma_empty_extension_is_neither()
    ensures
        !is_archive_ext(Seq::<char>::empty()),
        !is_numeric_ext(Seq::<char>::empty()),
        !has_archive_ext(None),
        !has_numeric_ext(None),
{
}

} // verus!
