//! Resolves the name of an application from a path, orders the parts of a
//! split archive and plans how they are combined before extraction.
use vstd::prelude::*;
use vstd::string::*;

pub mod extension;
pub mod order;
pub mod steps;
pub mod text;

use crate::extension::{
    extension_of, file_name_of, has_archive_ext, has_numeric_ext, is_archive_ext,
    is_archive_extension, is_numeric_ext, is_numeric_extension, lemma_last_dot_before,
    numeric_extension, numeric_suffix, path_file_name, split_extension, stem_of,
};
use crate::text::{
    contains, decimal_value, fold, folded, has_substring, is_digit, parse_bounded, same_ignoring_case,
    unsigned_digits, views,
};
use std::cmp::Ordering;

verus! {

/// What the file system holds at a path, as far as naming cares.
#[derive(Clone, Copy, Debug, PartialEq, Eq, Structural)]
pub enum PathKind {
    Missing,
    Directory,
    File,
}

/// The application name that an existing file stands for: a trailing part
/// number is dropped first (`App.7z.001` to `App.7z`), then an archive
/// extension (`App.7z` to `App`).
pub open spec fn resolved_file_name(name: Seq<char>) -> Seq<char> {
    let whole = if has_numeric_ext(extension_of(name)) {
        stem_of(name)
    } else {
        name
    };
    if has_archive_ext(extension_of(whole)) {
        stem_of(whole)
    } else {
        whole
    }
}

/// Of an existing file named `stem.archive.number`, the part number is
/// stripped and then the archive type, leaving exactly `stem`
/// (`App.7z.007` names `App`).
pub proof fn lemma_part_then_archive_stripped(stem: Seq<char>, archive: Seq<char>, number: Seq<char>)
    requires
        stem.len() > 0,
        is_archive_ext(archive),
        is_numeric_ext(number),
    ensures
        resolved_file_name(stem + seq!['.'] + archive + seq!['.'] + number) == stem,
{
    let whole = stem + seq!['.'] + archive;
    let name = whole + seq!['.'] + number;
    assert(archive.len() >= 2);
    assert forall|i: int| 0 <= i < archive.len() implies archive[i] != '.' by {
        assert(folded(archive[i]) != folded('.'));
    }
    let d = unsigned_digits(number);
    assert forall|i: int| 0 <= i < number.len() implies number[i] != '.' by {
        if number.len() > 0 && number[0] == '+' && i > 0 {
            assert(number[i] == d[i - 1]);
            assert(is_digit(d[i - 1]));
        } else if !(number[0] == '+') {
            assert(is_digit(d[i]));
        }
    }
    lemma_last_dot_before(whole, number);
    lemma_last_dot_before(stem, archive);
    assert(name.subrange((whole.len() + 1) as int, name.len() as int) == number);
    assert(name.subrange(0, whole.len() as int) == whole);
    assert(name != seq!['.', '.']) by {
        assert(name.len() > 2);
    }
    assert(whole != seq!['.', '.']) by {
        assert(whole.len() > 2);
    }
    assert(whole.subrange((stem.len() + 1) as int, whole.len() as int) == archive);
    assert(whole.subrange(0, stem.len() as int) == stem);
}

/// The application name for `path`. A path that does not exist, or is a
/// directory, names the application as it is: dots in it are part of the name.
pub open spec fn app_name_of(path: Seq<char>, kind: PathKind) -> Option<Seq<char>> {
    match file_name_of(path) {
        Some(n) => if kind == PathKind::File {
            Some(resolved_file_name(n))
        } else {
            Some(n)
        },
        None => None,
    }
}

/// The application name for the file name of an existing file.
pub fn resolve_file_name(name: &str) -> (r: String)
    ensures
        r@ == resolved_file_name(name@),
{
    let (stem, ext) = split_extension(name);
    let numeric = match &ext {
        Some(e) => is_numeric_extension(e.as_str()),
        None => false,
    };
    let whole = if numeric {
        stem
    } else {
        String::from_str(name)
    };
    let (stem, ext) = split_extension(whole.as_str());
    let archive = match &ext {
        Some(e) => is_archive_extension(e.as_str()),
        None => false,
    };
    if archive {
        stem
    } else {
        whole
    }
}

/// Finds the application name for `name`, whose kind on disk the caller has
/// looked up. `None` when the path has no final component.
pub fn find_app_name(name: &str, kind: PathKind) -> (r: Option<String>)
    ensures
        match app_name_of(name@, kind) {
            Some(n) => r matches Some(s) && s@ == n,
            None => r is None,
        },
        kind != PathKind::File ==> match file_name_of(name@) {
            Some(n) => r matches Some(s) && s@ == n,
            None => r is None,
        },
{
    let file_name = match path_file_name(name) {
        Some(n) => n,
        None => return None,
    };
    match kind {
        PathKind::File => Some(resolve_file_name(file_name.as_str())),
        _ => Some(file_name),
    }
}

/// Some keyword occurs in `name`.
pub open spec fn has_keyword(name: Seq<char>, keywords: Seq<Seq<char>>) -> bool {
    exists|i: int| 0 <= i < keywords.len() && has_substring(name, #[trigger] keywords[i])
}

/// Whether any of `keywords` occurs in the file name `name`.
pub fn name_has_keywords(keywords: &Vec<String>, name: &str) -> (r: bool)
    ensures
        r == has_keyword(name@, views(keywords@)),
{
    let mut i: usize = 0;
    while i < keywords.len()
        invariant
            i <= keywords@.len(),
            forall|k: int| 0 <= k < i ==> !has_substring(name@, #[trigger] views(keywords@)[k]),
        decreases keywords@.len() - i,
    {
        if contains(name, keywords[i].as_str()) {
            assert(views(keywords@)[i as int] == keywords@[i as int]@);
            return true;
        }
        i = i + 1;
    }
    false
}

/// Whether any of `keywords` occurs in the final component of `path`; never
/// for a path without one.
pub fn check_name(keywords: &Vec<String>, path: &str) -> (r: bool)
    ensures
        r == match file_name_of(path@) {
            Some(n) => has_keyword(n, views(keywords@)),
            None => false,
        },
{
    match path_file_name(path) {
        Some(n) => name_has_keywords(keywords, n.as_str()),
        None => false,
    }
}

/// The order of two natural numbers.
pub open spec fn compare_nat(a: nat, b: nat) -> Ordering {
    if a < b {
        Ordering::Less
    } else if a == b {
        Ordering::Equal
    } else {
        Ordering::Greater
    }
}

/// Orders two part numbers.
pub fn compare_numbers(a: u32, b: u32) -> (r: Ordering)
    ensures
        r == compare_nat(a as nat, b as nat),
{
    if a < b {
        Ordering::Less
    } else if a == b {
        Ordering::Equal
    } else {
        Ordering::Greater
    }
}

/// Orders two paths by the part number in their extensions
/// (`file.7z.001` before `file.7z.002`, and `file.7z.002` before `file.7z.011`).
/// `None` when either path lacks a part number.
pub fn compare_numeric_extension(a: &str, b: &str) -> (r: Option<Ordering>)
    ensures
        match (numeric_suffix(a@), numeric_suffix(b@)) {
            (Some(x), Some(y)) => r == Some(compare_nat(x, y)),
            _ => r is None,
        },
{
    let x = match numeric_extension(a) {
        Some(x) => x,
        None => return None,
    };
    let y = match numeric_extension(b) {
        Some(y) => y,
        None => return None,
    };
    Some(compare_numbers(x, y))
}

/// The choice that a reply to "which one, 1 to `max`" selects.
pub open spec fn chosen_index(reply: Seq<char>, max: nat) -> Option<nat> {
    match decimal_value(reply) {
        Some(v) => if 1 <= v && v <= max {
            Some(v)
        } else {
            None
        },
        None => None,
    }
}

/// Decides one round of the numeric choice prompt: `Some(choice)` when the
/// trimmed `reply` is a number from 1 to `max`, `None` when the question has
/// to be asked again.
pub fn prompt_user_for_usize(reply: &str, max: usize) -> (r: Option<usize>)
    ensures
        match chosen_index(reply@, max as nat) {
            Some(v) => r == Some(v as usize),
            None => r is None,
        },
{
    match parse_bounded(reply, max as u64) {
        Some(v) => if v >= 1 {
            Some(v as usize)
        } else {
            None
        },
        None => None,
    }
}

/// Whether a trimmed reply is the one-letter answer `letter`, in either
/// case: `y` and `Y` both answer yes.
pub fn answer_is(reply: &str, letter: char) -> (r: bool)
    ensures
        r == same_ignoring_case(reply@, seq![letter]),
{
    if reply.unicode_len() != 1 {
        return false;
    }
    fold(reply.get_char(0)) == fold(letter)
}

} // verus!
