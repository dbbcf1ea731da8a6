//! The steps of an install: from the application name to the archive that is
//! extracted, and the decisions taken between the file-system operations.
use vstd::prelude::*;
use vstd::string::*;

use crate::extension::{file_name_of, path_file_name};
use crate::order::{all_numbered, is_combine_order, order_parts, NUMERIC_SORT_THRESHOLD};
use crate::text::{decimal_string, decimal_text, parse_bounded, split_by, split_on, u32_value, views};
use crate::{app_name_of, check_name, find_app_name, has_keyword, PathKind};

verus! {

/// Finds the application name for `name`; see [`find_app_name`].
pub fn parse_app_name(name: &str, kind: PathKind) -> (r: Option<String>)
    ensures
        match app_name_of(name@, kind) {
            Some(n) => r matches Some(s) && s@ == n,
            None => r is None,
        },
{
    find_app_name(name, kind)
}

/// The first piece from index `from` on that is not a part number.
pub open spec fn first_non_numeric(pieces: Seq<Seq<char>>, from: int) -> Option<Seq<char>>
    decreases pieces.len() - from,
{
    if from < 0 || from >= pieces.len() {
        None
    } else if u32_value(pieces[from]) is None {
        Some(pieces[from])
    } else {
        first_non_numeric(pieces, from + 1)
    }
}

/// The archive type of a part's file name: the first dot-separated piece
/// after the stem that is not a number (`7z` in `App.7z.001`).
pub open spec fn archive_type_of(name: Seq<char>) -> Option<Seq<char>> {
    first_non_numeric(split_on(name, '.'), 1)
}

/// The archive type of a part's file name; see [`archive_type_of`].
pub fn final_extension(name: &str) -> (r: Option<String>)
    ensures
        match archive_type_of(name@) {
            Some(e) => r matches Some(s) && s@ == e,
            None => r is None,
        },
{
    let pieces = split_by(name, '.');
    let ghost all = views(pieces@);
    let mut k: usize = 1;
    while k < pieces.len()
        invariant
            all == views(pieces@),
            all == split_on(name@, '.'),
            1 <= k,
            first_non_numeric(all, 1) == first_non_numeric(all, k as int),
        decreases pieces@.len() - k,
    {
        assert(all[k as int] == pieces@[k as int]@);
        if parse_bounded(pieces[k].as_str(), u32::MAX as u64).is_none() {
            assert(u32_value(all[k as int]) is None);
            assert(first_non_numeric(all, k as int) == Some(all[k as int]));
            return Some(pieces[k].clone());
        }
        k = k + 1;
    }
    None
}

/// The name of the combined archive: the application name with the archive
/// type of the first part's file name.
pub open spec fn combined_name(app_name: Seq<char>, first_name: Seq<char>) -> Option<Seq<char>> {
    match archive_type_of(first_name) {
        Some(e) => Some(app_name + seq!['.'] + e),
        None => None,
    }
}

/// The name of the combined archive for `app_name`, from the file name of the
/// first part; `None` when that name holds no archive type.
pub fn output_name(app_name: &str, first_name: &str) -> (r: Option<String>)
    ensures
        match combined_name(app_name@, first_name@) {
            Some(n) => r matches Some(s) && s@ == n,
            None => r is None,
        },
{
    proof {
        reveal_strlit(".");
    }
    match final_extension(first_name) {
        Some(e) => Some(String::from_str(app_name).concat(".").concat(e.as_str())),
        None => None,
    }
}

/// Why no plan could be made for the candidates.
#[derive(Clone, Copy, Debug, PartialEq, Eq, Structural)]
pub enum PlanError {
    /// No file starts with the application name.
    NoCandidates,
    /// The first candidate has no file name to take the archive type from.
    NoFileName,
    /// The first candidate's name holds no piece that is not a number.
    NoArchiveType,
    /// The parts have to be sorted and one carries no part number.
    MissingPartNumber,
}

/// What to extract, and whether parts are combined first.
#[derive(Debug)]
pub enum CombinePlan {
    /// A single candidate, extracted as it is; `confirm` when the user is asked first.
    Single { path: String, confirm: bool },
    /// Several parts, in the order they are appended, and the combined archive's name.
    Combine { parts: Vec<String>, output: String },
}

/// Plans the combination of the candidates found for `app_name`.
///
/// One candidate is extracted directly. Several are parts: the combined name
/// is the application name with the archive type of the first part, and the
/// parts are put in combining order.
pub fn find_final_name(app_name: &str, files: Vec<String>, no_interaction: bool) -> (r: Result<
    CombinePlan,
    PlanError,
>)
    ensures
        files@.len() == 0 ==> r == Err::<CombinePlan, PlanError>(PlanError::NoCandidates),
        files@.len() == 1 ==> (r matches Ok(CombinePlan::Single { path, confirm }) && path@
            == files@[0]@ && confirm == !no_interaction),
        files@.len() > 1 ==> match file_name_of(files@[0]@) {
            None => r == Err::<CombinePlan, PlanError>(PlanError::NoFileName),
            Some(first) => match combined_name(app_name@, first) {
                None => r == Err::<CombinePlan, PlanError>(PlanError::NoArchiveType),
                Some(name) => if files@.len() > NUMERIC_SORT_THRESHOLD && !all_numbered(
                    views(files@),
                ) {
                    r == Err::<CombinePlan, PlanError>(PlanError::MissingPartNumber)
                } else {
                    r matches Ok(CombinePlan::Combine { parts, output }) && output@ == name
                        && is_combine_order(views(files@), views(parts@))
                },
            },
        },
{
    if files.len() == 0 {
        return Err(PlanError::NoCandidates);
    }
    if files.len() == 1 {
        let path = files[0].clone();
        return Ok(CombinePlan::Single { path, confirm: !no_interaction });
    }
    let first = match path_file_name(files[0].as_str()) {
        Some(n) => n,
        None => return Err(PlanError::NoFileName),
    };
    let output = match output_name(app_name, first.as_str()) {
        Some(n) => n,
        None => return Err(PlanError::NoArchiveType),
    };
    match order_parts(files) {
        Some(parts) => Ok(CombinePlan::Combine { parts, output }),
        None => Err(PlanError::MissingPartNumber),
    }
}

/// How an exclusive creation of a file or directory went.
#[derive(Clone, Copy, Debug, PartialEq, Eq, Structural)]
pub enum CreateOutcome {
    Created,
    AlreadyExists,
    Failed,
}

/// What to do once the combined archive was to be created.
#[derive(Clone, Copy, Debug, PartialEq, Eq, Structural)]
pub enum OutputStep {
    /// The file is new: append the parts to it.
    Write,
    /// A file of that name exists: extract it as it is, leaving it untouched.
    Reuse,
    /// A file of that name exists: ask whether to extract it; stop if not.
    ConfirmReuse,
    /// The file could not be created: stop.
    Fatal,
}

/// Decides what follows the exclusive creation of the combined archive. An
/// existing archive is never written to.
pub fn output_step(outcome: CreateOutcome, no_interaction: bool) -> (r: OutputStep)
    ensures
        outcome == CreateOutcome::Created ==> r == OutputStep::Write,
        outcome == CreateOutcome::AlreadyExists ==> r == (if no_interaction {
            OutputStep::Reuse
        } else {
            OutputStep::ConfirmReuse
        }),
        outcome == CreateOutcome::Failed ==> r == OutputStep::Fatal,
{
    match outcome {
        CreateOutcome::Created => OutputStep::Write,
        CreateOutcome::AlreadyExists => if no_interaction {
            OutputStep::Reuse
        } else {
            OutputStep::ConfirmReuse
        },
        CreateOutcome::Failed => OutputStep::Fatal,
    }
}

/// What to do once the destination directory was to be created.
#[derive(Clone, Copy, Debug, PartialEq, Eq, Structural)]
pub enum DestinationStep {
    /// Extract into it.
    Proceed,
    /// It exists and holds entries: ask whether to go on; stop if not.
    ConfirmNonEmpty,
    /// It exists and cannot be listed: stop.
    Unreadable,
    /// It could not be created: stop.
    Fatal,
}

/// Decides what follows the creation of the destination directory. `entries`
/// is how many entries an existing directory holds, `None` when it cannot be
/// listed.
pub fn destination_step(outcome: CreateOutcome, entries: Option<usize>, no_interaction: bool) -> (r:
    DestinationStep)
    ensures
        outcome == CreateOutcome::Created ==> r == DestinationStep::Proceed,
        outcome == CreateOutcome::Failed ==> r == DestinationStep::Fatal,
        outcome == CreateOutcome::AlreadyExists ==> r == match entries {
            None => DestinationStep::Unreadable,
            Some(n) => if no_interaction || n == 0 {
                DestinationStep::Proceed
            } else {
                DestinationStep::ConfirmNonEmpty
            },
        },
{
    match outcome {
        CreateOutcome::Created => DestinationStep::Proceed,
        CreateOutcome::Failed => DestinationStep::Fatal,
        CreateOutcome::AlreadyExists => match entries {
            None => DestinationStep::Unreadable,
            Some(n) => if no_interaction || n == 0 {
                DestinationStep::Proceed
            } else {
                DestinationStep::ConfirmNonEmpty
            },
        },
    }
}

/// The final component of `path` holds one of the words of `name`.
pub open spec fn path_matches_name(path: Seq<char>, name: Seq<char>) -> bool {
    match file_name_of(path) {
        Some(n) => has_keyword(n, split_on(name, ' ')),
        None => false,
    }
}

/// The first of `paths` whose final component holds one of the words of
/// `name` (split at spaces): the folder to flatten, or the executable to
/// link to.
pub fn find_by_keywords(name: &str, paths: &Vec<String>) -> (r: Option<usize>)
    ensures
        match r {
            Some(k) => k < paths@.len() && path_matches_name(paths@[k as int]@, name@) && forall|
                j: int,
            |
                0 <= j < k ==> !path_matches_name(#[trigger] paths@[j]@, name@),
            None => forall|j: int|
                0 <= j < paths@.len() ==> !path_matches_name(#[trigger] paths@[j]@, name@),
        },
{
    let keywords = split_by(name, ' ');
    let mut k: usize = 0;
    while k < paths.len()
        invariant
            k <= paths@.len(),
            views(keywords@) == split_on(name@, ' '),
            forall|j: int| 0 <= j < k ==> !path_matches_name(#[trigger] paths@[j]@, name@),
        decreases paths@.len() - k,
    {
        if check_name(&keywords, paths[k].as_str()) {
            return Some(k);
        }
        k = k + 1;
    }
    None
}

/// The arguments of the extraction tool's command line: extract with full
/// paths into `destination`, answering yes to its questions when asked to.
pub open spec fn extract_command(destination: Seq<char>, archive: Seq<char>, no_interaction: bool) -> Seq<Seq<char>> {
    if no_interaction {
        seq!["x"@, "-o"@ + destination, "-y"@, archive]
    } else {
        seq!["x"@, "-o"@ + destination, archive]
    }
}

/// The arguments of the extraction tool for `archive`; see [`extract_command`].
pub fn extract_args(destination: &str, archive: &str, no_interaction: bool) -> (r: Vec<String>)
    ensures
        views(r@) == extract_command(destination@, archive@, no_interaction),
{
    let mut r: Vec<String> = Vec::new();
    r.push(String::from_str("x"));
    r.push(String::from_str("-o").concat(destination));
    if no_interaction {
        r.push(String::from_str("-y"));
    }
    r.push(String::from_str(archive));
    assert(views(r@) =~= extract_command(destination@, archive@, no_interaction));
    r
}

/// What the extraction tool's exit code reports.
#[derive(Clone, Copy, Debug, PartialEq, Eq, Structural)]
pub enum ExtractStatus {
    /// No error, or only warnings.
    Success,
    FatalError,
    CommandLineError,
    OutOfMemory,
    UserStopped,
    /// A code the tool does not document.
    Unknown,
}

/// Reads the extraction tool's exit code: 0 and 1 succeed, 2, 7, 8 and 255
/// are its documented failures, anything else is unknown.
pub fn extract_status(code: i32) -> (r: ExtractStatus)
    ensures
        r == (if code == 0 || code == 1 {
            ExtractStatus::Success
        } else if code == 2 {
            ExtractStatus::FatalError
        } else if code == 7 {
            ExtractStatus::CommandLineError
        } else if code == 8 {
            ExtractStatus::OutOfMemory
        } else if code == 255 {
            ExtractStatus::UserStopped
        } else {
            ExtractStatus::Unknown
        }),
{
    match code {
        0 | 1 => ExtractStatus::Success,
        2 => ExtractStatus::FatalError,
        7 => ExtractStatus::CommandLineError,
        8 => ExtractStatus::OutOfMemory,
        255 => ExtractStatus::UserStopped,
        _ => ExtractStatus::Unknown,
    }
}

/// The pattern that finds the candidates for `app_name`: every name that
/// starts with it, inside the directory of that name when the application was
/// named by a directory.
pub fn glob_pattern(app_name: &str, inside_dir: bool) -> (r: String)
    ensures
        r@ == (if inside_dir {
            app_name@ + "/"@ + app_name@ + "*"@
        } else {
            app_name@ + "*"@
        }),
{
    if inside_dir {
        String::from_str(app_name).concat("/").concat(app_name).concat("*")
    } else {
        String::from_str(app_name).concat("*")
    }
}

/// What `humansize::format_size` writes for a byte count with its `DECIMAL` options.
pub uninterp spec fn decimal_size_text(bytes: u64) -> Seq<char>;

/// Relies on `humansize::format_size` with `humansize::DECIMAL`: the size in SI
/// units (`1.50 kB`), a function of the byte count alone.
#[verifier::external_body]
fn format_decimal_size(bytes: u64) -> (r: String)
    ensures
        r@ == decimal_size_text(bytes),
{
    humansize::format_size(bytes, humansize::DECIMAL)
}

/// The progress line for part `index` (from 0) of `total`, with the part's
/// size when it is known: `3/12: combining "App.7z.003" (1.50 kB)`.
pub open spec fn progress_text(index: nat, total: nat, file: Seq<char>, size: Option<Seq<char>>) -> Seq<char> {
    let head = decimal_text(index + 1) + "/"@ + decimal_text(total) + ": combining \""@ + file
        + "\""@;
    match size {
        Some(s) => head + " ("@ + s + ")"@,
        None => head,
    }
}

/// The progress line, with the size already written out.
pub fn progress_line_with(index: usize, total: usize, file: &str, size: Option<&str>) -> (r: String)
    requires
        index < total,
    ensures
        r@ == progress_text(
            index as nat,
            total as nat,
            file@,
            match size {
                Some(s) => Some(s@),
                None => None,
            },
        ),
{
    let head = decimal_string((index + 1) as u64).concat("/").concat(
        decimal_string(total as u64).as_str(),
    ).concat(": combining \"").concat(file).concat("\"");
    match size {
        Some(s) => head.concat(" (").concat(s).concat(")"),
        None => head,
    }
}

/// The progress line for part `index` of `total`, with a size of `size` bytes
/// when it is known.
pub fn progress_line(index: usize, total: usize, file: &str, size: Option<u64>) -> (r: String)
    requires
        index < total,
    ensures
        r@ == progress_text(
            index as nat,
            total as nat,
            file@,
            match size {
                Some(b) => Some(decimal_size_text(b)),
                None => None,
            },
        ),
{
    match size {
        Some(b) => {
            let text = format_decimal_size(b);
            progress_line_with(index, total, file, Some(text.as_str()))
        },
        None => progress_line_with(index, total, file, None),
    }
}

} // verus!
