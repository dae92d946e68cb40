//! From the files of a directory to the rows of the report.

use crate::filetype::{file_category, getfiletype, is_text, text_category};
use crate::lines::{line_count, linecount};
use crate::order::{
    in_order, lemma_sorted_neighbours, lemma_sorted_permutes, sort_records, sorted,
};
use crate::record::{rows_of, Filelines, Row};
use crate::text::{
    append_left_aligned, append_repeated, decimal, decimal_string, final_segment, left_aligned,
    repeated,
};
use vstd::prelude::*;

verus! {

/// Width of the column of file names.
pub const NAME_WIDTH: usize = 50;

/// Width of the column of line counts.
pub const COUNT_WIDTH: usize = 5;

/// Length of the rule under the column titles.
pub const RULE_WIDTH: usize = 56;

/// The exit code of a run that printed its report or found no files.
pub const EXIT_OK: i32 = 0;

/// The exit code of a run that could not list the directory.
pub const EXIT_FAILURE: i32 = 1;

/// A file of the directory as it was read: its path and its content, or
/// the reason why the content could not be had.
#[derive(Debug)]
pub struct SourceFile {
    pub path: String,
    pub content: Result<Vec<u8>, String>,
}

/// A file as a mathematical value.
pub struct SourceFileSpec {
    pub path: Seq<char>,
    pub content: Result<Seq<u8>, Seq<char>>,
}

impl View for SourceFile {
    type V = SourceFileSpec;

    open spec fn view(&self) -> SourceFileSpec {
        SourceFileSpec {
            path: self.path@,
            content: match self.content {
                Ok(bytes) => Ok(bytes@),
                Err(cause) => Err(cause@),
            },
        }
    }
}

/// The files that a sequence of files stands for, in the same order.
pub open spec fn files_of(files: Seq<SourceFile>) -> Seq<SourceFileSpec> {
    files.map_values(|f: SourceFile| f@)
}

/// What was found at the path that was to be listed: nothing, something
/// that is no directory, a directory that could not be read (with the
/// reason), or the files of the directory as they were read.
#[derive(Debug)]
pub enum Target {
    Missing,
    NotDirectory,
    Unreadable(String),
    Listed(Vec<SourceFile>),
}

/// A target as a mathematical value.
pub enum TargetSpec {
    Missing,
    NotDirectory,
    Unreadable(Seq<char>),
    Listed(Seq<SourceFileSpec>),
}

impl View for Target {
    type V = TargetSpec;

    open spec fn view(&self) -> TargetSpec {
        match self {
            Target::Missing => TargetSpec::Missing,
            Target::NotDirectory => TargetSpec::NotDirectory,
            Target::Unreadable(cause) => TargetSpec::Unreadable(cause@),
            Target::Listed(files) => TargetSpec::Listed(files_of(files@)),
        }
    }
}

/// Why a directory could not be listed.
#[derive(Debug)]
pub enum ScanError {
    /// Nothing exists at the path.
    NotFound,
    /// What exists at the path is no directory.
    NotADirectory,
    /// The directory could not be read; the reason is given.
    Io(String),
}

/// An error as a mathematical value.
pub enum ScanErrorSpec {
    NotFound,
    NotADirectory,
    Io(Seq<char>),
}

impl View for ScanError {
    type V = ScanErrorSpec;

    open spec fn view(&self) -> ScanErrorSpec {
        match self {
            ScanError::NotFound => ScanErrorSpec::NotFound,
            ScanError::NotADirectory => ScanErrorSpec::NotADirectory,
            ScanError::Io(cause) => ScanErrorSpec::Io(cause@),
        }
    }
}

/// What a run hands to the process: the exit code and the text for each of
/// the two output streams.
#[derive(Debug)]
pub struct Outcome {
    pub code: i32,
    pub stdout: String,
    pub stderr: String,
}

/// An outcome as a mathematical value.
pub struct OutcomeSpec {
    pub code: int,
    pub stdout: Seq<char>,
    pub stderr: Seq<char>,
}

impl View for Outcome {
    type V = OutcomeSpec;

    open spec fn view(&self) -> OutcomeSpec {
        OutcomeSpec { code: self.code as int, stdout: self.stdout@, stderr: self.stderr@ }
    }
}

/// Whether the file's content could be had, so that its lines can be
/// counted.
pub open spec fn readable(f: SourceFileSpec) -> bool {
    f.content is Ok
}

/// Whether a readable file is left out: only text files are wanted and its
/// content is of another category.
pub open spec fn excluded(f: SourceFileSpec, textonly: bool) -> bool {
    readable(f) && textonly && file_category(f.content->Ok_0) != text_category()
}

/// Whether the file gets a row: it is readable and not left out.
pub open spec fn listed(f: SourceFileSpec, textonly: bool) -> bool {
    readable(f) && !excluded(f, textonly)
}

/// The row of a readable file: the final segment of its path and the number
/// of lines of its content.
pub open spec fn row_of(f: SourceFileSpec) -> Row {
    Row { name: final_segment(f.path), lines: line_count(f.content->Ok_0) }
}

/// The rows of the files that get one, in the order of the files.
pub open spec fn collected(files: Seq<SourceFileSpec>, textonly: bool) -> Seq<Row> {
    files.filter(|f: SourceFileSpec| listed(f, textonly)).map_values(|f: SourceFileSpec| row_of(f))
}

/// How many of the files are readable.
pub open spec fn readable_count(files: Seq<SourceFileSpec>) -> nat {
    files.filter(|f: SourceFileSpec| readable(f)).len()
}

/// How many of the files are readable and left out.
pub open spec fn excluded_count(files: Seq<SourceFileSpec>, textonly: bool) -> nat {
    files.filter(|f: SourceFileSpec| excluded(f, textonly)).len()
}

/// The line that says that a file was skipped, and why.
pub open spec fn warning(path: Seq<char>, cause: Seq<char>) -> Seq<char> {
    "WARN! Could not open file: "@ + path + ":\n"@ + cause + "\n"@
}

/// The warnings for the files that could not be read, in the order of the
/// files.
pub open spec fn warnings(files: Seq<SourceFileSpec>) -> Seq<char>
    decreases files.len(),
{
    if files.len() == 0 {
        Seq::empty()
    } else {
        let f = files.last();
        warnings(files.drop_last()) + match f.content {
            Ok(_) => Seq::empty(),
            Err(cause) => warning(f.path, cause),
        }
    }
}

/// One line of the table: the name and the count, each left-aligned in its
/// column.
pub open spec fn row_text(r: Row) -> Seq<char> {
    left_aligned(r.name, NAME_WIDTH as nat) + " "@ + left_aligned(
        decimal(r.lines),
        COUNT_WIDTH as nat,
    ) + "\n"@
}

/// The lines of the table for `rows`, in their order.
pub open spec fn rows_text(rows: Seq<Row>) -> Seq<char>
    decreases rows.len(),
{
    if rows.len() == 0 {
        Seq::empty()
    } else {
        rows_text(rows.drop_last()) + row_text(rows.last())
    }
}

/// What stands above the rows: the directory, the column titles and a rule.
pub open spec fn heading(directory: Seq<char>) -> Seq<char> {
    directory + ":\n"@ + left_aligned("Filename"@, NAME_WIDTH as nat) + " "@ + left_aligned(
        "Lines"@,
        COUNT_WIDTH as nat,
    ) + "\n"@ + repeated("-"@, RULE_WIDTH as nat) + "\n"@
}

/// The printed report: the heading and one line for each row.
pub open spec fn table(directory: Seq<char>, rows: Seq<Row>) -> Seq<char> {
    heading(directory) + rows_text(rows)
}

/// The files of a target that was listed, and the error of one that was
/// not.
pub open spec fn scanned(target: TargetSpec) -> Result<Seq<SourceFileSpec>, ScanErrorSpec> {
    match target {
        TargetSpec::Missing => Err(ScanErrorSpec::NotFound),
        TargetSpec::NotDirectory => Err(ScanErrorSpec::NotADirectory),
        TargetSpec::Unreadable(cause) => Err(ScanErrorSpec::Io(cause)),
        TargetSpec::Listed(files) => Ok(files),
    }
}

/// The line that reports why `directory` could not be listed.
pub open spec fn error_text(directory: Seq<char>, error: ScanErrorSpec) -> Seq<char> {
    match error {
        ScanErrorSpec::NotFound => "ERROR: Directory '"@ + directory
            + "' does not exist. Exiting.\n"@,
        ScanErrorSpec::NotADirectory => "ERROR: '"@ + directory
            + "' is not a directory. Exiting.\n"@,
        ScanErrorSpec::Io(cause) => "ERROR: Could not open directory '"@ + directory + "':\n"@
            + cause + "\n"@,
    }
}

/// The line that reports that `directory` holds no files.
pub open spec fn nothing_found(directory: Seq<char>) -> Seq<char> {
    "No files found in directory '"@ + directory + "'. Exiting.\n"@
}

/// The rows of the report: those of the files that get one, in order.
pub open spec fn report_rows(files: Seq<SourceFileSpec>, descend: bool, textonly: bool) -> Seq<
    Row,
> {
    sorted(collected(files, textonly), descend)
}

/// What a run does with a target. A target that could not be listed gives
/// an error line and a failure code, and no report. A directory without
/// files gives a notice. Any other gives the report, and a warning for
/// each file that could not be read.
pub open spec fn outcome(
    directory: Seq<char>,
    target: TargetSpec,
    descend: bool,
    textonly: bool,
) -> OutcomeSpec {
    match scanned(target) {
        Err(error) => OutcomeSpec {
            code: EXIT_FAILURE as int,
            stdout: Seq::empty(),
            stderr: error_text(directory, error),
        },
        Ok(files) => if files.len() == 0 {
            OutcomeSpec {
                code: EXIT_OK as int,
                stdout: nothing_found(directory),
                stderr: Seq::empty(),
            }
        } else {
            OutcomeSpec {
                code: EXIT_OK as int,
                stdout: table(directory, report_rows(files, descend, textonly)),
                stderr: warnings(files),
            }
        },
    }
}

/// There are as many rows as files that could be read, less those left out
/// for not being text.
pub proof fn lemma_row_count(files: Seq<SourceFileSpec>, textonly: bool)
    ensures
        collected(files, textonly).len() == readable_count(files) - excluded_count(
            files,
            textonly,
        ),
        !textonly ==> excluded_count(files, textonly) == 0,
    decreases files.len(),
{
    reveal(Seq::filter);
    if files.len() > 0 {
        lemma_row_count(files.drop_last(), textonly);
    }
}

/// The report has one row for each file that could be read, less those
/// left out for not being text.
pub proof fn lemma_report_row_count(files: Seq<SourceFileSpec>, descend: bool, textonly: bool)
    ensures
        report_rows(files, descend, textonly).len() == readable_count(files) - excluded_count(
            files,
            textonly,
        ),
{
    lemma_row_count(files, textonly);
    lemma_sorted_permutes(collected(files, textonly), descend);
}

/// Of two neighbouring rows of the report the first has at most as many
/// lines as the second in ascending order, and at least as many in
/// descending order.
pub proof fn lemma_report_neighbours(
    files: Seq<SourceFileSpec>,
    descend: bool,
    textonly: bool,
    i: int,
)
    requires
        0 <= i,
        i + 1 < report_rows(files, descend, textonly).len(),
    ensures
        !descend ==> report_rows(files, descend, textonly)[i].lines <= report_rows(
            files,
            descend,
            textonly,
        )[i + 1].lines,
        descend ==> report_rows(files, descend, textonly)[i].lines >= report_rows(
            files,
            descend,
            textonly,
        )[i + 1].lines,
{
    lemma_sorted_permutes(collected(files, textonly), descend);
    lemma_sorted_neighbours(collected(files, textonly), descend, i);
}

/// A run is determined by what it is given: targets that were found in the
/// same state give the same outcome under the same directory name and
/// flags.
pub proof fn lemma_same_state_same_outcome(
    directory: &str,
    first: Target,
    second: Target,
    descend: bool,
    textonly: bool,
    a: Outcome,
    b: Outcome,
)
    requires
        first@ == second@,
        a@ == outcome(directory@, first@, descend, textonly),
        b@ == outcome(directory@, second@, descend, textonly),
    ensures
        a@ == b@,
{
}

/// A target that could not be listed gives the failure code and an error
/// line that names the directory, and prints no report.
pub proof fn lemma_failure_prints_no_report(
    directory: Seq<char>,
    target: TargetSpec,
    descend: bool,
    textonly: bool,
)
    requires
        !(target is Listed),
    ensures
        outcome(directory, target, descend, textonly).code == EXIT_FAILURE,
        outcome(directory, target, descend, textonly).stdout.len() == 0,
        exists|head: Seq<char>, tail: Seq<char>|
            outcome(directory, target, descend, textonly).stderr == head + directory + tail,
{
    let text = outcome(directory, target, descend, textonly).stderr;
    match target {
        TargetSpec::Missing => {
            assert(text == "ERROR: Directory '"@ + directory + "' does not exist. Exiting.\n"@);
        },
        TargetSpec::NotDirectory => {
            assert(text == "ERROR: '"@ + directory + "' is not a directory. Exiting.\n"@);
        },
        TargetSpec::Unreadable(cause) => {
            let head = "ERROR: Could not open directory '"@;
            let tail = "':\n"@ + cause + "\n"@;
            assert(head + directory + "':\n"@ + cause =~= head + directory + ("':\n"@ + cause));
            assert(text =~= head + directory + tail);
        },
        TargetSpec::Listed(_) => {},
    }
}

/// A directory that was listed never gives the failure code, whatever its
/// files are. One without files gives the notice and nothing else.
pub proof fn lemma_listed_succeeds(
    directory: Seq<char>,
    files: Seq<SourceFileSpec>,
    descend: bool,
    textonly: bool,
)
    ensures
        outcome(directory, TargetSpec::Listed(files), descend, textonly).code == EXIT_OK,
        files.len() == 0 ==> outcome(directory, TargetSpec::Listed(files), descend, textonly)
            == (OutcomeSpec {
            code: EXIT_OK as int,
            stdout: nothing_found(directory),
            stderr: Seq::empty(),
        }),
{
}

/// The records of the files that get a row, in the order of the files.
///
/// With `textonly` the signature detector is asked, which needs machine
/// words of 64 bits.
pub fn collect(files: &Vec<SourceFile>, textonly: bool) -> (records: Vec<Filelines>)
    requires
        textonly ==> usize::BITS == 64,
    ensures
        rows_of(records@) == collected(files_of(files@), textonly),
{
    let ghost all = files_of(files@);
    let mut records: Vec<Filelines> = Vec::new();
    let mut i: usize = 0;
    proof {
        reveal(Seq::filter);
        assert(rows_of(records@) =~= collected(all.take(0), textonly));
    }
    while i < files.len()
        invariant
            i <= files.len(),
            all == files_of(files@),
            textonly ==> usize::BITS == 64,
            rows_of(records@) == collected(all.take(i as int), textonly),
        decreases files.len() - i,
    {
        let file = &files[i];
        let ghost before = rows_of(records@);
        proof {
            let seen = all.take(i as int);
            assert(all.take(i + 1) =~= seen.push(file@));
            seen.lemma_filter_push(file@, |f: SourceFileSpec| listed(f, textonly));
        }
        match &file.content {
            Ok(bytes) => {
                let lines = linecount(bytes.as_slice());
                let wanted = !textonly || is_text(getfiletype(bytes.as_slice()).as_str());
                if wanted {
                    records.push(Filelines::new(file.path.as_str(), lines));
                    assert(rows_of(records@) =~= before.push(row_of(file@)));
                    assert(collected(all.take(i + 1), textonly) =~= before.push(row_of(file@)));
                }
            },
            Err(_) => {},
        }
        i = i + 1;
    }
    assert(all.take(i as int) =~= all);
    records
}

/// The warnings for the files that could not be read.
pub fn skipped(files: &Vec<SourceFile>) -> (text: String)
    ensures
        text@ == warnings(files_of(files@)),
{
    let ghost all = files_of(files@);
    let mut text = String::new();
    let mut i: usize = 0;
    assert(text@ =~= warnings(all.take(0)));
    while i < files.len()
        invariant
            i <= files.len(),
            all == files_of(files@),
            text@ == warnings(all.take(i as int)),
        decreases files.len() - i,
    {
        let file = &files[i];
        let ghost before = text@;
        assert(all.take(i + 1).drop_last() =~= all.take(i as int));
        assert(all.take(i + 1).last() == file@);
        match &file.content {
            Ok(_) => {
                assert(text@ =~= before + Seq::<char>::empty());
            },
            Err(cause) => {
                text.append("WARN! Could not open file: ");
                text.append(file.path.as_str());
                text.append(":\n");
                text.append(cause.as_str());
                text.append("\n");
                assert(text@ =~= before + warning(file.path@, cause@));
            },
        }
        i = i + 1;
    }
    assert(all.take(i as int) =~= all);
    text
}

/// The printed report for `rows` under the heading for `directory`.
pub fn render(directory: &str, rows: &Vec<Filelines>) -> (text: String)
    ensures
        text@ == table(directory@, rows_of(rows@)),
{
    let ghost all = rows_of(rows@);
    let mut text = String::new();
    text.append(directory);
    text.append(":\n");
    append_left_aligned(&mut text, "Filename", NAME_WIDTH);
    text.append(" ");
    append_left_aligned(&mut text, "Lines", COUNT_WIDTH);
    text.append("\n");
    append_repeated(&mut text, "-", RULE_WIDTH);
    text.append("\n");
    assert(text@ =~= heading(directory@));
    let mut i: usize = 0;
    assert(text@ =~= heading(directory@) + rows_text(all.take(0)));
    while i < rows.len()
        invariant
            i <= rows.len(),
            all == rows_of(rows@),
            text@ == heading(directory@) + rows_text(all.take(i as int)),
        decreases rows.len() - i,
    {
        let record = &rows[i];
        let ghost before = text@;
        assert(all.take(i + 1).drop_last() =~= all.take(i as int));
        assert(all.take(i + 1).last() == record@);
        append_left_aligned(&mut text, record.name(), NAME_WIDTH);
        text.append(" ");
        let count = decimal_string(record.lines());
        append_left_aligned(&mut text, count.as_str(), COUNT_WIDTH);
        text.append("\n");
        assert(text@ =~= before + row_text(record@));
        assert(text@ =~= heading(directory@) + rows_text(all.take(i + 1)));
        i = i + 1;
    }
    assert(all.take(i as int) =~= all);
    text
}

/// The files of a target that was listed, or the error of one that was not.
pub fn files_in(target: &Target) -> (found: Result<&Vec<SourceFile>, ScanError>)
    ensures
        scanned(target@) == match found {
            Ok(files) => Ok(files_of(files@)),
            Err(error) => Err(error@),
        },
{
    match target {
        Target::Missing => Err(ScanError::NotFound),
        Target::NotDirectory => Err(ScanError::NotADirectory),
        Target::Unreadable(cause) => Err(ScanError::Io(cause.clone())),
        Target::Listed(files) => Ok(files),
    }
}

/// The line that reports why `directory` could not be listed.
pub fn describe(directory: &str, error: &ScanError) -> (text: String)
    ensures
        text@ == error_text(directory@, error@),
{
    let mut text = String::new();
    match error {
        ScanError::NotFound => {
            text.append("ERROR: Directory '");
            text.append(directory);
            text.append("' does not exist. Exiting.\n");
        },
        ScanError::NotADirectory => {
            text.append("ERROR: '");
            text.append(directory);
            text.append("' is not a directory. Exiting.\n");
        },
        ScanError::Io(cause) => {
            text.append("ERROR: Could not open directory '");
            text.append(directory);
            text.append("':\n");
            text.append(cause.as_str());
            text.append("\n");
        },
    }
    assert(text@ =~= error_text(directory@, error@));
    text
}

/// The records of the report for `files`: one for each file that could be
/// read and is not left out, ordered by line count.
///
/// With `textonly` the signature detector is asked, which needs machine
/// words of 64 bits.
pub fn report(files: &Vec<SourceFile>, descend: bool, textonly: bool) -> (rows: Vec<Filelines>)
    requires
        textonly ==> usize::BITS == 64,
    ensures
        rows_of(rows@) == report_rows(files_of(files@), descend, textonly),
        in_order(rows_of(rows@), descend),
        rows@.len() == readable_count(files_of(files@)) - excluded_count(
            files_of(files@),
            textonly,
        ),
{
    proof {
        lemma_row_count(files_of(files@), textonly);
    }
    let records = collect(files, textonly);
    assert(records@.len() == rows_of(records@).len());
    sort_records(records, descend)
}

/// Runs the tool on what was found at `directory`: the exit code and what
/// goes to the two output streams.
///
/// With `textonly` the signature detector is asked, which needs machine
/// words of 64 bits.
pub fn run(directory: &str, target: &Target, descend: bool, textonly: bool) -> (out: Outcome)
    requires
        textonly ==> usize::BITS == 64,
    ensures
        out@ == outcome(directory@, target@, descend, textonly),
{
    match files_in(target) {
        Err(error) => Outcome {
            code: EXIT_FAILURE,
            stdout: String::new(),
            stderr: describe(directory, &error),
        },
        Ok(files) => {
            if files.len() == 0 {
                let mut notice = String::new();
                notice.append("No files found in directory '");
                notice.append(directory);
                notice.append("'. Exiting.\n");
                assert(notice@ =~= nothing_found(directory@));
                Outcome { code: EXIT_OK, stdout: notice, stderr: String::new() }
            } else {
                let rows = report(files, descend, textonly);
                Outcome {
                    code: EXIT_OK,
                    stdout: render(directory, &rows),
                    stderr: skipped(files),
                }
            }
        },
    }
}

} // verus!
