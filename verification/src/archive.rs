use vstd::prelude::*;

use crate::date::{date_text, CalendarDate};
use crate::text::{decimal_chars, lemma_decimal_chars_digits, lemma_decimal_chars_injective, push_char, push_decimal, push_str};

verus! {

/// The two kinds of archive the tool writes.
#[derive(Clone, Copy, Debug, PartialEq, Eq, Structural)]
pub enum ArchiveKind {
    Backup,
    Export,
}

/// Why an archive was not published.
#[derive(Clone, Copy, Debug, PartialEq, Eq, Structural)]
pub enum ArchiveError {
    /// The history file did not have, while it was read, the size it had when opened.
    SourceChanged { kind: ArchiveKind, expected: u64, read: u64 },
    /// An export found no `EXTENDED_HISTORY` header at all.
    NoTimestamps,
    /// Every candidate archive name was taken.
    NoUniqueName,
}

/// `backup` or `export`.
pub open spec fn kind_word(kind: ArchiveKind) -> Seq<char> {
    match kind {
        ArchiveKind::Backup => "backup"@,
        ArchiveKind::Export => "export"@,
    }
}

/// The text of an error; `path` is the history file, or for `NoUniqueName`
/// the directory of the archives.
pub open spec fn archive_error_text(e: ArchiveError, path: Seq<char>) -> Seq<char> {
    match e {
        ArchiveError::SourceChanged { kind, expected, read } => path
            + " changed while it was being read; no "@ + kind_word(kind)
            + " was published (expected "@ + decimal_chars(expected as nat) + " bytes, read "@
            + decimal_chars(read as nat) + ")"@,
        ArchiveError::NoTimestamps => "no EXTENDED_HISTORY timestamps were found in "@ + path
            + "; no export was published"@,
        ArchiveError::NoUniqueName => "could not choose a unique archive name in "@ + path,
    }
}

impl ArchiveError {
    /// The message of the error (see `archive_error_text`).
    pub fn message(&self, path: &str) -> (s: String)
        ensures
            s@ == archive_error_text(*self, path@),
    {
        let mut s = String::new();
        match *self {
            ArchiveError::SourceChanged { kind, expected, read } => {
                push_str(&mut s, path);
                push_str(&mut s, " changed while it was being read; no ");
                match kind {
                    ArchiveKind::Backup => push_str(&mut s, "backup"),
                    ArchiveKind::Export => push_str(&mut s, "export"),
                }
                push_str(&mut s, " was published (expected ");
                push_decimal(&mut s, expected);
                push_str(&mut s, " bytes, read ");
                push_decimal(&mut s, read);
                push_str(&mut s, ")");
            },
            ArchiveError::NoTimestamps => {
                push_str(&mut s, "no EXTENDED_HISTORY timestamps were found in ");
                push_str(&mut s, path);
                push_str(&mut s, "; no export was published");
            },
            ArchiveError::NoUniqueName => {
                push_str(&mut s, "could not choose a unique archive name in ");
                push_str(&mut s, path);
            },
        }
        assert(s@ =~= archive_error_text(*self, path@));
        s
    }
}

/// An archive is published only when exactly the size the history file had
/// when it was opened has been read.
pub fn verify_complete_read(kind: ArchiveKind, expected: u64, read: u64) -> (r: Result<
    (),
    ArchiveError,
>)
    ensures
        read == expected ==> r == Ok::<(), ArchiveError>(()),
        read != expected ==> r == Err::<(), ArchiveError>(
            ArchiveError::SourceChanged { kind, expected, read },
        ),
{
    if read != expected {
        Err(ArchiveError::SourceChanged { kind, expected, read })
    } else {
        Ok(())
    }
}

/// What a successful run produced.
#[derive(Debug)]
pub enum ArchiveReport {
    Backup { output: String, source_bytes: u64 },
    Export {
        output: String,
        target_date: CalendarDate,
        selected_entries: u64,
        timestamped_entries: u64,
        source_bytes: u64,
    },
}

/// The path of the archive a report describes.
pub open spec fn report_output(r: ArchiveReport) -> Seq<char> {
    match r {
        ArchiveReport::Backup { output, .. } => output@,
        ArchiveReport::Export { output, .. } => output@,
    }
}

/// The log line body of a report; `source` is the history file. It names
/// files, the date and counts, never a command of the history.
pub open spec fn report_log_text(r: ArchiveReport, source: Seq<char>) -> Seq<char> {
    match r {
        ArchiveReport::Backup { output, source_bytes } => "source="@ + source + " output="@
            + output@ + " source_bytes="@ + decimal_chars(source_bytes as nat),
        ArchiveReport::Export {
            output,
            target_date,
            selected_entries,
            timestamped_entries,
            source_bytes,
        } => "source="@ + source + " output="@ + output@ + " date="@ + date_text(target_date)
            + " selected_entries="@ + decimal_chars(selected_entries as nat)
            + " timestamped_entries="@ + decimal_chars(timestamped_entries as nat)
            + " source_bytes="@ + decimal_chars(source_bytes as nat),
    }
}

/// The lines printed for a report.
pub open spec fn report_text_lines(r: ArchiveReport) -> Seq<Seq<char>> {
    match r {
        ArchiveReport::Backup { output, source_bytes } => seq![
            "backup created: "@ + output@,
            "source bytes: "@ + decimal_chars(source_bytes as nat),
        ],
        ArchiveReport::Export {
            output,
            target_date,
            selected_entries,
            timestamped_entries,
            source_bytes,
        } => seq![
            "export created: "@ + output@,
            "date: "@ + date_text(target_date),
            "entries exported: "@ + decimal_chars(selected_entries as nat),
            "timestamped entries scanned: "@ + decimal_chars(timestamped_entries as nat),
            "source bytes scanned: "@ + decimal_chars(source_bytes as nat),
        ],
    }
}

fn labelled_decimal(label: &str, n: u64) -> (s: String)
    ensures
        s@ == label@ + decimal_chars(n as nat),
{
    let mut s = String::new();
    push_str(&mut s, label);
    push_decimal(&mut s, n);
    assert(s@ =~= label@ + decimal_chars(n as nat));
    s
}

fn labelled_text(label: &str, t: &str) -> (s: String)
    ensures
        s@ == label@ + t@,
{
    let mut s = String::new();
    push_str(&mut s, label);
    push_str(&mut s, t);
    assert(s@ =~= label@ + t@);
    s
}

impl ArchiveReport {
    /// The path of the archive that was created.
    pub fn output_path(&self) -> (p: &str)
        ensures
            p@ == report_output(*self),
    {
        match self {
            ArchiveReport::Backup { output, .. } => output.as_str(),
            ArchiveReport::Export { output, .. } => output.as_str(),
        }
    }

    /// The body of the log line for this report (see `report_log_text`).
    pub fn log_message(&self, source: &str) -> (s: String)
        ensures
            s@ == report_log_text(*self, source@),
    {
        let mut s = String::new();
        push_str(&mut s, "source=");
        push_str(&mut s, source);
        push_str(&mut s, " output=");
        match self {
            ArchiveReport::Backup { output, source_bytes } => {
                push_str(&mut s, output.as_str());
                push_str(&mut s, " source_bytes=");
                push_decimal(&mut s, *source_bytes);
            },
            ArchiveReport::Export {
                output,
                target_date,
                selected_entries,
                timestamped_entries,
                source_bytes,
            } => {
                push_str(&mut s, output.as_str());
                push_str(&mut s, " date=");
                target_date.push_text(&mut s);
                push_str(&mut s, " selected_entries=");
                push_decimal(&mut s, *selected_entries);
                push_str(&mut s, " timestamped_entries=");
                push_decimal(&mut s, *timestamped_entries);
                push_str(&mut s, " source_bytes=");
                push_decimal(&mut s, *source_bytes);
            },
        }
        assert(s@ =~= report_log_text(*self, source@));
        s
    }

    /// The lines to print for this report (see `report_text_lines`).
    pub fn report_lines(&self) -> (lines: Vec<String>)
        ensures
            lines@.len() == report_text_lines(*self).len(),
            forall|i: int| 0 <= i < lines@.len() ==> #[trigger] lines@[i]@ == report_text_lines(*self)[i],
    {
        let mut lines: Vec<String> = Vec::new();
        match self {
            ArchiveReport::Backup { output, source_bytes } => {
                lines.push(labelled_text("backup created: ", output.as_str()));
                lines.push(labelled_decimal("source bytes: ", *source_bytes));
            },
            ArchiveReport::Export {
                output,
                target_date,
                selected_entries,
                timestamped_entries,
                source_bytes,
            } => {
                lines.push(labelled_text("export created: ", output.as_str()));
                let mut date_line = String::new();
                push_str(&mut date_line, "date: ");
                target_date.push_text(&mut date_line);
                lines.push(date_line);
                lines.push(labelled_decimal("entries exported: ", *selected_entries));
                lines.push(labelled_decimal("timestamped entries scanned: ", *timestamped_entries));
                lines.push(labelled_decimal("source bytes scanned: ", *source_bytes));
            },
        }
        lines
    }
}

/// The stem of an archive name: a label, `_`, and the user's name or a default word.
pub open spec fn stem_text(label: Seq<char>, name: Option<Seq<char>>, default_word: Seq<char>) -> Seq<
    char,
> {
    match name {
        Some(n) => label + seq!['_'] + n,
        None => label + seq!['_'] + default_word,
    }
}

/// The stem of a backup archive: `<timestamp>_<name>`, or `<timestamp>_full`.
pub fn backup_stem(timestamp: &str, name: Option<&str>) -> (s: String)
    ensures
        s@ == stem_text(
            timestamp@,
            match name {
                Some(n) => Some(n@),
                None => None,
            },
            "full"@,
        ),
{
    let mut s = String::new();
    push_str(&mut s, timestamp);
    push_char(&mut s, '_');
    match name {
        Some(n) => push_str(&mut s, n),
        None => push_str(&mut s, "full"),
    }
    assert(s@ =~= stem_text(
        timestamp@,
        match name {
            Some(n) => Some(n@),
            None => None,
        },
        "full"@,
    ));
    s
}

/// The stem of an export archive: `<date>_<name>`, or `<date>_history`.
pub fn export_stem(date: &CalendarDate, name: Option<&str>) -> (s: String)
    ensures
        s@ == stem_text(
            date_text(*date),
            match name {
                Some(n) => Some(n@),
                None => None,
            },
            "history"@,
        ),
{
    let mut s = String::new();
    date.push_text(&mut s);
    push_char(&mut s, '_');
    match name {
        Some(n) => push_str(&mut s, n),
        None => push_str(&mut s, "history"),
    }
    assert(s@ =~= stem_text(
        date_text(*date),
        match name {
            Some(n) => Some(n@),
            None => None,
        },
        "history"@,
    ));
    s
}

/// The file name tried for an archive at attempt `sequence`:
/// `<stem>.zsh-history.gz` first, then `<stem>-<sequence>.zsh-history.gz`.
pub open spec fn archive_name_text(stem: Seq<char>, sequence: nat) -> Seq<char> {
    if sequence == 0 {
        stem + ".zsh-history.gz"@
    } else {
        stem + seq!['-'] + decimal_chars(sequence) + ".zsh-history.gz"@
    }
}

/// The file name tried for an archive at attempt `sequence` (see `archive_name_text`).
pub fn archive_file_name(stem: &str, sequence: u32) -> (s: String)
    ensures
        s@ == archive_name_text(stem@, sequence as nat),
{
    let mut s = String::new();
    push_str(&mut s, stem);
    if sequence != 0 {
        push_char(&mut s, '-');
        push_decimal(&mut s, sequence as u64);
    }
    push_str(&mut s, ".zsh-history.gz");
    assert(s@ =~= archive_name_text(stem@, sequence as nat));
    s
}

/// How many names an archive may try before giving up.
pub const PUBLISH_ATTEMPTS: u32 = 10000;

/// What came of trying to publish an archive under one name without replacing
/// an existing file.
#[derive(Clone, Copy, Debug, PartialEq, Eq, Structural)]
pub enum PublishAttempt {
    Published,
    NameTaken,
    Failed,
}

/// What to do after an attempt to publish.
#[derive(Clone, Copy, Debug, PartialEq, Eq, Structural)]
pub enum PublishDecision {
    /// The archive is published.
    Finished,
    /// Try again under the name of this attempt number.
    TryNext(u32),
    /// Stop with the error of the failed attempt.
    Abort,
    /// Every name was taken: stop with `ArchiveError::NoUniqueName`.
    GiveUp,
}

/// The decision after attempt `sequence` (counted from 0) came out as `attempt`:
/// a taken name leads to the next attempt until `PUBLISH_ATTEMPTS` names were
/// tried; an existing file is never replaced.
pub fn decide_after_attempt(sequence: u32, attempt: PublishAttempt) -> (d: PublishDecision)
    ensures
        attempt == PublishAttempt::Published ==> d == PublishDecision::Finished,
        attempt == PublishAttempt::Failed ==> d == PublishDecision::Abort,
        attempt == PublishAttempt::NameTaken ==> (if sequence + 1 < PUBLISH_ATTEMPTS {
            d == PublishDecision::TryNext((sequence + 1) as u32)
        } else {
            d == PublishDecision::GiveUp
        }),
{
    match attempt {
        PublishAttempt::Published => PublishDecision::Finished,
        PublishAttempt::Failed => PublishDecision::Abort,
        PublishAttempt::NameTaken => {
            if sequence < PUBLISH_ATTEMPTS - 1 {
                PublishDecision::TryNext(sequence + 1)
            } else {
                PublishDecision::GiveUp
            }
        },
    }
}

/// No two attempts of one archive try the same file name, so publishing
/// never competes with an archive written by an earlier attempt.
pub proof fn lemma_archive_names_distinct(stem: Seq<char>, a: nat, b: nat)
    requires
        a != b,
    ensures
        archive_name_text(stem, a) != archive_name_text(stem, b),
{
    let suffix = ".zsh-history.gz"@;
    lemma_decimal_chars_digits(a);
    lemma_decimal_chars_digits(b);
    if archive_name_text(stem, a) == archive_name_text(stem, b) {
        let na = archive_name_text(stem, a);
        if a != 0 && b != 0 {
            let da = decimal_chars(a);
            let db = decimal_chars(b);
            let nb = archive_name_text(stem, b);
            assert(na.len() == stem.len() + 1 + da.len() + suffix.len());
            assert(nb.len() == stem.len() + 1 + db.len() + suffix.len());
            assert(da.len() == db.len());
            let start: int = stem.len() as int + 1;
            assert(na.subrange(start, start + da.len()) =~= da);
            assert(archive_name_text(stem, b).subrange(start, start + db.len()) =~= db);
            lemma_decimal_chars_injective(a, b);
        } else {
            assert(archive_name_text(stem, a).len() != archive_name_text(stem, b).len());
        }
    }
}

} // verus!
