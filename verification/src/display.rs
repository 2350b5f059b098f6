//! How change records read in a log or on a terminal.

use vstd::prelude::*;
use vstd::string::*;
use vstd::utf8::encode_utf8;
use crate::clock::{calendar_reaches, local_minute};
use crate::entry::{EntryView, GitFileEntry, RepoEntry, RepoEntryView};
use crate::kind::{ChangeKind, FileKind};
use crate::text::{chars_of, decimal, decimal_text, digit, digit_text, line_count, line_count_exec};

verus! {

/// The three digits of a value below a thousand, zeros included.
pub open spec fn three_digits(n: nat) -> Seq<char> {
    seq![digit(n / 100), digit((n / 10) % 10), digit(n % 10)]
}

/// The decimal numeral of `n` with a comma before every group of three
/// digits but the first: `1234567` reads `1,234,567`.
pub open spec fn with_commas(n: nat) -> Seq<char>
    decreases n,
{
    if n < 1000 {
        decimal(n)
    } else {
        with_commas(n / 1000) + seq![','] + three_digits(n % 1000)
    }
}

/// The label of a file kind, seven characters wide.
pub open spec fn kind_label(kind: FileKind) -> Seq<char> {
    match kind {
        FileKind::Group => "[group]"@,
        FileKind::Markdown => "[md]   "@,
        FileKind::Other => "[-]    "@,
    }
}

/// The mark of a change.
pub open spec fn change_mark(kind: ChangeKind) -> Seq<char> {
    match kind {
        ChangeKind::Added => "+"@,
        ChangeKind::Deleted => "-"@,
        ChangeKind::Modified => "~"@,
    }
}

/// The line of a record whose time reads `stamp`: label, mark, path, and
/// the time behind an `@`.
pub open spec fn record_line(record: RepoEntryView, stamp: Seq<char>) -> Seq<char> {
    kind_label(record.file_kind) + " "@ + change_mark(record.change_kind) + " "@ + record.path
        + " @ "@ + stamp
}

/// The size of a text in a line: its lines and its bytes in UTF-8.
pub open spec fn size_note(content: Seq<char>) -> Seq<char> {
    "  ("@ + decimal(line_count(content)) + " lines, "@ + with_commas(encode_utf8(content).len())
        + " bytes)"@
}

/// The line of an entry; `stamp` is how the time of an added article reads.
pub open spec fn entry_line(entry: EntryView, stamp: Seq<char>) -> Seq<char> {
    match entry {
        EntryView::GroupAdded { group, content } => "[group] + "@ + group + "/.group.toml"@
            + size_note(content),
        EntryView::GroupRemoved { group } => "[group] - "@ + group + "/"@,
        EntryView::ArticleAdded { group, name, timestamp, content } => " [file] + "@ + group
            + "/"@ + name + " @ "@ + stamp + size_note(content),
        EntryView::ArticleRemoved { group, name } => " [file] - "@ + group + "/"@ + name,
    }
}

/// The first `n` of `lines`, each but the first behind a line feed.
pub open spec fn joined_lines(lines: Seq<Seq<char>>, n: int) -> Seq<char>
    decreases n,
{
    if n <= 0 {
        Seq::empty()
    } else if n == 1 {
        lines[0]
    } else {
        joined_lines(lines, n - 1) + "\n"@ + lines[n - 1]
    }
}

/// The summary made of `lines`: one to a line, or `No entries` for none.
pub open spec fn summary_text(lines: Seq<Seq<char>>) -> Seq<char> {
    if lines.len() == 0 {
        "No entries"@
    } else {
        joined_lines(lines, lines.len() as int)
    }
}

/// Whether `text` is a summary of `records` for some reading of their times.
pub open spec fn is_summary_of(records: Seq<RepoEntryView>, text: Seq<char>) -> bool {
    exists|stamps: Seq<Seq<char>>|
        stamps.len() == records.len() && text == summary_text(
            Seq::new(records.len(), |i: int| record_line(records[i], stamps[i])),
        )
}

/// Whether the calendar reaches the time of every record.
pub open spec fn all_within_reach(records: Seq<RepoEntryView>) -> bool {
    forall|i: int| 0 <= i < records.len() ==> calendar_reaches((#[trigger] records[i]).timestamp)
}

/// The text of three digits.
fn three_digits_text(n: usize) -> (text: String)
    requires
        n < 1000,
    ensures
        text@ == three_digits(n as nat),
{
    let mut text = String::from_str(digit_text(n / 100));
    text.append(digit_text((n / 10) % 10));
    text.append(digit_text(n % 10));
    assert(text@ =~= three_digits(n as nat));
    text
}

/// The decimal numeral of `n` with a comma between groups of three digits.
pub fn format_with_commas(n: usize) -> (text: String)
    ensures
        text@ == with_commas(n as nat),
    decreases n,
{
    if n < 1000 {
        decimal_text(n)
    } else {
        let mut text = format_with_commas(n / 1000);
        proof {
            reveal_strlit(",");
            assert(","@ =~= seq![',']);
        }
        text.append(",");
        text.append(three_digits_text(n % 1000).as_str());
        text
    }
}

/// The label of a file kind.
fn kind_label_text(kind: FileKind) -> (text: &'static str)
    ensures
        text@ == kind_label(kind),
{
    match kind {
        FileKind::Group => "[group]",
        FileKind::Markdown => "[md]   ",
        FileKind::Other => "[-]    ",
    }
}

/// The mark of a change.
fn change_mark_text(kind: ChangeKind) -> (text: &'static str)
    ensures
        text@ == change_mark(kind),
{
    match kind {
        ChangeKind::Added => "+",
        ChangeKind::Deleted => "-",
        ChangeKind::Modified => "~",
    }
}

/// The size of a text as a line notes it.
fn size_note_text(content: &str) -> (text: String)
    ensures
        text@ == size_note(content@),
{
    let chars = chars_of(content);
    let mut text = String::from_str("  (");
    text.append(decimal_text(line_count_exec(&chars)).as_str());
    text.append(" lines, ");
    text.append(format_with_commas(content.as_bytes().len()).as_str());
    text.append(" bytes)");
    text
}

impl RepoEntry {
    /// The line of the record, with its time reading `stamp`.
    pub fn display_with(&self, stamp: &str) -> (line: String)
        ensures
            line@ == record_line(self@, stamp@),
    {
        let mut line = String::from_str(kind_label_text(self.file_kind()));
        line.append(" ");
        line.append(change_mark_text(self.change_kind()));
        line.append(" ");
        line.append(self.path());
        line.append(" @ ");
        line.append(stamp);
        line
    }

    /// The line of the record, with its time read off the local calendar;
    /// `None` where the calendar does not reach that time.
    pub fn display(&self) -> (line: Option<String>)
        ensures
            line is Some <==> calendar_reaches(self@.timestamp),
            match line {
                Some(text) => exists|stamp: Seq<char>| text@ == record_line(self@, stamp),
                None => true,
            },
    {
        match local_minute(self.timestamp()) {
            Some(stamp) => {
                let text = self.display_with(stamp.as_str());
                assert(text@ == record_line(self@, stamp@));
                Some(text)
            },
            None => None,
        }
    }
}

impl GitFileEntry {
    /// The line of the entry; `stamp` is how the time of an added article
    /// reads.
    pub fn display_with(&self, stamp: &str) -> (line: String)
        ensures
            line@ == entry_line(self@, stamp@),
    {
        match self {
            GitFileEntry::GroupAdded { group, content } => {
                let mut line = String::from_str("[group] + ");
                line.append(group.as_str());
                line.append("/.group.toml");
                line.append(size_note_text(content.as_str()).as_str());
                line
            },
            GitFileEntry::GroupRemoved { group } => {
                let mut line = String::from_str("[group] - ");
                line.append(group.as_str());
                line.append("/");
                line
            },
            GitFileEntry::ArticleAdded { group, name, timestamp, content } => {
                let mut line = String::from_str(" [file] + ");
                line.append(group.as_str());
                line.append("/");
                line.append(name.as_str());
                line.append(" @ ");
                line.append(stamp);
                line.append(size_note_text(content.as_str()).as_str());
                line
            },
            GitFileEntry::ArticleRemoved { group, name } => {
                let mut line = String::from_str(" [file] - ");
                line.append(group.as_str());
                line.append("/");
                line.append(name.as_str());
                line
            },
        }
    }

    /// The line of the entry, with the time of an added article read off
    /// the local calendar; `None` where the calendar does not reach it.
    pub fn display(&self) -> (line: Option<String>)
        ensures
            line is None <==> (self@ matches EntryView::ArticleAdded { timestamp, .. }
                && !calendar_reaches(timestamp)),
            match line {
                Some(text) => exists|stamp: Seq<char>| text@ == entry_line(self@, stamp),
                None => true,
            },
    {
        match self {
            GitFileEntry::ArticleAdded { timestamp, .. } => match local_minute(*timestamp) {
                Some(stamp) => {
                    let text = self.display_with(stamp.as_str());
                    assert(text@ == entry_line(self@, stamp@));
                    Some(text)
                },
                None => None,
            },
            _ => {
                let text = self.display_with("");
                assert(text@ == entry_line(self@, ""@));
                Some(text)
            },
        }
    }
}

/// The summary made of `lines`: one to a line, or `No entries` for none.
pub fn summary_of(lines: &Vec<String>) -> (text: String)
    ensures
        text@ == summary_text(lines.deep_view()),
{
    if lines.len() == 0 {
        return String::from_str("No entries");
    }
    let ghost views = lines.deep_view();
    let mut text = lines[0].clone();
    assert(text@ == views[0]);
    let mut i: usize = 1;
    while i < lines.len()
        invariant
            1 <= i <= lines.len(),
            views == lines.deep_view(),
            text@ == joined_lines(views, i as int),
        decreases lines.len() - i,
    {
        text.append("\n");
        text.append(lines[i].as_str());
        assert(views[i as int] == lines[i as int]@);
        i += 1;
    }
    text
}

/// A list of records that can be read as one text.
pub trait AsSummary {
    /// The records, one to a line, with their times read off the local
    /// calendar; `None` where the calendar does not reach one of them.
    fn as_summary(&self) -> Option<String>;
}

impl AsSummary for Vec<RepoEntry> {
    fn as_summary(&self) -> (text: Option<String>)
        ensures
            text is Some <==> all_within_reach(self.deep_view()),
            match text {
                Some(t) => is_summary_of(self.deep_view(), t@),
                None => true,
            },
    {
        let ghost records = self.deep_view();
        let mut lines: Vec<String> = Vec::new();
        let ghost mut stamps: Seq<Seq<char>> = Seq::empty();
        let mut i: usize = 0;
        while i < self.len()
            invariant
                i <= self.len(),
                records == self.deep_view(),
                lines.len() == i,
                stamps.len() == i,
                forall|j: int| 0 <= j < i ==> calendar_reaches((#[trigger] records[j]).timestamp),
                forall|j: int|
                    0 <= j < i ==> (#[trigger] lines@[j])@ == record_line(records[j], stamps[j]),
            decreases self.len() - i,
        {
            match local_minute(self[i].timestamp()) {
                Some(stamp) => {
                    let line = self[i].display_with(stamp.as_str());
                    assert(records[i as int] == self[i as int]@);
                    lines.push(line);
                    proof {
                        stamps = stamps.push(stamp@);
                    }
                },
                None => {
                    assert(records[i as int] == self[i as int]@);
                    assert(!calendar_reaches(records[i as int].timestamp));
                    return None;
                },
            }
            i += 1;
        }
        let text = summary_of(&lines);
        proof {
            assert(lines.deep_view() =~= Seq::new(
                records.len(),
                |j: int| record_line(records[j], stamps[j]),
            ));
        }
        Some(text)
    }
}

} // verus!
