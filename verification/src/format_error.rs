use vstd::prelude::*;

use crate::color::{colored, TerminalColor};
use crate::common::SourceInfo;
use crate::text::{append_str, chars_of, lit, nat_decimal, push_char, line_pieces, regex_split, str_eq, u64_to_string, views};

verus! {

/// An error or a warning about a place in a file, with the lines of the file.
#[derive(Clone, Debug, PartialEq, Eq)]
pub struct Error {
    pub source_info: SourceInfo,
    pub description: String,
    pub fixme: String,
    pub lines: Vec<String>,
    pub filename: String,
    pub warning: bool,
    pub color: bool,
}

/// `n` copies of a character.
pub open spec fn repeat(c: char, n: nat) -> Seq<char> {
    Seq::new(n, |i: int| c)
}

/// Spaces in front of a text, up to `width` characters.
pub open spec fn pad_left(s: Seq<char>, width: nat) -> Seq<char> {
    if s.len() >= width { s } else { repeat(' ', (width - s.len()) as nat) + s }
}

/// A line with each tab replaced by four spaces.
pub open spec fn untabbed(s: Seq<char>) -> Seq<char>
    decreases s.len(),
{
    if s.len() == 0 {
        Seq::empty()
    } else {
        untabbed(s.drop_last()) + if s.last() == '\t' { repeat(' ', 4) } else { seq![s.last()] }
    }
}

/// The number of tabs in a text.
pub open spec fn tab_count(s: Seq<char>) -> nat
    decreases s.len(),
{
    if s.len() == 0 {
        0
    } else {
        tab_count(s.drop_last()) + if s.last() == '\t' { 1nat } else { 0nat }
    }
}

/// The width of the line numbers: two digits below a hundred lines, three below a
/// thousand, else four.
pub open spec fn number_width(n: nat) -> nat {
    if n < 100 { 2 } else if n < 1000 { 3 } else { 4 }
}

/// The lines of the fixme of an assert error, each under the margin.
pub open spec fn fixme_block(pieces: Seq<Seq<char>>, w: nat) -> Seq<char>
    decreases pieces.len(),
{
    if pieces.len() == 0 {
        Seq::empty()
    } else {
        fixme_block(pieces.drop_last(), w) + repeat(' ', w) + seq![' ', '|', ' ', ' ', ' '] + pieces.last() + seq!['\n']
    }
}

/// The kind of a report: `warning` or `error`, in colour when asked.
pub open spec fn kind_text(warning: bool, color: bool) -> Seq<char> {
    let k = if warning { "warning"@ } else { "error"@ };
    if !color {
        k
    } else if warning {
        colored(TerminalColor::Yellow, k)
    } else {
        colored(TerminalColor::Red, k)
    }
}

/// The first line of a report: the kind and the description.
pub open spec fn head_text(warning: bool, color: bool, description: Seq<char>) -> Seq<char> {
    kind_text(warning, color) + seq![':', ' '] + description + seq!['\n']
}

/// The first line of the report of an error.
pub open spec fn report_head(e: Error) -> Seq<char> {
    head_text(e.warning, e.color, e.description@)
}

/// The location line: the file, the line and the column.
pub open spec fn location_text(w: nat, filename: Seq<char>, si: SourceInfo) -> Seq<char> {
    repeat(' ', w) + seq!['-', '-', '>', ' '] + filename + seq![':'] + nat_decimal(si.start.line as nat)
        + seq![':'] + nat_decimal(si.start.column as nat) + seq!['\n']
}

/// The location line of a report, unless the file is the standard input (`-`).
pub open spec fn report_location(e: Error) -> Seq<char> {
    if e.filename@ != "-"@ {
        location_text(number_width(e.lines@.len()), e.filename@, e.source_info)
    } else {
        Seq::empty()
    }
}

/// An empty margin line.
pub open spec fn margin_line(w: nat) -> Seq<char> {
    repeat(' ', w) + seq![' ', '|', '\n']
}

/// The line of the file where the error is, numbered, with its tabs as spaces.
pub open spec fn source_line_text(lines: Seq<String>, si: SourceInfo) -> Seq<char> {
    let w = number_width(lines.len());
    let shown = untabbed(lines[si.start.line - 1]@);
    pad_left(nat_decimal(si.start.line as nat), w) + seq![' ', '|']
        + (if shown.len() == 0 { shown } else { seq![' '] + shown }) + seq!['\n']
}

/// The numbered line of the report of an error.
pub open spec fn report_source_line(e: Error) -> Seq<char> {
    source_line_text(e.lines@, e.source_info)
}

/// Under the line: for an assert error (column 0) the lines of the fixme; else a caret
/// mark under the place, shifted by three more spaces for each tab before it, and the
/// fixme.
pub open spec fn mark_text(lines: Seq<String>, si: SourceInfo, fixme: Seq<char>) -> Seq<char> {
    let w = number_width(lines.len());
    let start = si.start;
    let end = si.end;
    let line = lines[start.line - 1]@;
    if start.column == 0 {
        fixme_block(line_pieces(fixme), w)
    } else {
        let width: nat = (end.column - start.column) as nat;
        let before: int = if start.column - 1 <= line.len() { start.column - 1 } else { line.len() as int };
        repeat(' ', w) + seq![' ', '|', ' '] + repeat(' ', ((start.column - 1) + tab_count(line.take(before)) * 3) as nat)
            + repeat('^', if width > 1 { width } else { 1 }) + seq![' '] + fixme + seq!['\n']
    }
}

/// The mark of the report of an error.
pub open spec fn report_mark(e: Error) -> Seq<char> {
    mark_text(e.lines@, e.source_info, e.fixme@)
}

/// The report of an error: its kind and description, where it is, the line of the file,
/// the mark under it, between margin lines.
pub open spec fn error_report(e: Error) -> Seq<char> {
    let w = number_width(e.lines@.len());
    report_head(e) + report_location(e) + margin_line(w) + report_source_line(e) + report_mark(e) + margin_line(w)
}

/// Appends `n` copies of a character.
pub(crate) fn push_repeat(s: &mut String, c: char, n: usize)
    ensures
        final(s)@ == old(s)@ + repeat(c, n as nat),
{
    let mut i: usize = 0;
    while i < n
        invariant
            i <= n,
            s@ == old(s)@ + repeat(c, i as nat),
        decreases n - i,
    {
        push_char(s, c);
        i += 1;
        assert(s@ =~= old(s)@ + repeat(c, i as nat));
    }
}

/// A line with each tab replaced by four spaces.
fn untab(line: &str) -> (r: String)
    ensures
        r@ == untabbed(line@),
{
    let chars = chars_of(line);
    let mut r = String::new();
    let mut i: usize = 0;
    while i < chars.len()
        invariant
            i <= chars.len(),
            chars@ == line@,
            r@ == untabbed(line@.take(i as int)),
        decreases chars.len() - i,
    {
        assert(line@.take(i + 1).drop_last() =~= line@.take(i as int));
        if chars[i] == '\t' {
            push_repeat(&mut r, ' ', 4);
        } else {
            push_char(&mut r, chars[i]);
        }
        i += 1;
    }
    assert(line@.take(chars.len() as int) =~= line@);
    r
}

/// The number of tabs among the first `n` characters of a line.
fn tabs_before(line: &str, n: usize) -> (k: usize)
    ensures
        k == tab_count(line@.take(if n <= line@.len() { n as int } else { line@.len() as int })),
        k <= n,
{
    let chars = chars_of(line);
    let m = if n <= chars.len() { n } else { chars.len() };
    let mut k: usize = 0;
    let mut i: usize = 0;
    while i < m
        invariant
            i <= m,
            m <= chars.len(),
            chars@ == line@,
            k == tab_count(line@.take(i as int)),
            k <= i,
        decreases m - i,
    {
        assert(line@.take(i + 1).drop_last() =~= line@.take(i as int));
        if chars[i] == '\t' {
            k += 1;
        }
        i += 1;
    }
    k
}

/// The width of the line numbers of a file.
pub(crate) fn width_of(n: usize) -> (w: usize)
    ensures
        w == number_width(n as nat),
{
    if n < 100 { 2 } else if n < 1000 { 3 } else { 4 }
}

/// The kind of a report, as text.
pub(crate) fn kind_string(warning: bool, color: bool) -> (k: String)
    ensures
        k@ == kind_text(warning, color),
{
    let kind = if warning { lit("warning") } else { lit("error") };
    if !color {
        kind
    } else if warning {
        TerminalColor::Yellow.format(kind)
    } else {
        TerminalColor::Red.format(kind)
    }
}

/// Appends the first line of a report.
pub(crate) fn push_head(s: &mut String, warning: bool, color: bool, description: &str)
    ensures
        final(s)@ == old(s)@ + head_text(warning, color, description@),
{
    let kind = kind_string(warning, color);
    append_str(s, kind.as_str());
    push_char(s, ':');
    push_char(s, ' ');
    append_str(s, description);
    push_char(s, '\n');
    assert(final(s)@ =~= old(s)@ + head_text(warning, color, description@));
}

/// Appends a location line.
pub(crate) fn push_location(s: &mut String, w: usize, filename: &str, si: SourceInfo)
    ensures
        final(s)@ == old(s)@ + location_text(w as nat, filename@, si),
{
    push_repeat(s, ' ', w);
    push_char(s, '-');
    push_char(s, '-');
    push_char(s, '>');
    push_char(s, ' ');
    append_str(s, filename);
    push_char(s, ':');
    let t = u64_to_string(si.start.line as u64);
    append_str(s, t.as_str());
    push_char(s, ':');
    let t = u64_to_string(si.start.column as u64);
    append_str(s, t.as_str());
    push_char(s, '\n');
    assert(final(s)@ =~= old(s)@ + location_text(w as nat, filename@, si));
}

/// Appends an empty margin line.
pub(crate) fn push_margin(s: &mut String, w: usize)
    ensures
        final(s)@ == old(s)@ + margin_line(w as nat),
{
    push_repeat(s, ' ', w);
    push_char(s, ' ');
    push_char(s, '|');
    push_char(s, '\n');
    assert(final(s)@ =~= old(s)@ + margin_line(w as nat));
}

/// Appends the numbered line of the file.
pub(crate) fn push_source_line(s: &mut String, lines: &Vec<String>, si: SourceInfo, w: usize)
    requires
        w == number_width(lines@.len()),
        1 <= si.start.line <= lines@.len(),
    ensures
        final(s)@ == old(s)@ + source_line_text(lines@, si),
{
    let start_line = si.start.line;
    let line = &lines[start_line - 1];
    let shown = untab(line.as_str());
    let number = u64_to_string(start_line as u64);
    let digits = number.as_str().unicode_len();
    if digits < w {
        push_repeat(s, ' ', w - digits);
    }
    append_str(s, number.as_str());
    push_char(s, ' ');
    push_char(s, '|');
    if !shown.as_str().is_empty() {
        push_char(s, ' ');
        append_str(s, shown.as_str());
    }
    push_char(s, '\n');
    assert(final(s)@ =~= old(s)@ + source_line_text(lines@, si));
}

/// Appends the mark under the line.
pub(crate) fn push_mark(s: &mut String, lines: &Vec<String>, si: SourceInfo, fixme: &str, w: usize)
    requires
        w == number_width(lines@.len()),
        1 <= si.start.line <= lines@.len(),
        si.start.column != 0 ==> si.start.column <= si.end.column,
        si.start.column + 3 * si.start.column <= usize::MAX,
    ensures
        final(s)@ == old(s)@ + mark_text(lines@, si, fixme@),
{
    let start_col = si.start.column;
    if start_col == 0 {
        let pieces = match regex_split("\n|\r\n", fixme) {
            Some(p) => p,
            None => {
                assert(false);
                Vec::new()
            },
        };
        let mut i: usize = 0;
        while i < pieces.len()
            invariant
                i <= pieces.len(),
                s@ == old(s)@ + fixme_block(views(pieces@).take(i as int), w as nat),
            decreases pieces.len() - i,
        {
            assert(views(pieces@).take(i + 1).drop_last() =~= views(pieces@).take(i as int));
            push_repeat(s, ' ', w);
            push_char(s, ' ');
            push_char(s, '|');
            push_char(s, ' ');
            push_char(s, ' ');
            push_char(s, ' ');
            append_str(s, pieces[i].as_str());
            push_char(s, '\n');
            i += 1;
        }
        assert(views(pieces@).take(pieces.len() as int) =~= views(pieces@));
    } else {
        let line = &lines[si.start.line - 1];
        let width = si.end.column - start_col;
        let tabs = tabs_before(line.as_str(), start_col - 1);
        push_repeat(s, ' ', w);
        push_char(s, ' ');
        push_char(s, '|');
        push_char(s, ' ');
        push_repeat(s, ' ', start_col - 1 + tabs * 3);
        push_repeat(s, '^', if width > 1 { width } else { 1 });
        push_char(s, ' ');
        append_str(s, fixme);
        push_char(s, '\n');
        assert(final(s)@ =~= old(s)@ + mark_text(lines@, si, fixme@));
    }
}

impl Error {
    /// The report of the error, as text.
    pub fn format(self) -> (s: String)
        requires
            1 <= self.source_info.start.line <= self.lines@.len(),
            self.source_info.start.column != 0 ==> self.source_info.start.column <= self.source_info.end.column,
            self.source_info.start.column + 3 * self.source_info.start.column <= usize::MAX,
        ensures
            s@ == error_report(self),
    {
        let w = width_of(self.lines.len());
        let mut s = String::new();
        push_head(&mut s, self.warning, self.color, self.description.as_str());
        if !str_eq(self.filename.as_str(), "-") {
            push_location(&mut s, w, self.filename.as_str(), self.source_info);
        }
        push_margin(&mut s, w);
        push_source_line(&mut s, &self.lines, self.source_info, w);
        push_mark(&mut s, &self.lines, self.source_info, self.fixme.as_str(), w);
        push_margin(&mut s, w);
        assert(s@ =~= error_report(self));
        s
    }
}

} // verus!
