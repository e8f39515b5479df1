use vstd::prelude::*;

use crate::format_error::{
    error_report, head_text, kind_string, kind_text, location_text, margin_line, mark_text, number_width,
    push_head, push_location, push_margin, push_mark, push_source_line, source_line_text, width_of, Error,
};
use crate::text::{append_str, push_char};

verus! {

/// What a run reports on, and how: the file and its lines, whether to say more, and
/// whether in colour. Each method gives the text to write on the standard error.
#[derive(Clone, Debug, PartialEq, Eq)]
pub struct Logger {
    pub filename: Option<String>,
    pub lines: Vec<String>,
    pub verbose: bool,
    pub color: bool,
}

/// A message after its kind.
pub open spec fn message_text(warning: bool, color: bool, s: Seq<char>) -> Seq<char> {
    kind_text(warning, color) + seq![':', ' '] + s
}

/// The report of an error against the lines of the file, and an empty line after it.
pub open spec fn logger_report(l: Logger, err: Error) -> Seq<char> {
    let w = number_width(l.lines@.len());
    head_text(err.warning, l.color, err.description@)
        + (match l.filename {
            Some(f) => location_text(w, f@, err.source_info),
            None => Seq::empty(),
        })
        + margin_line(w) + source_line_text(l.lines@, err.source_info)
        + mark_text(l.lines@, err.source_info, err.fixme@) + margin_line(w) + seq!['\n']
}

/// A text after a prefix, when the logger is verbose.
pub open spec fn verbose_text(l: Logger, prefix: char, s: Seq<char>) -> Option<Seq<char>> {
    if l.verbose { Some(seq![prefix, ' '] + s) } else { None }
}

impl Logger {
    fn prefixed(&self, prefix: char, s: &str) -> (r: Option<String>)
        ensures
            match r {
                Some(t) => verbose_text(*self, prefix, s@) == Some(t@),
                None => verbose_text(*self, prefix, s@) is None,
            },
    {
        if self.verbose {
            let mut t = String::new();
            push_char(&mut t, prefix);
            push_char(&mut t, ' ');
            append_str(&mut t, s);
            assert(t@ =~= seq![prefix, ' '] + s@);
            Some(t)
        } else {
            None
        }
    }

    /// A detail of the run, shown when verbose: `* ` and the text.
    pub fn verbose(&self, s: &str) -> (r: Option<String>)
        ensures
            match r {
                Some(t) => verbose_text(*self, '*', s@) == Some(t@),
                None => verbose_text(*self, '*', s@) is None,
            },
    {
        self.prefixed('*', s)
    }

    /// What is sent, shown when verbose: `> ` and the text.
    pub fn send(&self, s: String) -> (r: Option<String>)
        ensures
            match r {
                Some(t) => verbose_text(*self, '>', s@) == Some(t@),
                None => verbose_text(*self, '>', s@) is None,
            },
    {
        self.prefixed('>', s.as_str())
    }

    /// What is received, shown when verbose: `< ` and the text.
    pub fn receive(&self, s: String) -> (r: Option<String>)
        ensures
            match r {
                Some(t) => verbose_text(*self, '<', s@) == Some(t@),
                None => verbose_text(*self, '<', s@) is None,
            },
    {
        self.prefixed('<', s.as_str())
    }

    /// An error message: `error: ` and the text, the kind in red when in colour.
    pub fn error_message(&self, s: String) -> (r: String)
        ensures
            r@ == message_text(false, self.color, s@),
    {
        let mut r = kind_string(false, self.color);
        push_char(&mut r, ':');
        push_char(&mut r, ' ');
        append_str(&mut r, s.as_str());
        assert(r@ =~= message_text(false, self.color, s@));
        r
    }

    /// A warning message: `warning: ` and the text, the kind in yellow when in colour.
    pub fn warning_message(&self, s: String) -> (r: String)
        ensures
            r@ == message_text(true, self.color, s@),
    {
        let mut r = kind_string(true, self.color);
        push_char(&mut r, ':');
        push_char(&mut r, ' ');
        append_str(&mut r, s.as_str());
        assert(r@ =~= message_text(true, self.color, s@));
        r
    }

    /// The report of an error in the file: kind and description, where it is when the
    /// file is named, the numbered line, the mark under it, and an empty line.
    pub fn error(&self, err: &Error) -> (r: String)
        requires
            1 <= err.source_info.start.line <= self.lines@.len(),
            err.source_info.start.column != 0 ==> err.source_info.start.column <= err.source_info.end.column,
            err.source_info.start.column + 3 * err.source_info.start.column <= usize::MAX,
        ensures
            r@ == logger_report(*self, *err),
    {
        let w = width_of(self.lines.len());
        let mut s = String::new();
        push_head(&mut s, err.warning, self.color, err.description.as_str());
        match &self.filename {
            Some(f) => push_location(&mut s, w, f.as_str(), err.source_info),
            None => {},
        }
        push_margin(&mut s, w);
        push_source_line(&mut s, &self.lines, err.source_info, w);
        push_mark(&mut s, &self.lines, err.source_info, err.fixme.as_str(), w);
        push_margin(&mut s, w);
        push_char(&mut s, '\n');
        assert(s@ =~= logger_report(*self, *err));
        s
    }
}


/// The logger reports an error as the error formats itself, then an empty line, when
/// the logger has the error's file (not the standard input), lines and colour.
pub proof fn law_logger_report_is_format(l: Logger, e: Error)
    requires
        l.lines@ == e.lines@,
        l.color == e.color,
        l.filename matches Some(f) && f@ == e.filename@,
        e.filename@ != "-"@,
    ensures
        logger_report(l, e) == error_report(e) + seq!['\n'],
{
    assert(logger_report(l, e) =~= error_report(e) + seq!['\n']);
}

} // verus!
