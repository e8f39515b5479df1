use vstd::prelude::*;

use crate::common::Pos;
use crate::reader::{
    advance, lemma_pos_at_next, lemma_pos_at_range, next_pos, pos_at, CharClass, Reader,
    ReaderState,
};
use crate::text::{append_str, lit, nat_decimal, push_char, u64_to_string};

verus! {

/// What went wrong while splitting a command line.
#[derive(Clone, Copy, Debug, PartialEq, Eq)]
pub enum ScanError {
    /// A backslash at the end of the input.
    InvalidEscape,
    /// A quoted parameter that is not closed.
    MissingDelimiter,
}

/// The index of the first character at or after `i` that is not a space.
pub open spec fn skip_spaces(s: Seq<char>, i: int) -> int
    decreases s.len() - i,
{
    if 0 <= i < s.len() && s[i] == ' ' {
        skip_spaces(s, i + 1)
    } else {
        i
    }
}

/// The character that a backslash sequence stands for in a `$'...'` parameter.
pub open spec fn unescape(c: char) -> char {
    if c == 'n' {
        '\n'
    } else if c == 't' {
        '\t'
    } else if c == 'r' {
        '\r'
    } else {
        c
    }
}

/// Scans a quoted parameter from index `i` (after the opening quote), with the value
/// read so far `acc`: the value and the index after the closing quote, or the error
/// and the index where it is raised.
pub open spec fn scan_quoted(s: Seq<char>, i: int, escaping: bool, acc: Seq<char>) -> Result<(Seq<char>, int), (ScanError, int)>
    decreases s.len() - i,
{
    if i < 0 || i >= s.len() {
        Err((ScanError::MissingDelimiter, s.len() as int))
    } else if s[i] == '\\' && escaping {
        if i + 1 < s.len() {
            scan_quoted(s, i + 2, escaping, acc.push(unescape(s[i + 1])))
        } else {
            Err((ScanError::InvalidEscape, i + 1))
        }
    } else if s[i] == '\'' {
        Ok((acc, i + 1))
    } else {
        scan_quoted(s, i + 1, escaping, acc.push(s[i]))
    }
}

/// Scans an unquoted parameter from index `i`: it ends at a space (consumed) or at the
/// end of the input; a backslash takes the next character as it is.
pub open spec fn scan_plain(s: Seq<char>, i: int, acc: Seq<char>) -> Result<(Seq<char>, int), (ScanError, int)>
    decreases s.len() - i,
{
    if i < 0 || i >= s.len() {
        Ok((acc, s.len() as int))
    } else if s[i] == '\\' {
        if i + 1 < s.len() {
            scan_plain(s, i + 2, acc.push(s[i + 1]))
        } else {
            Err((ScanError::InvalidEscape, i + 1))
        }
    } else if s[i] == ' ' {
        Ok((acc, i + 1))
    } else {
        scan_plain(s, i + 1, acc.push(s[i]))
    }
}

/// Reads the parameter that starts at index `i` (after optional spaces): none at the
/// end of the input, else its value and the index after it.
pub open spec fn param_spec(s: Seq<char>, i: int) -> Result<Option<(Seq<char>, int)>, (ScanError, int)> {
    let j = skip_spaces(s, i);
    if j >= s.len() {
        Ok(None)
    } else {
        let scanned = if s[j] == '\'' {
            scan_quoted(s, j + 1, false, Seq::empty())
        } else if s[j] == '$' && j + 1 < s.len() && s[j + 1] == '\'' {
            scan_quoted(s, j + 2, true, Seq::empty())
        } else {
            scan_plain(s, j, Seq::empty())
        };
        match scanned {
            Ok((v, k)) => Ok(Some((v, k))),
            Err(e) => Err(e),
        }
    }
}

/// The parameters read from index `i` on, after the parameters `acc`.
pub open spec fn split_from(s: Seq<char>, i: int, acc: Seq<Seq<char>>) -> Result<Seq<Seq<char>>, (ScanError, int)>
    decreases s.len() - i,
{
    if i < 0 || i > s.len() {
        Ok(acc)
    } else {
        match param_spec(s, i) {
            Err(e) => Err(e),
            Ok(None) => Ok(acc),
            Ok(Some((v, k))) => if i < k <= s.len() {
                split_from(s, k, acc.push(v))
            } else {
                Ok(acc)
            },
        }
    }
}

/// The column in `s` of the character at index `i`.
pub open spec fn column_at(s: Seq<char>, i: int) -> nat {
    pos_at(s, i).column as nat
}

/// The message of a splitting error raised at index `i` of `s`.
pub open spec fn scan_error_message(s: Seq<char>, e: (ScanError, int)) -> Seq<char> {
    match e.0 {
        ScanError::InvalidEscape => "Invalid escape at column "@ + nat_decimal(column_at(s, e.1)),
        ScanError::MissingDelimiter => "Missing delimiter ' at column "@ + nat_decimal(column_at(s, e.1)),
    }
}

/// The parameters of a command line, or the message of the error met.
pub open spec fn split_spec(s: Seq<char>) -> Result<Seq<Seq<char>>, Seq<char>> {
    match split_from(s, 0, Seq::empty()) {
        Ok(v) => Ok(v),
        Err(e) => Err(scan_error_message(s, e)),
    }
}

pub proof fn lemma_skip_spaces(s: Seq<char>, i: int, j: int)
    requires
        0 <= i <= j <= s.len(),
        forall|k: int| i <= k < j ==> s[k] == ' ',
        j == s.len() || s[j] != ' ',
    ensures
        skip_spaces(s, i) == j,
    decreases j - i,
{
    if i < j {
        lemma_skip_spaces(s, i + 1, j);
    }
}

pub proof fn lemma_scan_quoted_bounds(s: Seq<char>, i: int, escaping: bool, acc: Seq<char>)
    requires
        0 <= i,
    ensures
        scan_quoted(s, i, escaping, acc) matches Ok((_, k)) ==> i < k <= s.len(),
        scan_quoted(s, i, escaping, acc) matches Err((_, k)) ==> k <= s.len(),
    decreases s.len() - i,
{
    if i < s.len() {
        if s[i] == '\\' && escaping && i + 1 < s.len() {
            lemma_scan_quoted_bounds(s, i + 2, escaping, acc.push(unescape(s[i + 1])));
        } else if !(s[i] == '\\' && escaping) && s[i] != '\'' {
            lemma_scan_quoted_bounds(s, i + 1, escaping, acc.push(s[i]));
        }
    }
}

pub proof fn lemma_scan_plain_bounds(s: Seq<char>, i: int, acc: Seq<char>)
    requires
        0 <= i < s.len(),
        s[i] != ' ',
    ensures
        scan_plain(s, i, acc) matches Ok((_, k)) ==> i < k <= s.len(),
        scan_plain(s, i, acc) matches Err((_, k)) ==> k <= s.len(),
    decreases s.len() - i,
{
    if s[i] == '\\' {
        if i + 2 < s.len() && s[i + 2] != ' ' {
            lemma_scan_plain_bounds(s, i + 2, acc.push(s[i + 1]));
        }
    } else if i + 1 < s.len() && s[i + 1] != ' ' {
        lemma_scan_plain_bounds(s, i + 1, acc.push(s[i]));
    }
}

/// A reader of the parameters of a command line.
pub struct Parser {
    reader: Reader,
}

impl Parser {
    /// The parser is consistent: its reader is, and tracks positions from line 1, column 1.
    pub closed spec fn wf(&self) -> bool {
        &&& self.reader.wf()
        &&& self.reader.state.pos == pos_at(self.reader.buffer@, self.reader.state.cursor as int)
    }

    /// The characters of the command line.
    pub closed spec fn input(&self) -> Seq<char> {
        self.reader.buffer@
    }

    /// The index of the next character to read.
    pub closed spec fn index(&self) -> int {
        self.reader.state.cursor as int
    }

    /// A parser at the start of `s`.
    pub fn new(s: &str) -> (p: Parser)
        ensures
            p.wf(),
            p.input() == s@,
            p.index() == 0,
    {
        let reader = Reader::init(s);
        proof {
            assert(reader.buffer@.take(0) == Seq::<char>::empty());
        }
        Parser { reader }
    }

    fn read_char(&mut self) -> (r: Option<char>)
        requires
            old(self).wf(),
        ensures
            final(self).wf(),
            final(self).input() == old(self).input(),
            old(self).index() < old(self).input().len() ==> {
                &&& r == Some(old(self).input()[old(self).index()])
                &&& final(self).index() == old(self).index() + 1
            },
            old(self).index() == old(self).input().len() ==> {
                &&& r is None
                &&& final(self).index() == old(self).index()
            },
    {
        proof {
            if self.index() < self.input().len() {
                lemma_pos_at_next(self.input(), self.index());
            }
        }
        self.reader.read()
    }

    /// Reads an opening delimiter, `'` or `$'`: the delimiter and whether backslash
    /// sequences are decoded inside. Reads nothing where there is none.
    pub fn delimiter(&mut self) -> (r: Option<(char, bool)>)
        requires
            old(self).wf(),
        ensures
            final(self).wf(),
            final(self).input() == old(self).input(),
            ({
                let s = old(self).input();
                let i = old(self).index();
                if i < s.len() && s[i] == '\'' {
                    r == Some(('\'', false)) && final(self).index() == i + 1
                } else if i + 1 < s.len() && s[i] == '$' && s[i + 1] == '\'' {
                    r == Some(('\'', true)) && final(self).index() == i + 2
                } else {
                    r is None && final(self).index() == i
                }
            }),
    {
        if self.reader.peek() == Some('\'') {
            let _ = self.read_char();
            Some(('\'', false))
        } else if self.reader.peek() == Some('$') {
            let save = self.reader.cursor();
            let _ = self.read_char();
            if self.reader.peek() == Some('\'') {
                let _ = self.read_char();
                Some(('\'', true))
            } else {
                self.reader.seek(save);
                None
            }
        } else {
            None
        }
    }

    /// The column of the next character to read.
    pub fn col(&self) -> (c: usize)
        requires
            self.wf(),
        ensures
            c == column_at(self.input(), self.index()),
    {
        self.reader.state.pos.column
    }

    fn error(&self, kind: ScanError) -> (e: String)
        requires
            self.wf(),
        ensures
            e@ == scan_error_message(self.input(), (kind, self.index())),
    {
        let col = self.col();
        let mut e = match kind {
            ScanError::InvalidEscape => lit("Invalid escape at column "),
            ScanError::MissingDelimiter => {
                let mut m = lit("Missing delimiter ");
                push_char(&mut m, '\'');
                append_str(&mut m, " at column ");
                proof {
                    reveal_strlit("Missing delimiter ");
                    reveal_strlit(" at column ");
                    reveal_strlit("Missing delimiter ' at column ");
                    assert(m@ =~= "Missing delimiter ' at column "@);
                }
                m
            },
        };
        let n = u64_to_string(col as u64);
        append_str(&mut e, n.as_str());
        e
    }

    /// Reads the next parameter: none at the end of the input.
    pub fn param(&mut self) -> (r: Result<Option<String>, String>)
        requires
            old(self).wf(),
        ensures
            final(self).wf(),
            final(self).input() == old(self).input(),
            match param_spec(old(self).input(), old(self).index()) {
                Ok(None) => r == Ok::<Option<String>, String>(None),
                Ok(Some((v, k))) => r matches Ok(Some(x)) && x@ == v && final(self).index() == k,
                Err(e) => r matches Err(m) && m@ == scan_error_message(old(self).input(), e)
                    && final(self).index() == e.1,
            },
    {
        let ghost s = self.input();
        let ghost i0 = self.index();
        let ghost c0 = self.reader.state.cursor;
        let ghost p0 = self.reader.state.pos;
        let spaces = self.reader.read_while(CharClass::Space);
        proof {
            lemma_pos_at_range(s, c0 as int, self.index());
            lemma_skip_spaces(s, i0, self.index());
        }
        if self.reader.is_eof() {
            return Ok(None);
        }
        let ghost j = self.index();
        let mut value = String::new();
        match self.delimiter() {
            Some((delimiter, escaping)) => {
                let ghost start = self.index();
                assert(scan_quoted(s, start, escaping, Seq::empty()) == scan_quoted(s, start, escaping, value@));
                loop
                    invariant
                        self.wf(),
                        self.input() == s,
                        s == old(self).input(),
                        i0 == old(self).index(),
                        delimiter == '\'',
                        0 <= start <= self.index(),
                        param_spec(s, i0) == match scan_quoted(s, start, escaping, Seq::empty()) {
                            Ok((v, k)) => Ok(Some((v, k))),
                            Err(e) => Err(e),
                        },
                        scan_quoted(s, start, escaping, Seq::empty()) == scan_quoted(s, self.index(), escaping, value@),
                    decreases s.len() - self.index(),
                {
                    let c1 = self.read_char();
                    match c1 {
                        None => {
                            return Err(self.error(ScanError::MissingDelimiter));
                        },
                        Some(c1) => {
                            if c1 == '\\' && escaping {
                                let c2 = match self.read_char() {
                                    Some('n') => '\n',
                                    Some('t') => '\t',
                                    Some('r') => '\r',
                                    Some(c) => c,
                                    None => {
                                        return Err(self.error(ScanError::InvalidEscape));
                                    },
                                };
                                push_char(&mut value, c2);
                            } else if c1 == delimiter {
                                return Ok(Some(value));
                            } else {
                                push_char(&mut value, c1);
                            }
                        },
                    }
                }
            },
            None => {
                assert(scan_plain(s, j, Seq::empty()) == scan_plain(s, j, value@));
                loop
                    invariant
                        self.wf(),
                        self.input() == s,
                        s == old(self).input(),
                        i0 == old(self).index(),
                        0 <= j <= self.index(),
                        param_spec(s, i0) == match scan_plain(s, j, Seq::empty()) {
                            Ok((v, k)) => Ok(Some((v, k))),
                            Err(e) => Err(e),
                        },
                        scan_plain(s, j, Seq::empty()) == scan_plain(s, self.index(), value@),
                    decreases s.len() - self.index(),
                {
                    match self.read_char() {
                        Some('\\') => {
                            match self.read_char() {
                                Some(c) => {
                                    push_char(&mut value, c);
                                },
                                None => {
                                    return Err(self.error(ScanError::InvalidEscape));
                                },
                            }
                        },
                        Some(' ') => {
                            return Ok(Some(value));
                        },
                        Some(c) => {
                            push_char(&mut value, c);
                        },
                        None => {
                            return Ok(Some(value));
                        },
                    }
                }
            },
        }
    }
}

/// Splits a command line into its parameters, as a shell does: parameters are separated
/// by spaces, may be quoted with `'...'` (taken as they are) or `$'...'` (where `\n`,
/// `\t`, `\r` and `\c` are decoded), and a backslash outside quotes takes the next
/// character as it is.
pub fn split(s: &str) -> (r: Result<Vec<String>, String>)
    ensures
        match split_spec(s@) {
            Ok(v) => r matches Ok(params) && params@.map_values(|p: String| p@) == v,
            Err(m) => r matches Err(e) && e@ == m,
        },
{
    let mut params: Vec<String> = Vec::new();
    let mut parser = Parser::new(s);
    assert(params@.map_values(|p: String| p@) =~= Seq::<Seq<char>>::empty());
    loop
        invariant
            parser.wf(),
            parser.input() == s@,
            0 <= parser.index() <= s@.len(),
            split_from(s@, 0, Seq::empty()) == split_from(s@, parser.index(), params@.map_values(|p: String| p@)),
        decreases s@.len() - parser.index(),
    {
        let ghost i = parser.index();
        let ghost acc = params@.map_values(|p: String| p@);
        proof {
            let j = skip_spaces(s@, i);
            lemma_skip_spaces_bound(s@, i);
            if j < s@.len() {
                if s@[j] == '\'' {
                    lemma_scan_quoted_bounds(s@, j + 1, false, Seq::empty());
                } else if s@[j] == '$' && j + 1 < s@.len() && s@[j + 1] == '\'' {
                    lemma_scan_quoted_bounds(s@, j + 2, true, Seq::empty());
                } else {
                    lemma_scan_plain_bounds(s@, j, Seq::empty());
                }
            }
        }
        match parser.param() {
            Ok(Some(p)) => {
                params.push(p);
                assert(params@.map_values(|p: String| p@) =~= acc.push(p@));
            },
            Ok(None) => {
                return Ok(params);
            },
            Err(e) => {
                return Err(e);
            },
        }
    }
}

pub proof fn lemma_skip_spaces_bound(s: Seq<char>, i: int)
    requires
        0 <= i <= s.len(),
    ensures
        i <= skip_spaces(s, i) <= s.len(),
        skip_spaces(s, i) < s.len() ==> s[skip_spaces(s, i)] != ' ',
    decreases s.len() - i,
{
    if i < s.len() && s[i] == ' ' {
        lemma_skip_spaces_bound(s, i + 1);
    }
}

/// A parameter between single quotes.
pub open spec fn quoted(p: Seq<char>) -> Seq<char> {
    seq!['\''] + p + seq!['\'']
}

/// Parameters between single quotes, separated by one space.
pub open spec fn quoted_line(ps: Seq<Seq<char>>) -> Seq<char>
    decreases ps.len(),
{
    if ps.len() == 0 {
        Seq::empty()
    } else if ps.len() == 1 {
        quoted(ps[0])
    } else {
        quoted(ps[0]) + seq![' '] + quoted_line(ps.drop_first())
    }
}

/// The text has no single quote.
pub open spec fn no_quote(p: Seq<char>) -> bool {
    forall|k: int| 0 <= k < p.len() ==> p[k] != '\''
}

/// A quoted text without quotes is read back as it is.
proof fn lemma_scan_quoted_plain(s: Seq<char>, j: int, p: Seq<char>, acc: Seq<char>)
    requires
        0 <= j,
        j + p.len() < s.len(),
        s.subrange(j, j + p.len()) == p,
        s[j + p.len()] == '\'',
        no_quote(p),
    ensures
        scan_quoted(s, j, false, acc) == Ok::<(Seq<char>, int), (ScanError, int)>((acc + p, j + p.len() + 1)),
    decreases p.len(),
{
    if p.len() == 0 {
        assert(acc + p =~= acc);
    } else {
        assert(s[j] == s.subrange(j, j + p.len())[0]);
        assert(s.subrange(j + 1, j + 1 + p.drop_first().len()) =~= p.drop_first());
        lemma_scan_quoted_plain(s, j + 1, p.drop_first(), acc.push(p[0]));
        assert(acc.push(p[0]) + p.drop_first() =~= acc + p);
    }
}

/// A quoted text without quotes, after spaces, is read as one parameter.
proof fn lemma_param_quoted(s: Seq<char>, i: int, m: int, p: Seq<char>)
    requires
        0 <= i <= m,
        m + p.len() + 1 < s.len(),
        forall|k: int| i <= k < m ==> s[k] == ' ',
        s[m] == '\'',
        s.subrange(m + 1, m + 1 + p.len()) == p,
        s[m + 1 + p.len()] == '\'',
        no_quote(p),
    ensures
        param_spec(s, i) == Ok::<Option<(Seq<char>, int)>, (ScanError, int)>(Some((p, m + p.len() + 2))),
{
    lemma_skip_spaces(s, i, m);
    lemma_scan_quoted_plain(s, m + 1, p, Seq::empty());
    assert(Seq::<char>::empty() + p =~= p);
}

/// Reading quoted parameters separated by spaces, from spaces before them.
#[verifier::spinoff_prover]
#[verifier::rlimit(40)]
proof fn lemma_split_quoted(prefix: Seq<char>, i: int, ps: Seq<Seq<char>>, acc: Seq<Seq<char>>)
    requires
        0 <= i <= prefix.len(),
        forall|k: int| i <= k < prefix.len() ==> prefix[k] == ' ',
        forall|n: int| 0 <= n < ps.len() ==> no_quote(#[trigger] ps[n]),
    ensures
        split_from(prefix + quoted_line(ps), i, acc) == Ok::<Seq<Seq<char>>, (ScanError, int)>(acc + ps),
    decreases ps.len(),
{
    let s = prefix + quoted_line(ps);
    let m = prefix.len() as int;
    if ps.len() == 0 {
        assert(s =~= prefix);
        lemma_skip_spaces(s, i, m);
        assert(acc + ps =~= acc);
    } else {
        let p0 = ps[0];
        assert(no_quote(p0));
        let rest: Seq<char> = if ps.len() == 1 { Seq::empty() } else { seq![' '] + quoted_line(ps.drop_first()) };
        assert(quoted_line(ps) =~= quoted(p0) + rest);
        assert(s =~= prefix + seq!['\''] + p0 + seq!['\''] + rest);
        let k = m + p0.len() + 2;
        assert(s.subrange(m + 1, m + 1 + p0.len()) =~= p0);
        assert(s[m] == '\'' && s[m + 1 + p0.len()] == '\'');
        lemma_param_quoted(s, i, m, p0);
        if ps.len() == 1 {
            assert(s.len() == k);
            lemma_skip_spaces(s, k, k);
            assert(split_from(s, k, acc.push(p0)) == Ok::<Seq<Seq<char>>, (ScanError, int)>(acc.push(p0)));
            assert(acc.push(p0) =~= acc + ps);
        } else {
            let prefix2 = prefix + quoted(p0) + seq![' '];
            assert(s =~= prefix2 + quoted_line(ps.drop_first()));
            assert(prefix2[k] == ' ');
            assert forall|n: int| 0 <= n < ps.drop_first().len() implies no_quote(#[trigger] ps.drop_first()[n]) by {
                assert(ps.drop_first()[n] == ps[n + 1]);
            }
            lemma_split_quoted(prefix2, k, ps.drop_first(), acc.push(p0));
            assert(acc.push(p0) + ps.drop_first() =~= acc + ps);
        }
    }
}

/// Parameters without single quotes, each put between single quotes and separated by
/// spaces, are split back into the same parameters.
pub proof fn law_split_quoted(ps: Seq<Seq<char>>)
    requires
        forall|n: int| 0 <= n < ps.len() ==> no_quote(#[trigger] ps[n]),
    ensures
        split_spec(quoted_line(ps)) == Ok::<Seq<Seq<char>>, Seq<char>>(ps),
{
    lemma_split_quoted(Seq::empty(), 0, ps, Seq::empty());
    assert(Seq::<char>::empty() + quoted_line(ps) =~= quoted_line(ps));
    assert(Seq::<Seq<char>>::empty() + ps =~= ps);
}

/// How a character is written in a `$'...'` parameter.
pub open spec fn escaped_char(c: char) -> Seq<char> {
    if c == '\'' {
        seq!['\\', '\'']
    } else if c == '\\' {
        seq!['\\', '\\']
    } else if c == '\n' {
        seq!['\\', 'n']
    } else if c == '\t' {
        seq!['\\', 't']
    } else if c == '\r' {
        seq!['\\', 'r']
    } else {
        seq![c]
    }
}

/// How a text is written in a `$'...'` parameter.
pub open spec fn escaped(p: Seq<char>) -> Seq<char>
    decreases p.len(),
{
    if p.len() == 0 {
        Seq::empty()
    } else {
        escaped_char(p[0]) + escaped(p.drop_first())
    }
}

/// An escaped text is read back as the text.
proof fn lemma_scan_escaped(s: Seq<char>, j: int, p: Seq<char>, acc: Seq<char>)
    requires
        0 <= j,
        j + escaped(p).len() < s.len(),
        s.subrange(j, j + escaped(p).len()) == escaped(p),
        s[j + escaped(p).len()] == '\'',
    ensures
        scan_quoted(s, j, true, acc) == Ok::<(Seq<char>, int), (ScanError, int)>((acc + p, j + escaped(p).len() + 1)),
    decreases p.len(),
{
    if p.len() == 0 {
        assert(acc + p =~= acc);
    } else {
        let e = escaped_char(p[0]);
        let r = escaped(p.drop_first());
        assert(escaped(p) == e + r);
        assert(s.subrange(j + e.len(), j + e.len() + r.len()) =~= r) by {
            assert forall|k: int| 0 <= k < r.len() implies s.subrange(j + e.len(), j + e.len() + r.len())[k] == r[k] by {
                assert(s.subrange(j, j + escaped(p).len())[e.len() + k] == (e + r)[e.len() + k]);
            }
        }
        assert(s[j] == escaped(p)[0]) by {
            assert(s.subrange(j, j + escaped(p).len())[0] == escaped(p)[0]);
        }
        if e.len() == 2 {
            assert(s[j + 1] == escaped(p)[1]) by {
                assert(s.subrange(j, j + escaped(p).len())[1] == escaped(p)[1]);
            }
            assert(unescape(s[j + 1]) == p[0]);
        }
        lemma_scan_escaped(s, j + e.len(), p.drop_first(), acc.push(p[0]));
        assert(acc.push(p[0]) + p.drop_first() =~= acc + p);
    }
}

/// A text written with escapes between `$'` and `'` is split back into that one text.
pub proof fn law_split_escaped(p: Seq<char>)
    ensures
        split_spec(seq!['$', '\''] + escaped(p) + seq!['\'']) == Ok::<Seq<Seq<char>>, Seq<char>>(seq![p]),
{
    let s = seq!['$', '\''] + escaped(p) + seq!['\''];
    let n = escaped(p).len() as int;
    assert(s.subrange(2, 2 + n) =~= escaped(p));
    lemma_scan_escaped(s, 2, p, Seq::empty());
    assert(Seq::<char>::empty() + p =~= p);
    lemma_skip_spaces(s, 0, 0);
    assert(param_spec(s, 0) == Ok::<Option<(Seq<char>, int)>, (ScanError, int)>(Some((p, s.len() as int))));
    lemma_skip_spaces(s, s.len() as int, s.len() as int);
    assert(param_spec(s, s.len() as int) == Ok::<Option<(Seq<char>, int)>, (ScanError, int)>(None));
    assert(split_from(s, s.len() as int, seq![p]) == Ok::<Seq<Seq<char>>, (ScanError, int)>(seq![p]));
    assert(Seq::<Seq<char>>::empty().push(p) =~= seq![p]);
    assert(split_from(s, 0, Seq::empty()) == split_from(s, s.len() as int, seq![p]));
}

} // verus!
