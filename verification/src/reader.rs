use vstd::prelude::*;

use crate::common::Pos;
use crate::text::{alphanumeric, chars_of, is_alphanumeric, push_char};

verus! {

/// The successor of a counter, which wraps around at `usize::MAX`.
pub open spec fn succ(n: usize) -> usize {
    if n < usize::MAX { (n + 1) as usize } else { 0 }
}

/// The successor of a counter, which wraps around at `usize::MAX`.
pub fn next_count(n: usize) -> (r: usize)
    ensures
        r == succ(n),
{
    if n < usize::MAX { n + 1 } else { 0 }
}

/// The position after reading the character `c` at position `p`.
pub open spec fn next_pos(p: Pos, c: char) -> Pos {
    if c == '\n' {
        Pos { line: succ(p.line), column: 1 }
    } else {
        Pos { line: p.line, column: succ(p.column) }
    }
}

/// The position after reading the characters `s` from position `p`.
pub open spec fn advance(p: Pos, s: Seq<char>) -> Pos
    decreases s.len(),
{
    if s.len() == 0 {
        p
    } else {
        next_pos(advance(p, s.drop_last()), s.last())
    }
}

/// The state of a reader: the index of the next character and its position.
#[derive(Clone, Copy, Debug, PartialEq, Eq)]
pub struct ReaderState {
    pub cursor: usize,
    pub pos: Pos,
}

/// A reader over the characters of a text, which tracks the position it is at.
#[derive(Clone, Debug, PartialEq, Eq)]
pub struct Reader {
    pub buffer: Vec<char>,
    pub state: ReaderState,
}

/// Classes of characters that a reader can skip over.
#[derive(Clone, Copy, Debug, PartialEq, Eq)]
pub enum CharClass {
    /// A space.
    Space,
    /// A space, a tab, a newline or a carriage return.
    Whitespace,
    /// An ASCII digit.
    Digit,
    /// A character of a JSON key: alphanumeric, `@`, `.`, `_` or `-`.
    KeyChar,
    /// A character of a variable name: alphanumeric, `_` or `-`.
    VarChar,
}

pub open spec fn in_class(k: CharClass, c: char) -> bool {
    match k {
        CharClass::Space => c == ' ',
        CharClass::Whitespace => c == ' ' || c == '\t' || c == '\n' || c == '\r',
        CharClass::Digit => '0' <= c && c <= '9',
        CharClass::KeyChar => alphanumeric(c) || c == '@' || c == '.' || c == '_' || c == '-',
        CharClass::VarChar => alphanumeric(c) || c == '_' || c == '-',
    }
}

/// Whether the character belongs to the class.
pub fn class_contains(k: CharClass, c: char) -> (b: bool)
    ensures
        b == in_class(k, c),
{
    match k {
        CharClass::Space => c == ' ',
        CharClass::Whitespace => c == ' ' || c == '\t' || c == '\n' || c == '\r',
        CharClass::Digit => '0' <= c && c <= '9',
        CharClass::KeyChar => is_alphanumeric(c) || c == '@' || c == '.' || c == '_' || c == '-',
        CharClass::VarChar => is_alphanumeric(c) || c == '_' || c == '-',
    }
}

pub proof fn lemma_advance_push(p: Pos, s: Seq<char>, c: char)
    ensures
        advance(p, s.push(c)) == next_pos(advance(p, s), c),
{
    assert(s.push(c).drop_last() == s);
}

impl Reader {
    /// The reader is consistent: the cursor is in the buffer.
    pub open spec fn wf(&self) -> bool {
        self.state.cursor <= self.buffer@.len()
    }

    /// The characters not read yet.
    pub open spec fn rest(&self) -> Seq<char> {
        self.buffer@.subrange(self.state.cursor as int, self.buffer@.len() as int)
    }

    /// A reader at the start of `s`, at line 1, column 1.
    pub fn init(s: &str) -> (r: Reader)
        ensures
            r.wf(),
            r.buffer@ == s@,
            r.state.cursor == 0,
            r.state.pos == (Pos { line: 1, column: 1 }),
    {
        let buffer = chars_of(s);
        Reader { buffer, state: ReaderState { cursor: 0, pos: Pos { line: 1, column: 1 } } }
    }

    /// Whether every character has been read.
    pub fn is_eof(&self) -> (b: bool)
        requires
            self.wf(),
        ensures
            b == (self.state.cursor == self.buffer@.len()),
    {
        self.state.cursor == self.buffer.len()
    }

    /// The next character, if any, without reading it.
    pub fn peek(&self) -> (r: Option<char>)
        requires
            self.wf(),
        ensures
            r == (if self.state.cursor < self.buffer@.len() {
                Some(self.buffer@[self.state.cursor as int])
            } else {
                None
            }),
    {
        if self.state.cursor < self.buffer.len() {
            Some(self.buffer[self.state.cursor])
        } else {
            None
        }
    }

    /// Whether the next character is `c`.
    pub fn next_is(&self, c: char) -> (b: bool)
        requires
            self.wf(),
        ensures
            b == (self.state.cursor < self.buffer@.len() && self.buffer@[self.state.cursor as int] == c),
    {
        self.state.cursor < self.buffer.len() && self.buffer[self.state.cursor] == c
    }

    /// Reads the next character, if any.
    pub fn read(&mut self) -> (r: Option<char>)
        requires
            old(self).wf(),
        ensures
            final(self).wf(),
            final(self).buffer == old(self).buffer,
            old(self).state.cursor < old(self).buffer@.len() ==> {
                &&& r == Some(old(self).buffer@[old(self).state.cursor as int])
                &&& final(self).state.cursor == old(self).state.cursor + 1
                &&& final(self).state.pos == next_pos(old(self).state.pos, r->0)
            },
            old(self).state.cursor == old(self).buffer@.len() ==> {
                &&& r is None
                &&& final(self).state == old(self).state
            },
    {
        if self.state.cursor < self.buffer.len() {
            let c = self.buffer[self.state.cursor];
            self.state.cursor = self.state.cursor + 1;
            if c == '\n' {
                self.state.pos.line = next_count(self.state.pos.line);
                self.state.pos.column = 1;
            } else {
                self.state.pos.column = next_count(self.state.pos.column);
            }
            Some(c)
        } else {
            None
        }
    }

    /// Reads the longest run of characters of the class `k`.
    pub fn read_while(&mut self, k: CharClass) -> (s: String)
        requires
            old(self).wf(),
        ensures
            final(self).wf(),
            final(self).buffer == old(self).buffer,
            old(self).state.cursor <= final(self).state.cursor,
            s@ == old(self).buffer@.subrange(old(self).state.cursor as int, final(self).state.cursor as int),
            forall|i: int| old(self).state.cursor <= i < final(self).state.cursor ==> in_class(k, #[trigger] old(self).buffer@[i]),
            final(self).state.cursor < final(self).buffer@.len() ==> !in_class(k, final(self).buffer@[final(self).state.cursor as int]),
            final(self).state.pos == advance(old(self).state.pos, s@),
    {
        let ghost start = self.state.cursor;
        let ghost p0 = self.state.pos;
        let mut s = String::new();
        while self.state.cursor < self.buffer.len() && class_contains(k, self.buffer[self.state.cursor])
            invariant
                self.wf(),
                self.buffer == old(self).buffer,
                start == old(self).state.cursor,
                p0 == old(self).state.pos,
                start <= self.state.cursor,
                s@ == self.buffer@.subrange(start as int, self.state.cursor as int),
                forall|i: int| start <= i < self.state.cursor ==> in_class(k, #[trigger] self.buffer@[i]),
                self.state.pos == advance(p0, s@),
            decreases self.buffer@.len() - self.state.cursor,
        {
            let c = self.read();
            let c = c.unwrap();
            proof { lemma_advance_push(p0, s@, c); }
            push_char(&mut s, c);
            assert(s@ =~= self.buffer@.subrange(start as int, self.state.cursor as int));
        }
        s
    }

    /// The characters read since the cursor `start`.
    pub fn from(&self, start: usize) -> (s: String)
        requires
            self.wf(),
            start <= self.state.cursor,
        ensures
            s@ == self.buffer@.subrange(start as int, self.state.cursor as int),
    {
        let mut s = String::new();
        let mut i = start;
        while i < self.state.cursor
            invariant
                self.wf(),
                start <= i <= self.state.cursor,
                s@ == self.buffer@.subrange(start as int, i as int),
            decreases self.state.cursor - i,
        {
            push_char(&mut s, self.buffer[i]);
            i += 1;
            assert(s@ =~= self.buffer@.subrange(start as int, i as int));
        }
        s
    }

    /// The current state (cursor and position).
    pub fn cursor(&self) -> (st: ReaderState)
        ensures
            st == self.state,
    {
        ReaderState { cursor: self.state.cursor, pos: Pos { line: self.state.pos.line, column: self.state.pos.column } }
    }

    /// Goes back to a state saved with [`Reader::cursor`].
    pub fn seek(&mut self, st: ReaderState)
        ensures
            final(self).buffer == old(self).buffer,
            final(self).state == st,
    {
        self.state = st;
    }
}

} // verus!

verus! {

pub proof fn lemma_advance_concat(p: Pos, a: Seq<char>, b: Seq<char>)
    ensures
        advance(p, a + b) == advance(advance(p, a), b),
    decreases b.len(),
{
    if b.len() == 0 {
        assert(a + b == a);
    } else {
        lemma_advance_concat(p, a, b.drop_last());
        assert((a + b).drop_last() == a + b.drop_last());
        assert((a + b).last() == b.last());
    }
}

/// The position in `s` of the character at index `i`, reading from line 1, column 1.
pub open spec fn pos_at(s: Seq<char>, i: int) -> Pos {
    advance(Pos { line: 1, column: 1 }, s.take(i))
}

pub proof fn lemma_pos_at_next(s: Seq<char>, i: int)
    requires
        0 <= i < s.len(),
    ensures
        pos_at(s, i + 1) == next_pos(pos_at(s, i), s[i]),
{
    assert(s.take(i + 1) == s.take(i).push(s[i]));
    lemma_advance_push(Pos { line: 1, column: 1 }, s.take(i), s[i]);
}

pub proof fn lemma_pos_at_range(s: Seq<char>, i: int, j: int)
    requires
        0 <= i <= j <= s.len(),
    ensures
        pos_at(s, j) == advance(pos_at(s, i), s.subrange(i, j)),
{
    assert(s.take(j) == s.take(i) + s.subrange(i, j));
    lemma_advance_concat(Pos { line: 1, column: 1 }, s.take(i), s.subrange(i, j));
}

} // verus!

verus! {

/// The end of the run of characters of the class `k` that starts at index `i`.
pub open spec fn run_end(s: Seq<char>, i: int, k: CharClass) -> int
    decreases s.len() - i,
{
    if 0 <= i < s.len() && in_class(k, s[i]) {
        run_end(s, i + 1, k)
    } else {
        i
    }
}

pub proof fn lemma_run_end(s: Seq<char>, i: int, j: int, k: CharClass)
    requires
        0 <= i <= j <= s.len(),
        forall|m: int| i <= m < j ==> in_class(k, #[trigger] s[m]),
        j == s.len() || !in_class(k, s[j]),
    ensures
        run_end(s, i, k) == j,
    decreases j - i,
{
    if i < j {
        lemma_run_end(s, i + 1, j, k);
    }
}

pub proof fn lemma_run_end_bounds(s: Seq<char>, i: int, k: CharClass)
    requires
        0 <= i <= s.len(),
    ensures
        i <= run_end(s, i, k) <= s.len(),
    decreases s.len() - i,
{
    if i < s.len() && in_class(k, s[i]) {
        lemma_run_end_bounds(s, i + 1, k);
    }
}

impl Reader {
    /// The reader knows the position of its cursor, reading its buffer from line 1, column 1.
    pub open spec fn anchored(&self) -> bool {
        &&& self.wf()
        &&& self.state.pos == pos_at(self.buffer@, self.state.cursor as int)
    }

    /// Reads the run of characters of the class `k` at the cursor.
    pub fn read_run(&mut self, k: CharClass) -> (s: String)
        requires
            old(self).anchored(),
        ensures
            final(self).anchored(),
            final(self).buffer == old(self).buffer,
            final(self).state.cursor == run_end(old(self).buffer@, old(self).state.cursor as int, k),
            old(self).state.cursor <= final(self).state.cursor,
            s@ == old(self).buffer@.subrange(old(self).state.cursor as int, final(self).state.cursor as int),
    {
        let ghost c0 = self.state.cursor;
        let s = self.read_while(k);
        proof {
            lemma_pos_at_range(self.buffer@, c0 as int, self.state.cursor as int);
            lemma_run_end(self.buffer@, c0 as int, self.state.cursor as int, k);
        }
        s
    }

    /// Reads one character, keeping track of its position.
    pub fn read_char(&mut self) -> (r: Option<char>)
        requires
            old(self).anchored(),
        ensures
            final(self).anchored(),
            final(self).buffer == old(self).buffer,
            old(self).state.cursor < old(self).buffer@.len() ==> {
                &&& r == Some(old(self).buffer@[old(self).state.cursor as int])
                &&& final(self).state.cursor == old(self).state.cursor + 1
            },
            old(self).state.cursor == old(self).buffer@.len() ==> {
                &&& r is None
                &&& final(self).state == old(self).state
            },
    {
        proof {
            if self.state.cursor < self.buffer@.len() {
                lemma_pos_at_next(self.buffer@, self.state.cursor as int);
            }
        }
        self.read()
    }
}

} // verus!
