use vstd::prelude::*;

use crate::text::{append_str, lit, push_char};

verus! {

/// A colour of the terminal, used for bold coloured text.
#[derive(Clone, Copy, Debug, PartialEq, Eq)]
pub enum TerminalColor {
    Red,
    Yellow,
}

/// The ANSI code of a colour.
pub open spec fn color_code(c: TerminalColor) -> Seq<char> {
    match c {
        TerminalColor::Red => seq!['3', '1'],
        TerminalColor::Yellow => seq!['3', '3'],
    }
}

/// A text in bold and in a colour, for an ANSI terminal.
pub open spec fn colored(c: TerminalColor, s: Seq<char>) -> Seq<char> {
    seq!['\x1b', '[', '1', ';'] + color_code(c) + seq!['m'] + s + seq!['\x1b', '[', '0', 'm']
}

impl TerminalColor {
    /// The text in bold and in this colour.
    pub fn format(self, s: String) -> (r: String)
        ensures
            r@ == colored(self, s@),
    {
        let mut r = String::new();
        push_char(&mut r, '\x1b');
        push_char(&mut r, '[');
        push_char(&mut r, '1');
        push_char(&mut r, ';');
        push_char(&mut r, '3');
        match self {
            TerminalColor::Red => push_char(&mut r, '1'),
            TerminalColor::Yellow => push_char(&mut r, '3'),
        }
        push_char(&mut r, 'm');
        append_str(&mut r, s.as_str());
        push_char(&mut r, '\x1b');
        push_char(&mut r, '[');
        push_char(&mut r, '0');
        push_char(&mut r, 'm');
        assert(r@ =~= colored(self, s@));
        r
    }
}

} // verus!
