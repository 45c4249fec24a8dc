//! The lines that a command prints: indented notes under headlines.

use vstd::prelude::*;
use vstd::string::StringExecFns;

verus! {

/// The indention of a logger that was made without one.
pub const DEFAULT_INDENTION: u8 = 2;

/// The indention of a logger that was made with an emoji headline.
pub const EMOJI_INDENTION: u8 = 4;

/// A run of `count` blanks.
pub open spec fn blanks(count: nat) -> Seq<char> {
    Seq::new(count, |i: int| ' ')
}

/// A headline with an emoji in front: a blank, the emoji, a blank, the text.
pub open spec fn emoji_line(emoji: Seq<char>, text: Seq<char>) -> Seq<char> {
    seq![' '] + emoji + seq![' '] + text
}

/// Writes the lines of one command, each note indented by the same number
/// of blanks.
#[derive(Debug)]
pub struct Logger {
    indention: u8,
}

impl Logger {
    /// The number of blanks that this logger puts in front of a note.
    pub closed spec fn indention(&self) -> u8 {
        self.indention
    }

    /// The line for a note: the logger's indention, then the note.
    pub fn log(&self, s: &str) -> (line: String)
        ensures
            line@ == blanks(self.indention() as nat) + s@,
    {
        let mut line = String::new();
        let mut i: u8 = 0;
        proof {
            reveal_strlit(" ");
            assert(line@ =~= blanks(0));
        }
        while i < self.indention
            invariant
                i <= self.indention,
                line@ == blanks(i as nat),
                " "@ == seq![' '],
            decreases self.indention - i,
        {
            line.append(" ");
            i = i + 1;
            assert(line@ =~= blanks(i as nat));
        }
        line.append(s);
        line
    }

    /// The line for a headline with an emoji in front.
    pub fn emoji_headline(&self, emoji: &str, s: &str) -> (line: String)
        ensures
            line@ == emoji_line(emoji@, s@),
    {
        proof {
            reveal_strlit(" ");
            assert(" "@ =~= seq![' ']);
        }
        " ".to_owned().concat(emoji).concat(" ").concat(s)
    }

    /// A logger with the default indention.
    pub fn new() -> (logger: Logger)
        ensures
            logger.indention() == DEFAULT_INDENTION,
    {
        Logger { indention: DEFAULT_INDENTION }
    }

    /// A logger that indents by the given number of blanks.
    pub fn with_indention(spaces: u8) -> (logger: Logger)
        ensures
            logger.indention() == spaces,
    {
        Logger { indention: spaces }
    }

    /// A logger with the default indention, and the headline to print
    /// before its first note.
    pub fn with_headline(headline: &str) -> (begun: (Logger, String))
        ensures
            begun.0.indention() == DEFAULT_INDENTION,
            begun.1@ == headline@,
    {
        (Logger::new(), headline.to_owned())
    }

    /// A logger for notes under a headline with an emoji, and the headline
    /// to print before its first note.
    pub fn with_emoji_headline(emoji: &str, headline: &str) -> (begun: (Logger, String))
        ensures
            begun.0.indention() == EMOJI_INDENTION,
            begun.1@ == emoji_line(emoji@, headline@),
    {
        let logger = Logger::with_indention(EMOJI_INDENTION);
        let line = logger.emoji_headline(emoji, headline);
        (logger, line)
    }
}

} // verus!
