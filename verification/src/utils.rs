//! Small helpers for showing entries in a table.

use crate::text::{cut_to, decimal, u32_to_string};
use vstd::prelude::*;
use vstd::string::StringExecFns;
use vstd::utf8::{encode_utf8, is_char_boundary};

verus! {

/// The length in bytes from which a name is shortened.
pub const LONG_NAME: usize = 40;

/// The length in bytes that a long name is cut to.
pub const SHORT_NAME: usize = 38;

/// The mark that is put behind a name that was cut.
pub const CUT_MARK: &'static str = "\u{e2}\u{20ac}\u{a6}";

/// A name as a table shows it: a name of fewer than forty bytes as it is,
/// a longer one cut to its first thirty-eight bytes, with the cut mark
/// behind them.
pub open spec fn shortened(name: Seq<char>) -> Seq<char> {
    if encode_utf8(name).len() < LONG_NAME {
        name
    } else {
        cut_to(name, SHORT_NAME as int) + CUT_MARK@
    }
}

/// Shortens a name in place for a table and hands it back: what the name
/// holds in the end is what the caller leaves in the reference that comes
/// back. The cut of a long name has to fall between two characters.
pub fn shorten_name(name: &mut String) -> (shortened_name: &mut String)
    requires
        encode_utf8(old(name)@).len() >= LONG_NAME ==> is_char_boundary(
            encode_utf8(old(name)@),
            SHORT_NAME as int,
        ),
    ensures
        shortened_name@ == shortened(old(name)@),
        *final(name) == *final(shortened_name),
{
    if name.as_str().as_bytes().len() < LONG_NAME {
        return name;
    }
    name.truncate(SHORT_NAME);
    name.append(CUT_MARK);
    name
}

/// A count as a table shows it: in whole billions, millions or thousands
/// where it has as many, rounded down and followed by a blank and `B`, `M`
/// or `K`, and as its plain numeral below a thousand.
pub open spec fn simplified(num: u32) -> Seq<char> {
    if num >= 1_000_000_000 {
        decimal((num / 1_000_000_000) as nat) + " B"@
    } else if num >= 1_000_000 {
        decimal((num / 1_000_000) as nat) + " M"@
    } else if num >= 1000 {
        decimal((num / 1000) as nat) + " K"@
    } else {
        decimal(num as nat)
    }
}

/// Writes a count in the short form that a table shows.
pub fn simplify_number(num: u32) -> (text: String)
    ensures
        text@ == simplified(num),
{
    if num >= 1_000_000_000 {
        u32_to_string(num / 1_000_000_000).concat(" B")
    } else if num >= 1_000_000 {
        u32_to_string(num / 1_000_000).concat(" M")
    } else if num >= 1000 {
        u32_to_string(num / 1000).concat(" K")
    } else {
        u32_to_string(num)
    }
}

} // verus!
