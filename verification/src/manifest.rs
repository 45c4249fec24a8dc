//! The dependencies that a modpack's manifest lists: each entry of the list
//! names a provider and, after a colon, what to ask the provider for.

use crate::text::str_split_once;
use vstd::prelude::*;
use vstd::string::StringExecFns;

verus! {

/// The name under which the one known provider is written in a manifest.
pub const CURSE: &'static str = "curse";

/// Where a dependency comes from.
#[derive(Debug, Clone, Copy, PartialEq, Eq, Structural)]
pub enum Provider {
    Curse,
}

/// One dependency of a modpack.
#[derive(Debug)]
pub struct Dependency<'a> {
    pub provider: Provider,
    /// The slug by which the provider knows the dependency.
    pub name: &'a str,
}

/// The part of a text before its first colon: the whole text where it has
/// none.
pub open spec fn before_colon(text: Seq<char>) -> Seq<char>
    decreases text.len(),
{
    if text.len() == 0 || text[0] == ':' {
        Seq::empty()
    } else {
        seq![text[0]] + before_colon(text.skip(1))
    }
}

/// The part of a text after its first colon, where it has one.
pub open spec fn after_colon(text: Seq<char>) -> Option<Seq<char>>
    decreases text.len(),
{
    if text.len() == 0 {
        None
    } else if text[0] == ':' {
        Some(text.skip(1))
    } else {
        after_colon(text.skip(1))
    }
}

/// A text that is put together from a part without colon, a colon and a
/// rest falls apart into these again.
pub proof fn lemma_split_at_colon(head: Seq<char>, tail: Seq<char>)
    requires
        !head.contains(':'),
    ensures
        before_colon(head.push(':') + tail) == head,
        after_colon(head.push(':') + tail) == Some(tail),
    decreases head.len(),
{
    let text = head.push(':') + tail;
    if head.len() == 0 {
        assert(text[0] == ':');
        assert(text.skip(1) =~= tail);
        assert(before_colon(text) =~= head);
    } else {
        assert(head.contains(head[0]));
        assert(text[0] == head[0]);
        let rest = head.skip(1);
        assert forall|c: char| rest.contains(c) implies head.contains(c) by {
            let i = choose|i: int| 0 <= i < rest.len() && rest[i] == c;
            assert(head[i + 1] == c);
        }
        assert(text.skip(1) =~= rest.push(':') + tail);
        lemma_split_at_colon(rest, tail);
        assert(seq![head[0]] + rest =~= head);
    }
}

/// A text without colon is all before the colon and has nothing after it.
pub proof fn lemma_no_colon(text: Seq<char>)
    requires
        !text.contains(':'),
    ensures
        before_colon(text) == text,
        after_colon(text) is None,
    decreases text.len(),
{
    if text.len() > 0 {
        assert(text.contains(text[0]));
        let rest = text.skip(1);
        assert forall|c: char| rest.contains(c) implies text.contains(c) by {
            let i = choose|i: int| 0 <= i < rest.len() && rest[i] == c;
            assert(text[i + 1] == c);
        }
        lemma_no_colon(rest);
        assert(seq![text[0]] + rest =~= text);
    } else {
        assert(before_colon(text) =~= text);
    }
}

/// What an entry of a manifest's dependency list says: the provider that is
/// named before the first colon, and the name that stands between the first
/// colon and the next, or the end. An entry without colon, or with another
/// provider than the known one, says nothing.
pub open spec fn entry_meaning(entry: Seq<char>) -> Option<(Provider, Seq<char>)> {
    match after_colon(entry) {
        Some(rest) => if before_colon(entry) == CURSE@ {
            Some((Provider::Curse, before_colon(rest)))
        } else {
            None
        },
        None => None,
    }
}

impl<'a> Dependency<'a> {
    /// Reads one entry of a manifest's dependency list.
    pub fn parse(entry: &'a str) -> (dependency: Option<Dependency<'a>>)
        ensures
            match dependency {
                Some(found) => entry_meaning(entry@) == Some((found.provider, found.name@)),
                None => entry_meaning(entry@) is None,
            },
    {
        match str_split_once(entry, ':') {
            Some((provider, rest)) => {
                proof {
                    lemma_split_at_colon(provider@, rest@);
                }
                if *provider == *CURSE {
                    match str_split_once(rest, ':') {
                        Some((name, more)) => {
                            proof {
                                lemma_split_at_colon(name@, more@);
                            }
                            Some(Dependency { provider: Provider::Curse, name })
                        },
                        None => {
                            proof {
                                lemma_no_colon(rest@);
                            }
                            Some(Dependency { provider: Provider::Curse, name: rest })
                        },
                    }
                } else {
                    None
                }
            },
            None => {
                proof {
                    lemma_no_colon(entry@);
                }
                None
            },
        }
    }

    /// The entry that a manifest lists this dependency with: the provider's
    /// name, a colon and the dependency's name.
    pub fn to_entry(&self) -> (entry: String)
        ensures
            entry@ == CURSE@.push(':') + self.name@,
    {
        proof {
            reveal_strlit(":");
            assert(CURSE@ + ":"@ =~= CURSE@.push(':'));
        }
        CURSE.to_owned().concat(":").concat(self.name)
    }
}


/// A dependency is read back from the entry it is written with: the entry
/// of a dependency whose name has no colon means this dependency.
pub proof fn lemma_entry_round_trip(name: Seq<char>)
    requires
        !name.contains(':'),
    ensures
        entry_meaning(CURSE@.push(':') + name) == Some((Provider::Curse, name)),
{
    reveal_strlit("curse");
    assert(!CURSE@.contains(':')) by {
        if CURSE@.contains(':') {
            let i = choose|i: int| 0 <= i < CURSE@.len() && CURSE@[i] == ':';
            assert(CURSE@[i] != ':');
        }
    }
    lemma_split_at_colon(CURSE@, name);
    lemma_no_colon(name);
}

} // verus!
