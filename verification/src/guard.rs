//! What has to hold of the host before anything is installed.

use crate::text::chars_of;
use vstd::prelude::*;

verus! {

/// Why the host is refused.
#[derive(Debug, Clone, Copy, PartialEq, Eq, Structural)]
pub enum PreconditionError {
    /// The host runs NixOS, which manages Nix by itself.
    DisallowedHost,
    /// The effective user is not root.
    NotRoot,
}

/// The word that marks a NixOS host in its release file.
pub open spec fn nixos() -> Seq<char> {
    seq!['n', 'i', 'x', 'o', 's']
}

/// `word` stands in `text` at index `at`.
pub open spec fn occurs_at(text: Seq<char>, word: Seq<char>, at: int) -> bool {
    0 <= at && at + word.len() <= text.len() && text.subrange(at, at + word.len()) == word
}

/// `word` stands somewhere in `text`.
pub open spec fn mentions(text: Seq<char>, word: Seq<char>) -> bool {
    exists|at: int| occurs_at(text, word, at)
}

/// Whether `word` stands in `text` at index `at`.
fn stands_at(text: &Vec<char>, word: &Vec<char>, at: usize) -> (b: bool)
    requires
        at + word.len() <= text.len(),
    ensures
        b == occurs_at(text@, word@, at as int),
{
    let mut j: usize = 0;
    while j < word.len()
        invariant
            j <= word.len(),
            at + word.len() <= text.len(),
            forall|k: int| 0 <= k < j ==> text@[at + k] == word@[k],
        decreases word.len() - j,
    {
        if text[at + j] != word[j] {
            proof {
                assert(text@.subrange(at as int, at + word.len())[j as int] == text@[at + j]);
            }
            return false;
        }
        j += 1;
    }
    proof {
        assert(text@.subrange(at as int, at + word.len()) =~= word@);
    }
    true
}

/// Whether `word` stands somewhere in `text`.
pub fn contains_word(text: &Vec<char>, word: &Vec<char>) -> (b: bool)
    ensures
        b == mentions(text@, word@),
{
    if word.len() > text.len() {
        return false;
    }
    let last = text.len() - word.len();
    let mut i: usize = 0;
    while i < last
        invariant
            i <= last,
            last == text.len() - word.len(),
            word.len() <= text.len(),
            forall|k: int| 0 <= k < i ==> !occurs_at(text@, word@, k),
        decreases last - i,
    {
        if stands_at(text, word, i) {
            return true;
        }
        i += 1;
    }
    stands_at(text, word, last)
}

/// Whether a release file is that of a NixOS host: it holds the word
/// `nixos`.
pub fn looks_like_nixos(os_release: &str) -> (b: bool)
    ensures
        b == mentions(os_release@, nixos()),
{
    let text = chars_of(os_release);
    let mut word: Vec<char> = Vec::new();
    word.push('n');
    word.push('i');
    word.push('x');
    word.push('o');
    word.push('s');
    proof {
        assert(word@ =~= nixos());
    }
    contains_word(&text, &word)
}

/// Checks the host: `os_release` is what its release file holds, where it
/// could be read, and `euid` the effective user id. A NixOS host is refused
/// first, then a user other than root.
pub fn check_host(os_release: Option<&str>, euid: u32) -> (r: Result<(), PreconditionError>)
    ensures
        r == if os_release matches Some(text) && mentions(text@, nixos()) {
            Err::<(), PreconditionError>(PreconditionError::DisallowedHost)
        } else if euid != 0 {
            Err(PreconditionError::NotRoot)
        } else {
            Ok(())
        },
{
    match os_release {
        Some(text) => {
            if looks_like_nixos(text) {
                return Err(PreconditionError::DisallowedHost);
            }
        },
        None => {},
    }
    if euid != 0 {
        return Err(PreconditionError::NotRoot);
    }
    Ok(())
}

} // verus!
