//! Decides which finalized chords are expanded, and what is typed for them.
use vstd::prelude::*;

use crate::library::{ChordLibrary, chord_key, as_prefix, as_suffix};

verus! {

/// Linux input codes of the keys that end a word.
pub const KEY_APOSTROPHE: u16 = 40;
pub const KEY_GRAVE: u16 = 41;
pub const KEY_COMMA: u16 = 51;
pub const KEY_DOT: u16 = 52;
pub const KEY_SEMICOLON: u16 = 39;
pub const KEY_SPACE: u16 = 57;

/// A key that ends a word: space or punctuation.
pub open spec fn boundary_key(code: u16) -> bool {
    code == KEY_SPACE || code == KEY_DOT || code == KEY_COMMA || code == KEY_SEMICOLON || code
        == KEY_APOSTROPHE || code == KEY_GRAVE
}

/// What `char::is_whitespace` returns.
pub uninterp spec fn white_space(c: char) -> bool;

/// A character that ends a word.
pub open spec fn boundary_char(c: char) -> bool {
    white_space(c) || c == '.' || c == ',' || c == ';' || c == '\'' || c == '`'
}

/// Relies on `char::is_whitespace`, whose result depends on the character alone.
#[verifier::external_body]
fn is_white(c: char) -> (r: bool)
    ensures
        r == white_space(c),
{
    c.is_whitespace()
}

/// Whether `code` ends a word.
pub fn is_boundary_key(code: u16) -> (r: bool)
    ensures
        r == boundary_key(code),
{
    code == KEY_SPACE || code == KEY_DOT || code == KEY_COMMA || code == KEY_SEMICOLON || code
        == KEY_APOSTROPHE || code == KEY_GRAVE
}

/// Whether `text` ends with a character that ends a word.
pub fn ends_word(text: &str) -> (r: bool)
    ensures
        r == (text@.len() > 0 && boundary_char(text@.last())),
{
    let n = text.unicode_len();
    if n == 0 {
        return false;
    }
    let c = text.get_char(n - 1);
    is_white(c) || c == '.' || c == ',' || c == ';' || c == '\'' || c == '`'
}

/// What to type for a chord: `backspaces` erasures, then `text`.
#[derive(Debug, PartialEq, Eq)]
pub struct Injection {
    pub backspaces: usize,
    pub text: String,
}

/// Expands chords only at the start of a word.
#[derive(Debug)]
pub struct Expander {
    last_char_was_space: bool,
}

impl Expander {
    /// Whether the text so far ends a word.
    pub closed spec fn at_boundary(&self) -> bool {
        self.last_char_was_space
    }

    /// A fresh expander, at the start of a word.
    pub fn new() -> (r: Self)
        ensures
            r.at_boundary(),
    {
        Expander { last_char_was_space: true }
    }

    /// Handles a finalized chord. A lone space or punctuation key marks a word
    /// boundary. Inside a word nothing is expanded. Otherwise, when the
    /// library has an expansion, the chord's keystrokes are erased and the
    /// expansion typed, and the boundary state follows the expansion's last
    /// character.
    pub fn on_chord(&mut self, library: &ChordLibrary, chord: &[u16]) -> (r: Option<Injection>)
        requires
            library.wf(),
        ensures
            ({
                let boundary = old(self).at_boundary() || (chord@.len() == 1 && boundary_key(
                    chord@[0],
                ));
                let k = chord_key(chord@);
                let found = library.chords.view().contains_key(k)
                    || library.exceptions.view().contains_key(k)
                    || library.prefixes.view().contains_key(k)
                    || library.suffixes.view().contains_key(k);
                if !boundary {
                    r is None && !final(self).at_boundary()
                } else if !found {
                    r is None && final(self).at_boundary()
                } else {
                    r matches Some(inj) && inj.backspaces == chord@.len() && inj.text@ == (
                        if library.chords.view().contains_key(k) {
                            library.chords.view()[k]
                        } else if library.exceptions.view().contains_key(k) {
                            library.exceptions.view()[k]
                        } else if library.prefixes.view().contains_key(k) {
                            as_prefix(library.prefixes.view()[k])
                        } else {
                            as_suffix(library.suffixes.view()[k])
                        }) && final(self).at_boundary() == (inj.text@.len() > 0
                        && boundary_char(inj.text@.last()))
                }
            }),
    {
        if chord.len() == 1 && is_boundary_key(chord[0]) {
            self.last_char_was_space = true;
        }
        if !self.last_char_was_space {
            return None;
        }
        match library.expand(chord) {
            None => None,
            Some(text) => {
                self.last_char_was_space = ends_word(text.as_str());
                Some(Injection { backspaces: chord.len(), text })
            },
        }
    }
}

} // verus!
