//! Who the player is. The body numbers (speeds, radii, eye heights) are floating point and live
//! with the movement code outside this crate; this module holds the choice itself.
use vstd::prelude::*;
use crate::text::{ascii_lower_seq, chars_eq_str, chars_of, to_ascii_lower, trim, trim_spec};

verus! {

/// Who the player is. Chosen on the launch screen; each character has its own body numbers and
/// model.
#[derive(Debug, Clone, Copy, PartialEq, Eq, Structural)]
pub enum Character {
    /// The ordinary-looking person with a bat.
    Human,
    /// Cheddar, the small brownish-grey lab rat.
    Rat,
}

/// The display name of a character.
pub open spec fn character_name(c: Character) -> Seq<char> {
    match c {
        Character::Human => "Human"@,
        Character::Rat => "Cheddar the rat"@,
    }
}

/// The words (already trimmed and lower-cased) that name the human.
pub open spec fn names_human(word: Seq<char>) -> bool {
    word == "human"@ || word == "person"@ || word == "h"@
}

/// The words (already trimmed and lower-cased) that name the rat.
pub open spec fn names_rat(word: Seq<char>) -> bool {
    word == "rat"@ || word == "cheddar"@ || word == "r"@
}

/// What [`Character::parse`] makes of `s`: trimmed and ASCII-lower-cased, it must be one of the
/// human's words or one of the rat's.
pub open spec fn parse_spec(s: Seq<char>) -> Option<Character> {
    let word = ascii_lower_seq(trim_spec(s));
    if names_human(word) {
        Some(Character::Human)
    } else if names_rat(word) {
        Some(Character::Rat)
    } else {
        None
    }
}

impl Character {
    /// Both characters, in the order the launch screen shows them.
    pub const ALL: [Character; 2] = [Character::Human, Character::Rat];

    /// Display name.
    pub fn name(self) -> (r: &'static str)
        ensures
            r@ == character_name(self),
    {
        match self {
            Character::Human => "Human",
            Character::Rat => "Cheddar the rat",
        }
    }

    /// Parses `human` / `rat` (also `person`, `cheddar`, `h`, `r`), ignoring ASCII case and
    /// surrounding white space.
    pub fn parse(s: &str) -> (r: Option<Character>)
        ensures
            r == parse_spec(s@),
    {
        let word = to_ascii_lower(&trim(&chars_of(s)));
        if chars_eq_str(&word, "human") || chars_eq_str(&word, "person") || chars_eq_str(&word, "h") {
            Some(Character::Human)
        } else if chars_eq_str(&word, "rat") || chars_eq_str(&word, "cheddar") || chars_eq_str(&word, "r") {
            Some(Character::Rat)
        } else {
            None
        }
    }
}

} // verus!
