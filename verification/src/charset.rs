//! The four character classes whose presence widens a password's alphabet.
//!
//! Only ASCII letters, digits and punctuation are told apart. Every other character, such as
//! a blank or a letter outside ASCII, belongs to no class.

use vstd::prelude::*;

verus! {

/// The number of symbols that lowercase letters add to the alphabet.
pub const LOWERCASE_SYMBOLS: u32 = 26;

/// The number of symbols that uppercase letters add to the alphabet.
pub const UPPERCASE_SYMBOLS: u32 = 26;

/// The number of symbols that digits add to the alphabet.
pub const DIGIT_SYMBOLS: u32 = 10;

/// The number of symbols that punctuation adds to the alphabet.
pub const PUNCTUATION_SYMBOLS: u32 = 31;

/// An ASCII lowercase letter, `a` to `z`.
pub open spec fn is_lowercase(c: char) -> bool {
    'a' <= c && c <= 'z'
}

/// An ASCII uppercase letter, `A` to `Z`.
pub open spec fn is_uppercase(c: char) -> bool {
    'A' <= c && c <= 'Z'
}

/// An ASCII digit, `0` to `9`.
pub open spec fn is_digit(c: char) -> bool {
    '0' <= c && c <= '9'
}

/// An ASCII punctuation character: a printable ASCII character that is neither a letter, a
/// digit nor the space.
pub open spec fn is_punctuation(c: char) -> bool {
    ('!' <= c && c <= '/') || (':' <= c && c <= '@') || ('[' <= c && c <= '`') || ('{' <= c && c
        <= '~')
}

/// Which of the four character classes occur in a text.
#[derive(Clone, Copy, Debug, PartialEq, Eq, Structural)]
pub struct ClassSet {
    pub lowercase: bool,
    pub uppercase: bool,
    pub digit: bool,
    pub punctuation: bool,
}

impl ClassSet {
    /// The classes of which `text` holds at least one character.
    pub open spec fn of(text: Seq<char>) -> ClassSet {
        ClassSet {
            lowercase: exists|i: int| 0 <= i < text.len() && is_lowercase(#[trigger] text[i]),
            uppercase: exists|i: int| 0 <= i < text.len() && is_uppercase(#[trigger] text[i]),
            digit: exists|i: int| 0 <= i < text.len() && is_digit(#[trigger] text[i]),
            punctuation: exists|i: int| 0 <= i < text.len() && is_punctuation(#[trigger] text[i]),
        }
    }

    /// The size of the alphabet that the classes span: the sum of the sizes of those present.
    pub open spec fn alphabet(self) -> nat {
        (if self.lowercase {
            LOWERCASE_SYMBOLS as nat
        } else {
            0
        }) + (if self.uppercase {
            UPPERCASE_SYMBOLS as nat
        } else {
            0
        }) + (if self.digit {
            DIGIT_SYMBOLS as nat
        } else {
            0
        }) + (if self.punctuation {
            PUNCTUATION_SYMBOLS as nat
        } else {
            0
        })
    }

    /// Finds the classes that occur in `text`, in one pass.
    pub fn scan(text: &str) -> (classes: ClassSet)
        ensures
            classes == ClassSet::of(text@),
    {
        let mut lowercase: bool = false;
        let mut uppercase: bool = false;
        let mut digit: bool = false;
        let mut punctuation: bool = false;
        for c in it: text.chars()
            invariant
                it.seq() == text@,
                lowercase == (exists|i: int| 0 <= i < it.index() && is_lowercase(#[trigger] text@[i])),
                uppercase == (exists|i: int| 0 <= i < it.index() && is_uppercase(#[trigger] text@[i])),
                digit == (exists|i: int| 0 <= i < it.index() && is_digit(#[trigger] text@[i])),
                punctuation == (exists|i: int|
                    0 <= i < it.index() && is_punctuation(#[trigger] text@[i])),
        {
            assert(c == text@[it.index() as int]);
            lowercase = lowercase || ('a' <= c && c <= 'z');
            uppercase = uppercase || ('A' <= c && c <= 'Z');
            digit = digit || ('0' <= c && c <= '9');
            punctuation = punctuation || ('!' <= c && c <= '/') || (':' <= c && c <= '@') || ('['
                <= c && c <= '`') || ('{' <= c && c <= '~');
        }
        ClassSet { lowercase, uppercase, digit, punctuation }
    }

    /// The size of the alphabet that the classes span.
    pub fn alphabet_size(&self) -> (size: u32)
        ensures
            size == self.alphabet(),
    {
        let mut size: u32 = 0;
        if self.lowercase {
            size = size + LOWERCASE_SYMBOLS;
        }
        if self.uppercase {
            size = size + UPPERCASE_SYMBOLS;
        }
        if self.digit {
            size = size + DIGIT_SYMBOLS;
        }
        if self.punctuation {
            size = size + PUNCTUATION_SYMBOLS;
        }
        size
    }
}

} // verus!
