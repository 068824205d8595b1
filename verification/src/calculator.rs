//! The strength calculator: a password, its entropy estimate and its strength level.

use vstd::prelude::*;
use vstd::string::*;
use crate::charset::ClassSet;
use crate::entropy::{entropy_estimate, estimate, is_rounded_half_log2, lemma_estimate_is_rounded};
use crate::strength::{lemma_strength_bands, Strength};

verus! {

/// A password whose strength can be asked for.
///
/// The password is kept as it was given: nothing is trimmed, folded or converted.
pub struct Calculator {
    password: String,
}

impl View for Calculator {
    type V = Seq<char>;

    /// The characters of the password.
    closed spec fn view(&self) -> Seq<char> {
        self.password@
    }
}

impl Calculator {
    /// The entropy estimate of the password: the estimate for its number of characters and
    /// for the alphabet that its character classes span.
    pub open spec fn entropy(&self) -> nat {
        entropy_estimate(self@.len(), ClassSet::of(self@).alphabet())
    }

    /// The strength level of the password: the level of its entropy estimate.
    pub open spec fn strength(&self) -> Strength {
        Strength::of_entropy(self.entropy())
    }

    /// A calculator for `password`. Every text is accepted, the empty one too.
    pub fn new(password: String) -> (calculator: Calculator)
        ensures
            calculator@ == password@,
    {
        Calculator { password }
    }

    /// The entropy estimate of the password, 0 for a password without a character of any
    /// class.
    pub fn get_entropy(&self) -> (entropy: u128)
        ensures
            entropy == self.entropy(),
    {
        let text: &str = self.password.as_str();
        let len: usize = text.unicode_len();
        let classes: ClassSet = ClassSet::scan(text);
        estimate(len, classes.alphabet_size())
    }

    /// The name of the strength level of the password: `very-weak`, `weak`, `strong` or
    /// `very-strong`, by its entropy estimate.
    pub fn get_strength(&self) -> (label: &'static str)
        ensures
            label@ == self.strength().label_text(),
    {
        Strength::from_entropy(self.get_entropy()).label()
    }
}

/// The entropy estimate and the strength level of a password depend on its characters alone:
/// two calculators for the same password agree on both, and so do two calls on one
/// calculator.
pub proof fn lemma_password_decides(a: Calculator, b: Calculator)
    requires
        a@ == b@,
    ensures
        a.entropy() == b.entropy(),
        a.strength() == b.strength(),
{
}

/// The strength level of a password depends on its entropy estimate alone: up to 28 it is
/// very weak, up to 59 weak, up to 127 strong, and above that very strong.
pub proof fn lemma_entropy_decides_strength(a: Calculator, b: Calculator)
    ensures
        a.entropy() == b.entropy() ==> a.strength() == b.strength(),
        a.strength() == Strength::VeryWeak <==> a.entropy() <= 28,
        a.strength() == Strength::Weak <==> 28 < a.entropy() <= 59,
        a.strength() == Strength::Strong <==> 59 < a.entropy() <= 127,
        a.strength() == Strength::VeryStrong <==> 127 < a.entropy(),
{
    lemma_strength_bands(a.entropy());
}

/// The entropy estimate of a password is half its number of characters times the binary
/// logarithm of its alphabet size, rounded to the nearest integer, and 0 where no character
/// of it belongs to a class.
pub proof fn lemma_entropy_is_rounded(calculator: Calculator)
    ensures
        ClassSet::of(calculator@).alphabet() == 0 ==> calculator.entropy() == 0,
        ClassSet::of(calculator@).alphabet() > 0 ==> is_rounded_half_log2(
            calculator.entropy(),
            calculator@.len(),
            ClassSet::of(calculator@).alphabet(),
        ),
{
    if ClassSet::of(calculator@).alphabet() > 0 {
        lemma_estimate_is_rounded(calculator@.len(), ClassSet::of(calculator@).alphabet());
    }
}

} // verus!
