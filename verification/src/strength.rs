//! The four strength levels and the entropy thresholds that separate them.

use vstd::prelude::*;

verus! {

/// The coarse strength level of a password.
#[derive(Clone, Copy, Debug, PartialEq, Eq, Structural)]
pub enum Strength {
    VeryWeak,
    Weak,
    Strong,
    VeryStrong,
}

/// The largest entropy estimate that is still very weak.
pub const VERY_WEAK_MAX: u128 = 28;

/// The largest entropy estimate that is still weak.
pub const WEAK_MAX: u128 = 59;

/// The largest entropy estimate that is still strong; above it a password is very strong.
pub const STRONG_MAX: u128 = 127;

impl Strength {
    /// The level of an entropy estimate: each threshold is an inclusive upper bound.
    pub open spec fn of_entropy(entropy: nat) -> Strength {
        if entropy <= VERY_WEAK_MAX {
            Strength::VeryWeak
        } else if entropy <= WEAK_MAX {
            Strength::Weak
        } else if entropy <= STRONG_MAX {
            Strength::Strong
        } else {
            Strength::VeryStrong
        }
    }

    /// The name of the level, as it is shown to a user.
    pub open spec fn label_text(self) -> Seq<char> {
        match self {
            Strength::VeryWeak => "very-weak"@,
            Strength::Weak => "weak"@,
            Strength::Strong => "strong"@,
            Strength::VeryStrong => "very-strong"@,
        }
    }

    /// Classifies an entropy estimate.
    pub fn from_entropy(entropy: u128) -> (level: Strength)
        ensures
            level == Strength::of_entropy(entropy as nat),
    {
        if entropy <= VERY_WEAK_MAX {
            Strength::VeryWeak
        } else if entropy <= WEAK_MAX {
            Strength::Weak
        } else if entropy <= STRONG_MAX {
            Strength::Strong
        } else {
            Strength::VeryStrong
        }
    }

    /// The name of the level: `very-weak`, `weak`, `strong` or `very-strong`.
    pub fn label(&self) -> (text: &'static str)
        ensures
            text@ == self.label_text(),
    {
        match self {
            Strength::VeryWeak => "very-weak",
            Strength::Weak => "weak",
            Strength::Strong => "strong",
            Strength::VeryStrong => "very-strong",
        }
    }
}

/// Each level covers one band of entropy estimates, and the bands leave no estimate out:
/// up to 28 is very weak, up to 59 weak, up to 127 strong, and all above very strong.
pub proof fn lemma_strength_bands(entropy: nat)
    ensures
        Strength::of_entropy(entropy) == Strength::VeryWeak <==> entropy <= 28,
        Strength::of_entropy(entropy) == Strength::Weak <==> 28 < entropy <= 59,
        Strength::of_entropy(entropy) == Strength::Strong <==> 59 < entropy <= 127,
        Strength::of_entropy(entropy) == Strength::VeryStrong <==> 127 < entropy,
{
}

/// No two levels share a name: the name tells the level.
pub proof fn lemma_labels_are_distinct(a: Strength, b: Strength)
    requires
        a.label_text() == b.label_text(),
    ensures
        a == b,
{
    reveal_strlit("very-weak");
    reveal_strlit("weak");
    reveal_strlit("strong");
    reveal_strlit("very-strong");
    assert("very-weak"@.len() == 9);
    assert("weak"@.len() == 4);
    assert("strong"@.len() == 6);
    assert("very-strong"@.len() == 11);
}

} // verus!
