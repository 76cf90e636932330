//! Strength score of an analyzed password, between 0 and 100, computed
//! exactly as a fraction.
use vstd::prelude::*;
use crate::analyzer::{Analysis, AnalyzedPassword, lemma_analysis_bounds};

verus! {

/// Score of the base curve for a number of characters drawn from the
/// numbers, letters, spaces and symbols.
pub open spec fn base_score(effective_length: int) -> int {
    if effective_length <= 0 {
        0
    } else if effective_length == 1 {
        2
    } else if effective_length == 2 {
        5
    } else if effective_length == 3 {
        9
    } else if effective_length == 4 {
        16
    } else if effective_length == 5 {
        25
    } else if effective_length == 6 {
        40
    } else if effective_length == 7 {
        58
    } else if effective_length == 8 {
        80
    } else if effective_length == 9 {
        88
    } else if effective_length == 10 {
        95
    } else if effective_length == 11 {
        100
    } else {
        100 + (effective_length - 11)
    }
}

/// The scale of the score: it is computed in units of `1 / (20 * length)`
/// (with a length of at least 1), in which every adjustment is a whole
/// number.
pub open spec fn unit(a: Analysis) -> int {
    20 * if a.length == 0 {
        1int
    } else {
        a.length as int
    }
}

pub open spec fn base_of(a: Analysis) -> int {
    base_score(a.length - a.other_characters_count)
}

/// The base score with its adjustments, in units: a bonus for each space,
/// 5% of the base off without numbers, 10% off each without lowercase
/// letters, without uppercase letters and without spaces, one point for
/// mixed case and one for symbols, and off the base the fractions
/// `consecutive / length / 5`, `progressive / length / 5` and
/// `non_consecutive / length / 10`.
pub open spec fn adjusted(a: Analysis) -> int {
    let l = a.length as int;
    let b = base_of(a);
    let lb = l * b;
    20 * lb + 20 * (l * a.spaces_count) + (if a.lowercase_letters_count > 0
        && a.uppercase_letters_count > 0 {
        20 * l
    } else {
        0
    }) + (if a.symbols_count > 0 {
        20 * l
    } else {
        0
    }) - (if a.numbers_count == 0 {
        lb
    } else {
        0
    }) - (if a.lowercase_letters_count == 0 {
        2 * lb
    } else {
        0
    }) - (if a.uppercase_letters_count == 0 {
        2 * lb
    } else {
        0
    }) - (if a.spaces_count == 0 {
        2 * lb
    } else {
        0
    }) - 4 * (b * a.consecutive_count) - 4 * (b * a.progressive_count) - 2 * (b
        * a.non_consecutive_count)
}

/// The adjusted score held between 0 and the base, in units; a base of 0
/// gets no adjustment.
pub open spec fn clamped(a: Analysis) -> int {
    let top = 20 * (a.length * base_of(a));
    if base_of(a) == 0 {
        0
    } else if adjusted(a) < 0 {
        0
    } else if adjusted(a) > top {
        top
    } else {
        adjusted(a)
    }
}

/// The clamped score plus 20 points for each other character, at most 100,
/// in units.
pub open spec fn total(a: Analysis) -> int {
    let t = clamped(a) + unit(a) * (20 * a.other_characters_count);
    if t > 100 * unit(a) {
        100 * unit(a)
    } else {
        t
    }
}

/// The score is `score_numerator(a) / score_denominator(a)`: the total in
/// units, divided by 5 more for a common password.
pub open spec fn score_numerator(a: Analysis) -> int {
    total(a)
}

pub open spec fn score_denominator(a: Analysis) -> int {
    unit(a) * if a.is_common {
        5int
    } else {
        1int
    }
}

/// A score, as an exact fraction.
#[derive(Clone, Copy, Debug, PartialEq, Eq, Structural)]
pub struct Score {
    numerator: u128,
    denominator: u128,
}

impl Score {
    pub fn numerator(&self) -> (r: u128)
        ensures
            r == self.spec_numerator(),
    {
        self.numerator
    }

    pub fn denominator(&self) -> (r: u128)
        ensures
            r == self.spec_denominator(),
    {
        self.denominator
    }

    pub closed spec fn spec_numerator(&self) -> int {
        self.numerator as int
    }

    pub closed spec fn spec_denominator(&self) -> int {
        self.denominator as int
    }
}

proof fn lemma_product_bound(x: int, y: int, bx: int, by_: int)
    requires
        0 <= x <= bx,
        0 <= y <= by_,
    ensures
        x * y <= bx * by_,
{
    assert(x * y <= bx * by_) by (nonlinear_arith)
        requires
            0 <= x <= bx,
            0 <= y <= by_,
    ;
}

/// Base curve, executable.
fn base_curve(effective_length: usize) -> (r: u128)
    ensures
        r == base_score(effective_length as int),
{
    match effective_length {
        0 => 0,
        1 => 2,
        2 => 5,
        3 => 9,
        4 => 16,
        5 => 25,
        6 => 40,
        7 => 58,
        8 => 80,
        9 => 88,
        10 => 95,
        11 => 100,
        _ => 100 + (effective_length as u128 - 11),
    }
}

/// The base score with its adjustments, held between 0 and the base, in units.
fn clamped_score(analyzed: &AnalyzedPassword, b: u128) -> (r: u128)
    requires
        analyzed.wf(),
        analyzed@.length < 0x1000_0000_0000_0000,
        b == base_of(analyzed@),
    ensures
        r == clamped(analyzed@),
        r <= 20 * (0x1000_0000_0000_0000int * (0x1000_0000_0000_0000int + 89)),
{
    let ghost a = analyzed@;
    proof {
        lemma_analysis_bounds(a.password, a.is_common);
    }
    if b == 0 {
        return 0;
    }
    let l: u128 = analyzed.length() as u128;
    let spaces = analyzed.spaces_count();
    let consecutive = analyzed.consecutive_count();
    let progressive = analyzed.progressive_count();
    let non_consecutive = analyzed.non_consecutive_count();
    let ghost k: int = 0x1000_0000_0000_0000;
    proof {
        assert(b <= l + 89);
        lemma_product_bound(l as int, b as int, k, k + 89);
        lemma_product_bound(l as int, spaces as int, k, k);
        lemma_product_bound(b as int, consecutive as int, k + 89, k);
        lemma_product_bound(b as int, progressive as int, k + 89, k);
        lemma_product_bound(b as int, non_consecutive as int, k + 89, k);
    }
    let lb: u128 = l * b;
    let mut plus: u128 = 20 * lb + 20 * (l * spaces as u128);
    if analyzed.lowercase_letters_count() > 0 && analyzed.uppercase_letters_count() > 0 {
        plus = plus + 20 * l;
    }
    if analyzed.symbols_count() > 0 {
        plus = plus + 20 * l;
    }
    let mut minus: u128 = 4 * (b * consecutive as u128) + 4 * (b * progressive as u128) + 2 * (b
        * non_consecutive as u128);
    if analyzed.numbers_count() == 0 {
        minus = minus + lb;
    }
    if analyzed.lowercase_letters_count() == 0 {
        minus = minus + 2 * lb;
    }
    if analyzed.uppercase_letters_count() == 0 {
        minus = minus + 2 * lb;
    }
    if spaces == 0 {
        minus = minus + 2 * lb;
    }
    assert(plus - minus == adjusted(a));
    if plus < minus {
        0
    } else if plus - minus > 20 * lb {
        20 * lb
    } else {
        plus - minus
    }
}

/// The score of an analysis, from 0 to 100. Lengths are bounded so that the
/// exact fraction fits in 128 bits.
pub fn score(analyzed: &AnalyzedPassword) -> (r: Score)
    requires
        analyzed.wf(),
        analyzed@.length < 0x1000_0000_0000_0000,
    ensures
        r.spec_numerator() == score_numerator(analyzed@),
        r.spec_denominator() == score_denominator(analyzed@),
{
    let ghost a = analyzed@;
    proof {
        lemma_analysis_bounds(a.password, a.is_common);
    }
    let length = analyzed.length();
    let others = analyzed.other_characters_count();
    let b: u128 = base_curve(length - others);
    let clamped: u128 = clamped_score(analyzed, b);
    let l: u128 = if length == 0 {
        1
    } else {
        length as u128
    };
    let unit: u128 = 20 * l;
    let total: u128 = if others >= 5 {
        100 * unit
    } else {
        let bonus: u128 = 20 * others as u128;
        proof {
            lemma_product_bound(unit as int, bonus as int, 20 * 0x1000_0000_0000_0000int, 80);
        }
        if clamped + unit * bonus > 100 * unit {
            100 * unit
        } else {
            clamped + unit * bonus
        }
    };
    proof {
        if others >= 5 {
            assert(unit * (20 * others) >= 100 * unit) by (nonlinear_arith)
                requires
                    others >= 5,
                    unit >= 0,
            ;
        }
    }
    let denominator: u128 = if analyzed.is_common() {
        5 * unit
    } else {
        unit
    };
    Score { numerator: total, denominator }
}

} // verus!
