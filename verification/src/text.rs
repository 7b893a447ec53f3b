//! A design in words, for diagnostics: the thickness of the layers and of
//! the partitions in millimetres, then the refractive index of every active
//! layer.

use vstd::prelude::*;
use vstd::string::StringExecFns;
use crate::model::units::model_ri_to_real_ri;
use crate::paramset::{lemma_first_absent_is, Design, ParamSet};

verus! {

/// The character that stands for a digit.
pub open spec fn digit_char(d: nat) -> char {
    if d == 0 {
        '0'
    } else if d == 1 {
        '1'
    } else if d == 2 {
        '2'
    } else if d == 3 {
        '3'
    } else if d == 4 {
        '4'
    } else if d == 5 {
        '5'
    } else if d == 6 {
        '6'
    } else if d == 7 {
        '7'
    } else if d == 8 {
        '8'
    } else {
        '9'
    }
}

/// A number in decimal digits.
pub open spec fn digits(n: nat) -> Seq<char>
    decreases n,
{
    if n < 10 {
        seq![digit_char(n)]
    } else {
        digits(n / 10).push(digit_char(n % 10))
    }
}

/// A number of hundredths as a decimal fraction of two places.
pub open spec fn hundredths_text(h: nat) -> Seq<char> {
    digits(h / 100) + seq!['.', digit_char((h / 10) % 10), digit_char(h % 10)]
}

/// The refractive indices that the first `n` codes stand for, a blank after
/// each: a code counts hundredths above 0.99.
pub open spec fn indices_text(codes: Seq<u8>, n: nat) -> Seq<char>
    decreases n,
{
    if n == 0 {
        Seq::empty()
    } else {
        indices_text(codes, (n - 1) as nat) + hundredths_text((codes[n - 1] + 99) as nat) + seq![' ']
    }
}

/// A design in words. A layer is 3.00 mm thick and a tenth of a millimetre
/// more for each unit of its thickness; a partition is a tenth of a
/// millimetre thick for each unit of its thickness.
pub open spec fn rendered(design: Design) -> Seq<char> {
    "layer:"@ + hundredths_text((300 + 10 * design.layers_thickness) as nat) + "mm part:"@
        + hundredths_text((10 * design.partitions_thickness) as nat) + "mm  | "@ + indices_text(
        design.codes(),
        design.codes().len(),
    ) + "|"@
}

/// Writes a digit.
fn push_digit(text: &mut String, d: u32)
    requires
        d < 10,
    ensures
        final(text)@ == old(text)@.push(digit_char(d as nat)),
{
    proof {
        reveal_strlit("0");
        reveal_strlit("1");
        reveal_strlit("2");
        reveal_strlit("3");
        reveal_strlit("4");
        reveal_strlit("5");
        reveal_strlit("6");
        reveal_strlit("7");
        reveal_strlit("8");
        reveal_strlit("9");
    }
    let digit: &str = if d == 0 {
        "0"
    } else if d == 1 {
        "1"
    } else if d == 2 {
        "2"
    } else if d == 3 {
        "3"
    } else if d == 4 {
        "4"
    } else if d == 5 {
        "5"
    } else if d == 6 {
        "6"
    } else if d == 7 {
        "7"
    } else if d == 8 {
        "8"
    } else {
        "9"
    };
    assert(digit@ =~= seq![digit_char(d as nat)]);
    text.append(digit);
    assert(text@ =~= old(text)@.push(digit_char(d as nat)));
}

/// Writes a number in decimal digits.
fn push_number(text: &mut String, n: u32)
    ensures
        final(text)@ == old(text)@ + digits(n as nat),
    decreases n,
{
    if n >= 10 {
        push_number(text, n / 10);
    }
    push_digit(text, n % 10);
    assert(text@ =~= old(text)@ + digits(n as nat));
}

/// Writes a number of hundredths as a decimal fraction of two places.
fn push_hundredths(text: &mut String, h: u32)
    ensures
        final(text)@ == old(text)@ + hundredths_text(h as nat),
{
    proof {
        reveal_strlit(".");
    }
    push_number(text, h / 100);
    text.append(".");
    push_digit(text, (h / 10) % 10);
    push_digit(text, h % 10);
    assert(text@ =~= old(text)@ + hundredths_text(h as nat));
}

impl ParamSet {
    /// Puts the design in words, as in
    /// `layer:3.00mm part:0.20mm  | 1.33 |`.
    pub fn render(&self) -> (text: String)
        ensures
            text@ == rendered(self@),
    {
        let count: usize = self.len();
        let mut text = String::from_str("layer:");
        push_hundredths(&mut text, 300 + 10 * (self.layers_thickness as u32));
        text.append("mm part:");
        push_hundredths(&mut text, 10 * (self.partitions_thickness as u32));
        text.append("mm  | ");
        let ghost head = text@;
        let ghost codes = self@.codes();
        let mut i: usize = 0;
        proof {
            lemma_first_absent_is(self@.layers, 0);
            assert(text@ =~= head + indices_text(codes, 0));
        }
        while i < count
            invariant
                i <= count,
                count == self@.len() == codes.len(),
                count <= 10,
                codes == self@.codes(),
                forall|j: int| 0 <= j < count ==> (#[trigger] self@.layers[j]) is Some,
                text@ == head + indices_text(codes, i as nat),
            decreases count - i,
        {
            let ghost before = text@;
            match self.layers[i] {
                Some(ri) => {
                    proof {
                        reveal_strlit(" ");
                    }
                    push_hundredths(&mut text, model_ri_to_real_ri(ri) as u32);
                    text.append(" ");
                    assert(text@ =~= head + indices_text(codes, (i + 1) as nat));
                },
                None => {},
            }
            i += 1;
        }
        text.append("|");
        text
    }
}

} // verus!
