//! How an Excellon file writes the numbers of its coordinates.
use crate::excellon_format::{UnitDefinition, ZeroSuppression};
use crate::gerber_types::Unit;
use crate::scalar::Scalar;
use crate::text;
use crate::text::{chars_of, push_chars, push_padded, strip_end_char, strip_start_char, text_of};
use vstd::prelude::*;

verus! {

impl UnitDefinition {
    /// The defaults of each unit: INCH 2.4 LZ, METRIC 3.3 LZ.
    pub open spec fn default_spec(unit: Unit) -> UnitDefinition {
        UnitDefinition {
            unit,
            ty: ZeroSuppression::Leading,
            leading: match unit {
                Unit::Inches => 2,
                Unit::Millimeters => 3,
            },
            trailing: match unit {
                Unit::Inches => 4,
                Unit::Millimeters => 3,
            },
            decimal: false,
        }
    }

    /// The defaults of each unit: INCH 2.4 LZ, METRIC 3.3 LZ.
    pub fn default_for(unit: Unit) -> (r: UnitDefinition)
        ensures
            r == UnitDefinition::default_spec(unit),
    {
        let (leading, trailing): (u8, u8) = match unit {
            Unit::Inches => (2, 4),
            Unit::Millimeters => (3, 3),
        };
        UnitDefinition { unit, ty: ZeroSuppression::Leading, leading, trailing, decimal: false }
    }

    /// How many digits a number has when all of them are written.
    pub open spec fn digits(self) -> nat {
        self.leading as nat + self.trailing as nat
    }

    /// `raw` with the zeros that were left out behind its last digit.
    pub open spec fn completed(self, raw: Seq<char>) -> Seq<char> {
        if self.ty == ZeroSuppression::Leading {
            let negative = raw.len() > 0 && raw[0] == '-';
            let body = if negative {
                raw.skip(1)
            } else {
                raw
            };
            if body.len() < self.digits() {
                raw + text::zeros((self.digits() - body.len()) as nat)
            } else {
                raw
            }
        } else {
            raw
        }
    }

    /// The number that `raw` writes. One with a point is taken as it stands; any other is a run of
    /// digits whose last `trailing` digits stand behind the point.
    pub open spec fn parse_num_spec<N: Scalar>(self, raw: Seq<char>) -> Option<N> {
        if self.decimal || raw.contains('.') {
            N::parsed_spec(raw, 0)
        } else {
            N::parsed_spec(self.completed(raw), self.trailing as nat)
        }
    }

    pub fn parse_num<N: Scalar>(&self, raw: &str) -> (r: Option<N>)
        ensures
            r == self.parse_num_spec::<N>(raw@),
    {
        let chars = chars_of(raw);
        if self.decimal || contains(&chars, '.') {
            return N::parsed(raw, 0);
        }
        if self.ty == ZeroSuppression::Leading {
            let body: usize = if chars.len() > 0 && chars[0] == '-' {
                chars.len() - 1
            } else {
                chars.len()
            };
            let len: usize = self.trailing as usize + self.leading as usize;
            let mut all = text_of(&chars);
            if body < len {
                crate::text::push_zeros(&mut all, len - body);
            }
            assert(all@ =~= self.completed(raw@));
            N::parsed(all.as_str(), self.trailing)
        } else {
            N::parsed(raw, self.trailing)
        }
    }

    /// The number can be written: its point can be moved to the right end of its digits.
    pub open spec fn writes<N: Scalar>(self, num: N) -> bool {
        self.decimal || num.same_spec(N::zero_spec()) || self.trailing <= 9
    }

    /// The text for `num`. With a point it has at most six decimal places and no zero at its end;
    /// without one it is rounded to `trailing` places, and the zeros on one side are left out.
    pub open spec fn serialize_spec<N: Scalar>(self, num: N) -> Seq<char> {
        if self.decimal {
            text::trim_end_char(text::trim_end_char(num.text_spec(6), '0'), '.')
        } else if num.same_spec(N::zero_spec()) {
            seq!['0']
        } else {
            let (negative, magnitude) = num.rounded_spec(self.trailing as nat);
            let all = text::padded_digits(magnitude as nat, self.digits());
            let kept = if self.ty == ZeroSuppression::Trailing {
                text::trim_start_char(all, '0')
            } else {
                text::trim_end_char(all, '0')
            };
            if negative {
                seq!['-'] + kept
            } else {
                kept
            }
        }
    }

    pub fn serialize<N: Scalar>(&self, num: N) -> (r: String)
        requires
            self.writes(num),
        ensures
            r@ == self.serialize_spec(num),
    {
        if self.decimal {
            let s = num.text(6);
            let chars = chars_of(s.as_str());
            let kept = strip_end_char(strip_end_char(&chars, '0'), '.');
            return text_of(kept);
        }
        let mut out = String::new();
        if num.same(N::zero()) {
            out.push('0');
            assert(out@ =~= seq!['0']);
            return out;
        }
        let (negative, magnitude) = num.rounded(self.trailing);
        let mut all = String::new();
        push_padded(&mut all, magnitude, self.leading as usize + self.trailing as usize);
        assert(all@ =~= text::padded_digits(magnitude as nat, self.digits()));
        let chars = chars_of(all.as_str());
        let kept = if self.ty == ZeroSuppression::Trailing {
            strip_start_char(&chars, '0')
        } else {
            strip_end_char(&chars, '0')
        };
        if negative {
            out.push('-');
        }
        push_chars(&mut out, kept);
        assert(out@ =~= self.serialize_spec(num));
        out
    }
}

impl Default for UnitDefinition {
    fn default() -> (r: UnitDefinition)
        ensures
            r == UnitDefinition::default_spec(Unit::Inches),
    {
        UnitDefinition::default_for(Unit::Inches)
    }
}

fn contains(s: &[char], c: char) -> (r: bool)
    ensures
        r == s@.contains(c),
{
    let mut i: usize = 0;
    while i < s.len()
        invariant
            i <= s@.len(),
            forall|k: int| 0 <= k < i ==> s@[k] != c,
        decreases s@.len() - i,
    {
        if s[i] == c {
            assert(s@[i as int] == c);
            return true;
        }
        i = i + 1;
    }
    false
}

} // verus!
