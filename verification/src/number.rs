//! Real numbers, held as the decimal text that writes them: rotation angles
//! and the coefficients of Pauli terms.

use vstd::prelude::*;
use vstd::string::*;
use crate::chars::{all_digits, digit_value, leading, lemma_leading, lemma_leading_is, slice, string_of};

verus! {

/// The code of the lower-case form of an ASCII letter; of any other
/// character its own code.
pub open spec fn lower(c: char) -> int {
    let code = c as u32;
    if 0x41 <= code <= 0x5a {
        code + 0x20
    } else {
        code as int
    }
}

/// `s` reads as the lower-case `word` when letter case is ignored.
pub open spec fn reads_as(s: Seq<char>, word: Seq<char>) -> bool {
    s.len() == word.len() && forall|i: int|
        0 <= i < s.len() ==> lower(#[trigger] s[i]) == word[i] as u32
}

/// `c` is a plus or a minus sign.
pub open spec fn is_sign(c: char) -> bool {
    c == '+' || c == '-'
}

/// `s` without a sign at its start.
pub open spec fn unsigned_part(s: Seq<char>) -> Seq<char> {
    if s.len() > 0 && is_sign(s[0]) {
        s.skip(1)
    } else {
        s
    }
}

/// `s` is empty or an exponent: the letter e, an optional sign, and one or
/// more digits.
pub open spec fn is_exponent_or_empty(s: Seq<char>) -> bool {
    s.len() == 0 || (lower(s[0]) == 0x65 && unsigned_part(s.skip(1)).len() > 0 && all_digits(
        unsigned_part(s.skip(1)),
    ))
}

/// `s` is a decimal number: digits with an optional point among them, at
/// least one digit in all, and an optional exponent.
pub open spec fn is_number(s: Seq<char>) -> bool {
    let is_digit = |c: char| digit_value(c) < 10;
    let whole = leading(s, is_digit);
    let rest = s.skip(whole as int);
    if rest.len() > 0 && rest[0] == '.' {
        let fraction = leading(rest.skip(1), is_digit);
        whole + fraction > 0 && is_exponent_or_empty(rest.skip(1 + fraction as int))
    } else {
        whole > 0 && is_exponent_or_empty(rest)
    }
}

/// `s` writes a floating-point number: an optional sign and then a decimal
/// number or one of the words inf, infinity and nan, in any letter case.
pub open spec fn is_float_text(s: Seq<char>) -> bool {
    let body = unsigned_part(s);
    ||| reads_as(body, seq!['i', 'n', 'f'])
    ||| reads_as(body, seq!['i', 'n', 'f', 'i', 'n', 'i', 't', 'y'])
    ||| reads_as(body, seq!['n', 'a', 'n'])
    ||| is_number(body)
}

fn lower_case(c: char) -> (r: u32)
    ensures
        r == lower(c),
{
    let code = c as u32;
    if 0x41 <= code && code <= 0x5a {
        code + 0x20
    } else {
        code
    }
}

fn reads_word(text: &Vec<char>, from: usize, word: &Vec<char>) -> (r: bool)
    requires
        from <= text.len(),
    ensures
        r == reads_as(text@.skip(from as int), word@),
{
    let ghost s = text@.skip(from as int);
    if text.len() - from != word.len() {
        return false;
    }
    let mut i: usize = 0;
    while i < word.len()
        invariant
            i <= word.len(),
            from <= text.len(),
            text.len() - from == word.len(),
            s == text@.skip(from as int),
            forall|j: int| 0 <= j < i ==> lower(#[trigger] s[j]) == word@[j] as u32,
        decreases word.len() - i,
    {
        assert(s[i as int] == text@[from + i]);
        if lower_case(text[from + i]) != word[i] as u32 {
            return false;
        }
        i += 1;
    }
    true
}

fn is_digit_char(c: char) -> (r: bool)
    ensures
        r == (digit_value(c) < 10),
{
    let code = c as u32;
    0x30 <= code && code <= 0x39
}

/// The place behind the digits that start at `from`.
fn skip_digits(text: &Vec<char>, from: usize) -> (r: usize)
    requires
        from <= text.len(),
    ensures
        from <= r <= text.len(),
        r - from == leading(text@.skip(from as int), |c: char| digit_value(c) < 10),
        forall|i: int| from <= i < r ==> digit_value(#[trigger] text@[i]) < 10,
        r < text.len() ==> digit_value(text@[r as int]) >= 10,
{
    let ghost is_digit = |c: char| digit_value(c) < 10;
    let mut at: usize = from;
    while at < text.len() && is_digit_char(text[at])
        invariant
            from <= at <= text.len(),
            forall|i: int| from <= i < at ==> digit_value(#[trigger] text@[i]) < 10,
        decreases text.len() - at,
    {
        at += 1;
    }
    proof {
        let s = text@.skip(from as int);
        assert forall|i: int| 0 <= i < at - from implies is_digit(#[trigger] s[i]) by {
            assert(s[i] == text@[from + i]);
        }
        if at - from < s.len() {
            assert(s[at - from] == text@[at as int]);
        }
        lemma_leading_is(s, is_digit, (at - from) as nat);
    }
    at
}

fn exponent_or_empty(text: &Vec<char>, from: usize) -> (r: bool)
    requires
        from <= text.len(),
    ensures
        r == is_exponent_or_empty(text@.skip(from as int)),
{
    let ghost s = text@.skip(from as int);
    let n = text.len();
    if from == n {
        return true;
    }
    assert(s[0] == text@[from as int]);
    if lower_case(text[from]) != 0x65 {
        return false;
    }
    let mut at: usize = from + 1;
    let ghost tail = s.skip(1);
    assert(tail =~= text@.skip(from + 1));
    if at < n {
        assert(tail[0] == text@[at as int]);
        if text[at] == '+' || text[at] == '-' {
            at += 1;
        }
    }
    let ghost digits = unsigned_part(tail);
    assert(digits =~= text@.skip(at as int));
    if at == n {
        return false;
    }
    let end = skip_digits(text, at);
    proof {
        if end == n {
            assert forall|i: int| 0 <= i < digits.len() implies digit_value(#[trigger] digits[i])
                < 10 by {
                assert(digits[i] == text@[at + i]);
            }
        } else {
            assert(digits[end - at] == text@[end as int]);
        }
    }
    end == n
}

fn number(text: &Vec<char>, from: usize) -> (r: bool)
    requires
        from <= text.len(),
    ensures
        r == is_number(text@.skip(from as int)),
{
    let ghost s = text@.skip(from as int);
    let n = text.len();
    let after_whole = skip_digits(text, from);
    let ghost rest = s.skip(after_whole - from);
    assert(rest =~= text@.skip(after_whole as int));
    if after_whole < n {
        assert(rest[0] == text@[after_whole as int]);
    }
    if after_whole < n && text[after_whole] == '.' {
        let after_fraction = skip_digits(text, after_whole + 1);
        assert(rest.skip(1) =~= text@.skip(after_whole + 1));
        assert(rest.skip(1 + (after_fraction - after_whole - 1)) =~= text@.skip(
            after_fraction as int,
        ));
        let digits = (after_whole - from) + (after_fraction - after_whole - 1);
        let tail = exponent_or_empty(text, after_fraction);
        digits > 0 && tail
    } else {
        let tail = exponent_or_empty(text, after_whole);
        after_whole > from && tail
    }
}

/// Whether `text` writes a floating-point number.
pub fn float_text(text: &Vec<char>) -> (r: bool)
    ensures
        r == is_float_text(text@),
{
    let n = text.len();
    let from: usize = if n > 0 && (text[0] == '+' || text[0] == '-') {
        1
    } else {
        0
    };
    assert(unsigned_part(text@) =~= text@.skip(from as int));
    let mut inf: Vec<char> = Vec::new();
    inf.push('i');
    inf.push('n');
    inf.push('f');
    assert(inf@ =~= seq!['i', 'n', 'f']);
    let mut infinity: Vec<char> = Vec::new();
    infinity.push('i');
    infinity.push('n');
    infinity.push('f');
    infinity.push('i');
    infinity.push('n');
    infinity.push('i');
    infinity.push('t');
    infinity.push('y');
    assert(infinity@ =~= seq!['i', 'n', 'f', 'i', 'n', 'i', 't', 'y']);
    let mut nan: Vec<char> = Vec::new();
    nan.push('n');
    nan.push('a');
    nan.push('n');
    assert(nan@ =~= seq!['n', 'a', 'n']);
    reads_word(text, from, &inf) || reads_word(text, from, &infinity) || reads_word(text, from, &nan)
        || number(text, from)
}

/// A real number, as the decimal text that writes it.
#[derive(Debug)]
pub struct Real {
    text: String,
}

impl View for Real {
    type V = Seq<char>;

    closed spec fn view(&self) -> Seq<char> {
        self.text@
    }
}

impl DeepView for Real {
    type V = Seq<char>;

    open spec fn deep_view(&self) -> Seq<char> {
        self@
    }
}

impl Real {
    #[verifier::type_invariant]
    spec fn inv(self) -> bool {
        is_float_text(self.text@)
    }

    /// Reads a number: `None` unless the text writes a floating-point
    /// number.
    pub fn parse(text: &Vec<char>) -> (r: Option<Real>)
        ensures
            r is Some == is_float_text(text@),
            r is Some ==> r->0@ == text@,
    {
        if float_text(text) {
            Some(Real { text: string_of(text) })
        } else {
            None
        }
    }

    /// The number one.
    pub fn one() -> (r: Real)
        ensures
            r@ == seq!['1'],
    {
        let mut digits: Vec<char> = Vec::new();
        digits.push('1');
        proof {
            let s = digits@;
            let is_digit = |c: char| digit_value(c) < 10;
            assert(s =~= seq!['1']);
            assert(unsigned_part(s) == s);
            lemma_leading_is(s, is_digit, 1);
            assert(s.skip(1).len() == 0);
            assert(is_number(s));
        }
        Real { text: string_of(&digits) }
    }

    /// Reads a number from a string.
    pub fn from_text(text: &str) -> (r: Option<Real>)
        ensures
            r is Some == is_float_text(text@),
            r is Some ==> r->0@ == text@,
    {
        let chars = crate::chars::chars_of(text);
        Real::parse(&chars)
    }

    /// The text that writes the number. It always writes a floating-point
    /// number.
    pub fn text(&self) -> (r: &String)
        ensures
            r@ == self@,
            is_float_text(self@),
    {
        proof {
            use_type_invariant(self);
        }
        &self.text
    }

    /// A number written by the same text.
    pub fn duplicate(&self) -> (r: Real)
        ensures
            r@ == self@,
    {
        proof {
            use_type_invariant(self);
        }
        Real { text: self.text.clone() }
    }

    /// Whether two numbers are written by the same text.
    pub fn same(&self, other: &Real) -> (r: bool)
        ensures
            r == (self@ == other@),
    {
        self.text == other.text
    }
}

} // verus!
