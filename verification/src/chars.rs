//! Reading text character by character: splitting it at separators, trimming
//! white space, testing for prefixes, and reading unsigned numbers.

use vstd::prelude::*;
use vstd::string::*;

verus! {

/// `String::push` appends one character to the end of the string.
pub assume_specification[ String::push ](s: &mut String, ch: char)
    ensures
        final(s)@ == old(s)@.push(ch),
;

/// The characters of a text.
pub fn chars_of(s: &str) -> (r: Vec<char>)
    ensures
        r@ == s@,
{
    let mut out: Vec<char> = Vec::new();
    for c in it: s.chars()
        invariant
            out@ == it.seq().take(it.index() as int),
            it.seq() == s@,
    {
        out.push(c);
    }
    out
}

/// The text made of these characters.
pub fn string_of(chars: &Vec<char>) -> (r: String)
    ensures
        r@ == chars@,
{
    let mut out = String::new();
    let mut i: usize = 0;
    while i < chars.len()
        invariant
            i <= chars.len(),
            out@ == chars@.take(i as int),
        decreases chars.len() - i,
    {
        out.push(chars[i]);
        assert(chars@.take(i + 1) =~= chars@.take(i as int).push(chars@[i as int]));
        i += 1;
    }
    assert(chars@.take(chars.len() as int) =~= chars@);
    out
}

/// White space: the characters that trimming removes.
pub open spec fn is_space(c: char) -> bool {
    let code = c as u32;
    ||| 0x09 <= code <= 0x0d
    ||| code == 0x20
    ||| code == 0x85
    ||| code == 0xa0
    ||| code == 0x1680
    ||| 0x2000 <= code <= 0x200a
    ||| code == 0x2028
    ||| code == 0x2029
    ||| code == 0x202f
    ||| code == 0x205f
    ||| code == 0x3000
}

/// Whether `c` is white space.
pub fn space(c: char) -> (r: bool)
    ensures
        r == is_space(c),
{
    let code = c as u32;
    (0x09 <= code && code <= 0x0d) || code == 0x20 || code == 0x85 || code == 0xa0 || code == 0x1680
        || (0x2000 <= code && code <= 0x200a) || code == 0x2028 || code == 0x2029 || code == 0x202f
        || code == 0x205f || code == 0x3000
}

/// How many characters at the start of `s` satisfy `drop`.
pub open spec fn leading(s: Seq<char>, drop: spec_fn(char) -> bool) -> nat
    decreases s.len(),
{
    if s.len() > 0 && drop(s[0]) {
        1 + leading(s.drop_first(), drop)
    } else {
        0
    }
}

/// How many characters at the end of `s` satisfy `drop`.
pub open spec fn trailing(s: Seq<char>, drop: spec_fn(char) -> bool) -> nat
    decreases s.len(),
{
    if s.len() > 0 && drop(s.last()) {
        1 + trailing(s.drop_last(), drop)
    } else {
        0
    }
}

/// `s` without the characters at its start that satisfy `drop`.
pub open spec fn without_leading(s: Seq<char>, drop: spec_fn(char) -> bool) -> Seq<char> {
    s.skip(leading(s, drop) as int)
}

/// `s` without the characters at its end that satisfy `drop`.
pub open spec fn without_trailing(s: Seq<char>, drop: spec_fn(char) -> bool) -> Seq<char> {
    s.take(s.len() - trailing(s, drop))
}

/// `s` without the white space at its start and at its end.
pub open spec fn trimmed(s: Seq<char>) -> Seq<char> {
    without_trailing(without_leading(s, |c: char| is_space(c)), |c: char| is_space(c))
}

pub proof fn lemma_leading(s: Seq<char>, drop: spec_fn(char) -> bool)
    ensures
        leading(s, drop) <= s.len(),
        forall|i: int| 0 <= i < leading(s, drop) ==> drop(#[trigger] s[i]),
        leading(s, drop) < s.len() ==> !drop(s[leading(s, drop) as int]),
    decreases s.len(),
{
    if s.len() > 0 && drop(s[0]) {
        lemma_leading(s.drop_first(), drop);
        assert forall|i: int| 0 <= i < leading(s, drop) implies drop(#[trigger] s[i]) by {
            if i > 0 {
                assert(s[i] == s.drop_first()[i - 1]);
            }
        }
        if leading(s, drop) < s.len() {
            assert(s[leading(s, drop) as int] == s.drop_first()[leading(s, drop) - 1]);
        }
    }
}

pub proof fn lemma_trailing(s: Seq<char>, drop: spec_fn(char) -> bool)
    ensures
        trailing(s, drop) <= s.len(),
        forall|i: int| s.len() - trailing(s, drop) <= i < s.len() ==> drop(#[trigger] s[i]),
        trailing(s, drop) < s.len() ==> !drop(s[s.len() - trailing(s, drop) - 1]),
    decreases s.len(),
{
    if s.len() > 0 && drop(s.last()) {
        lemma_trailing(s.drop_last(), drop);
        assert forall|i: int| s.len() - trailing(s, drop) <= i < s.len() implies drop(
            #[trigger] s[i],
        ) by {
            if i < s.len() - 1 {
                assert(s[i] == s.drop_last()[i]);
            }
        }
        if trailing(s, drop) < s.len() {
            assert(s[s.len() - trailing(s, drop) - 1] == s.drop_last()[s.len() - trailing(s, drop)
                - 1]);
        }
    }
}

/// The number of leading characters to drop is the place of the first
/// character to keep.
pub proof fn lemma_leading_is(s: Seq<char>, drop: spec_fn(char) -> bool, n: nat)
    requires
        n <= s.len(),
        forall|i: int| 0 <= i < n ==> drop(#[trigger] s[i]),
        n < s.len() ==> !drop(s[n as int]),
    ensures
        leading(s, drop) == n,
{
    lemma_leading(s, drop);
    let m = leading(s, drop);
    if m < n {
        assert(drop(s[m as int]));
    } else if n < m {
        assert(drop(s[n as int]));
    }
}

/// The number of trailing characters to drop is what lies behind the last
/// character to keep.
pub proof fn lemma_trailing_is(s: Seq<char>, drop: spec_fn(char) -> bool, n: nat)
    requires
        n <= s.len(),
        forall|i: int| s.len() - n <= i < s.len() ==> drop(#[trigger] s[i]),
        n < s.len() ==> !drop(s[s.len() - n - 1]),
    ensures
        trailing(s, drop) == n,
{
    lemma_trailing(s, drop);
    let m = trailing(s, drop);
    if m < n {
        assert(drop(s[s.len() - m - 1]));
    } else if n < m {
        assert(drop(s[s.len() - n - 1]));
    }
}

/// The characters of `text` from `from` up to `to`.
pub fn slice(text: &Vec<char>, from: usize, to: usize) -> (r: Vec<char>)
    requires
        from <= to <= text.len(),
    ensures
        r@ == text@.subrange(from as int, to as int),
{
    let mut out: Vec<char> = Vec::new();
    let mut i: usize = from;
    while i < to
        invariant
            from <= i <= to,
            to <= text.len(),
            out@ == text@.subrange(from as int, i as int),
        decreases to - i,
    {
        out.push(text[i]);
        assert(text@.subrange(from as int, i + 1) =~= text@.subrange(from as int, i as int).push(
            text@[i as int],
        ));
        i += 1;
    }
    out
}

/// `text` without the white space at its start and at its end.
pub fn trim(text: &Vec<char>) -> (r: Vec<char>)
    ensures
        r@ == trimmed(text@),
{
    let ghost drop = |c: char| is_space(c);
    let n = text.len();
    let mut lo: usize = 0;
    while lo < n && space(text[lo])
        invariant
            lo <= n,
            n == text.len(),
            forall|i: int| 0 <= i < lo ==> is_space(#[trigger] text@[i]),
        decreases n - lo,
    {
        lo += 1;
    }
    let mut hi: usize = n;
    while hi > lo && space(text[hi - 1])
        invariant
            lo <= hi <= n,
            n == text.len(),
            forall|i: int| hi <= i < n ==> is_space(#[trigger] text@[i]),
        decreases hi,
    {
        hi -= 1;
    }
    proof {
        lemma_leading_is(text@, drop, lo as nat);
        let rest = text@.skip(lo as int);
        assert forall|i: int| rest.len() - (n - hi) <= i < rest.len() implies drop(
            #[trigger] rest[i],
        ) by {
            assert(rest[i] == text@[i + lo]);
        }
        if (n - hi) < rest.len() {
            assert(rest[rest.len() - (n - hi) - 1] == text@[hi - 1]);
        }
        lemma_trailing_is(rest, drop, (n - hi) as nat);
        assert(rest.take(rest.len() - (n - hi)) =~= text@.subrange(lo as int, hi as int));
    }
    slice(text, lo, hi)
}

/// `text` without the characters `c` at its end.
pub fn trim_end_matches(text: &Vec<char>, c: char) -> (r: Vec<char>)
    ensures
        r@ == without_trailing(text@, |x: char| x == c),
{
    let ghost drop = |x: char| x == c;
    let n = text.len();
    let mut hi: usize = n;
    while hi > 0 && text[hi - 1] == c
        invariant
            hi <= n,
            n == text.len(),
            forall|i: int| hi <= i < n ==> #[trigger] text@[i] == c,
        decreases hi,
    {
        hi -= 1;
    }
    proof {
        lemma_trailing_is(text@, drop, (n - hi) as nat);
        assert(text@.take(text@.len() - (n - hi)) =~= text@.subrange(0, hi as int));
    }
    slice(text, 0, hi)
}

/// `s` begins with `prefix`.
pub open spec fn has_prefix(s: Seq<char>, prefix: Seq<char>) -> bool {
    prefix.len() <= s.len() && s.take(prefix.len() as int) == prefix
}

/// Whether `text` begins with `prefix`.
pub fn starts_with(text: &Vec<char>, prefix: &str) -> (r: bool)
    ensures
        r == has_prefix(text@, prefix@),
{
    let want = chars_of(prefix);
    if want.len() > text.len() {
        return false;
    }
    let mut i: usize = 0;
    while i < want.len()
        invariant
            i <= want.len() <= text.len(),
            want@ == prefix@,
            forall|j: int| 0 <= j < i ==> text@[j] == want@[j],
        decreases want.len() - i,
    {
        if text[i] != want[i] {
            assert(text@.take(want.len() as int)[i as int] != want@[i as int]);
            return false;
        }
        i += 1;
    }
    assert(text@.take(want.len() as int) =~= want@);
    true
}

/// Whether `text` reads exactly as `word`.
pub fn reads(text: &Vec<char>, word: &str) -> (r: bool)
    ensures
        r == (text@ == word@),
{
    let want = chars_of(word);
    if want.len() != text.len() {
        return false;
    }
    let mut i: usize = 0;
    while i < want.len()
        invariant
            i <= want.len(),
            want.len() == text.len(),
            want@ == word@,
            forall|j: int| 0 <= j < i ==> text@[j] == want@[j],
        decreases want.len() - i,
    {
        if text[i] != want[i] {
            return false;
        }
        i += 1;
    }
    assert(text@ =~= want@);
    true
}

/// `at` is the place of the first `c` in `s`.
pub open spec fn first_at(s: Seq<char>, c: char, at: int) -> bool {
    &&& 0 <= at < s.len()
    &&& s[at] == c
    &&& forall|i: int| 0 <= i < at ==> s[i] != c
}

/// The place of the first `c` in `s`, if there is one.
pub open spec fn place(s: Seq<char>, c: char) -> Option<int> {
    if exists|i: int| first_at(s, c, i) {
        Some(choose|i: int| first_at(s, c, i))
    } else {
        None
    }
}

/// Only one place is the first.
pub proof fn lemma_first_at_unique(s: Seq<char>, c: char, i: int, j: int)
    requires
        first_at(s, c, i),
        first_at(s, c, j),
    ensures
        i == j,
{
}

/// The place of the first `c` in `text`, if there is one.
pub fn find(text: &Vec<char>, c: char) -> (r: Option<usize>)
    ensures
        match r {
            Some(at) => first_at(text@, c, at as int) && place(text@, c) == Some(at as int),
            None => !text@.contains(c) && place(text@, c) is None,
        },
{
    let mut i: usize = 0;
    while i < text.len()
        invariant
            i <= text.len(),
            forall|j: int| 0 <= j < i ==> text@[j] != c,
        decreases text.len() - i,
    {
        if text[i] == c {
            proof {
                assert(first_at(text@, c, i as int));
                let chosen = choose|k: int| first_at(text@, c, k);
                lemma_first_at_unique(text@, c, i as int, chosen);
            }
            return Some(i);
        }
        i += 1;
    }
    proof {
        if exists|k: int| first_at(text@, c, k) {
            let k = choose|k: int| first_at(text@, c, k);
            assert(text@[k] == c);
        }
    }
    None
}

/// The pieces of `s` between the characters that satisfy `sep`. A text
/// without separators is one piece; two separators in a row hold an empty
/// piece between them.
pub open spec fn split(s: Seq<char>, sep: spec_fn(char) -> bool) -> Seq<Seq<char>>
    decreases s.len(),
{
    if s.len() == 0 {
        seq![Seq::empty()]
    } else {
        let before = split(s.drop_last(), sep);
        if sep(s.last()) {
            before.push(Seq::empty())
        } else {
            before.update(before.len() - 1, before.last().push(s.last()))
        }
    }
}

pub proof fn lemma_split_nonempty(s: Seq<char>, sep: spec_fn(char) -> bool)
    ensures
        split(s, sep).len() >= 1,
    decreases s.len(),
{
    if s.len() > 0 {
        lemma_split_nonempty(s.drop_last(), sep);
    }
}

/// The pieces of `s` that are not empty.
pub open spec fn words(s: Seq<char>, sep: spec_fn(char) -> bool) -> Seq<Seq<char>> {
    split(s, sep).filter(|piece: Seq<char>| piece.len() > 0)
}

/// The views of a list of texts.
pub open spec fn views(pieces: Seq<Vec<char>>) -> Seq<Seq<char>> {
    Seq::new(pieces.len(), |i: int| pieces[i]@)
}

/// Whether `c` is one of `seps`.
pub fn one_of(seps: &Vec<char>, c: char) -> (r: bool)
    ensures
        r == seps@.contains(c),
{
    let mut i: usize = 0;
    while i < seps.len()
        invariant
            i <= seps.len(),
            forall|j: int| 0 <= j < i ==> seps@[j] != c,
        decreases seps.len() - i,
    {
        if seps[i] == c {
            return true;
        }
        i += 1;
    }
    false
}

/// The pieces of `text` between separators: the characters that are among
/// `seps` and, if `spaces` is set, white space.
pub fn split_by(text: &Vec<char>, seps: &Vec<char>, spaces: bool) -> (r: Vec<Vec<char>>)
    ensures
        views(r@) == split(text@, |c: char| seps@.contains(c) || (spaces && is_space(c))),
        r.len() >= 1,
{
    let ghost sep = |c: char| seps@.contains(c) || (spaces && is_space(c));
    let mut pieces: Vec<Vec<char>> = Vec::new();
    let mut current: Vec<char> = Vec::new();
    let mut i: usize = 0;
    assert(text@.take(0) =~= Seq::<char>::empty());
    assert(views(pieces@).push(current@) =~= split(text@.take(0), sep));
    while i < text.len()
        invariant
            i <= text.len(),
            sep == |c: char| seps@.contains(c) || (spaces && is_space(c)),
            views(pieces@).push(current@) == split(text@.take(i as int), sep),
        decreases text.len() - i,
    {
        let c = text[i];
        let ghost before = split(text@.take(i as int), sep);
        let ghost upto = text@.take(i + 1);
        assert(upto.drop_last() =~= text@.take(i as int));
        assert(upto.last() == c);
        if one_of(seps, c) || (spaces && space(c)) {
            pieces.push(current);
            current = Vec::new();
            assert(views(pieces@).push(current@) =~= before.push(Seq::empty()));
        } else {
            current.push(c);
            assert(views(pieces@).push(current@) =~= before.update(
                before.len() - 1,
                before.last().push(c),
            ));
        }
        i += 1;
    }
    assert(text@.take(text.len() as int) =~= text@);
    let ghost done = views(pieces@).push(current@);
    pieces.push(current);
    assert(views(pieces@) =~= done);
    pieces
}

/// The pieces of `text` between the characters that are among `seps`.
pub fn split_at(text: &Vec<char>, seps: &Vec<char>) -> (r: Vec<Vec<char>>)
    ensures
        views(r@) == split(text@, |c: char| seps@.contains(c)),
        r.len() >= 1,
{
    let spaces = false;
    let r = split_by(text, seps, spaces);
    proof {
        let wide = |c: char| seps@.contains(c) || (spaces && is_space(c));
        let narrow = |c: char| seps@.contains(c);
        assert forall|c: char| #[trigger] wide(c) == narrow(c) by {}
        assert(wide =~= narrow);
    }
    r
}

/// The pieces that are not empty.
fn not_empty(pieces: Vec<Vec<char>>) -> (r: Vec<Vec<char>>)
    ensures
        views(r@) == views(pieces@).filter(|piece: Seq<char>| piece.len() > 0),
{
    let ghost keep = |piece: Seq<char>| piece.len() > 0;
    let ghost all = views(pieces@);
    let mut out: Vec<Vec<char>> = Vec::new();
    let mut i: usize = 0;
    assert(all.take(0) =~= Seq::<Seq<char>>::empty());
    assert(views(out@) =~= all.take(0).filter(keep));
    while i < pieces.len()
        invariant
            i <= pieces.len(),
            all == views(pieces@),
            keep == |piece: Seq<char>| piece.len() > 0,
            views(out@) == all.take(i as int).filter(keep),
        decreases pieces.len() - i,
    {
        proof {
            let upto = all.take(i + 1);
            assert(upto.drop_last() =~= all.take(i as int));
            assert(upto.last() == pieces@[i as int]@);
            reveal(Seq::filter);
        }
        if pieces[i].len() > 0 {
            let ghost before = views(out@);
            let copy = slice(&pieces[i], 0, pieces[i].len());
            assert(copy@ =~= pieces@[i as int]@);
            out.push(copy);
            assert(views(out@) =~= before.push(pieces@[i as int]@));
        }
        i += 1;
    }
    assert(all.take(pieces.len() as int) =~= all);
    out
}

/// The pieces of `text` that are not empty.
pub fn words_of(text: &Vec<char>, seps: &Vec<char>) -> (r: Vec<Vec<char>>)
    ensures
        views(r@) == words(text@, |c: char| seps@.contains(c)),
{
    not_empty(split_at(text, seps))
}

/// The words of `text`: its pieces between white space that are not empty.
pub fn words_by_space(text: &Vec<char>) -> (r: Vec<Vec<char>>)
    ensures
        views(r@) == words(text@, |c: char| is_space(c)),
{
    let none: Vec<char> = Vec::new();
    let spaces = true;
    let pieces = split_by(text, &none, spaces);
    proof {
        let wide = |c: char| none@.contains(c) || (spaces && is_space(c));
        let narrow = |c: char| is_space(c);
        assert forall|c: char| #[trigger] wide(c) == narrow(c) by {}
        assert(wide =~= narrow);
    }
    not_empty(pieces)
}

/// The value of a decimal digit; 10 or more for any other character.
pub open spec fn digit_value(c: char) -> nat {
    let code = c as u32;
    if 0x30 <= code <= 0x39 {
        (code - 0x30) as nat
    } else {
        10
    }
}

/// Every character of `s` is a decimal digit.
pub open spec fn all_digits(s: Seq<char>) -> bool {
    forall|i: int| 0 <= i < s.len() ==> digit_value(#[trigger] s[i]) < 10
}

/// The number that the digits `s` write.
pub open spec fn digits_value(s: Seq<char>) -> nat
    decreases s.len(),
{
    if s.len() == 0 {
        0
    } else {
        digits_value(s.drop_last()) * 10 + digit_value(s.last())
    }
}

/// The unsigned number that `s` writes: an optional plus sign and one or
/// more decimal digits, with a value that fits. `None` for any other text.
pub open spec fn unsigned_of(s: Seq<char>) -> Option<usize> {
    let digits = if s.len() > 0 && s[0] == '+' {
        s.skip(1)
    } else {
        s
    };
    if digits.len() > 0 && all_digits(digits) && digits_value(digits) <= usize::MAX {
        Some(digits_value(digits) as usize)
    } else {
        None
    }
}

/// A number only grows as more digits follow.
pub proof fn lemma_digits_grow(s: Seq<char>, n: int)
    requires
        0 <= n <= s.len(),
    ensures
        digits_value(s.take(n)) <= digits_value(s),
    decreases s.len() - n,
{
    if n < s.len() {
        lemma_digits_grow(s, n + 1);
        assert(s.take(n + 1).drop_last() =~= s.take(n));
    } else {
        assert(s.take(n) =~= s);
    }
}

/// Why a text writes no unsigned number.
#[derive(Clone, Copy, Debug, PartialEq, Eq, Structural)]
pub enum IntFault {
    /// The text is empty.
    Empty,
    /// A character is no digit, or a sign stands alone.
    InvalidDigit,
    /// The number does not fit.
    Overflow,
}

/// The words in which a fault is reported.
pub open spec fn fault_text(fault: IntFault) -> Seq<char> {
    match fault {
        IntFault::Empty => "cannot parse integer from empty string"@,
        IntFault::InvalidDigit => "invalid digit found in string"@,
        IntFault::Overflow => "number too large to fit in target type"@,
    }
}

/// The words in which a fault is reported.
pub fn fault_message(fault: IntFault) -> (r: String)
    ensures
        r@ == fault_text(fault),
{
    match fault {
        IntFault::Empty => "cannot parse integer from empty string".to_owned(),
        IntFault::InvalidDigit => "invalid digit found in string".to_owned(),
        IntFault::Overflow => "number too large to fit in target type".to_owned(),
    }
}

/// Reading the first `n` of `digits` from the left: the number they write,
/// or the first fault met.
pub open spec fn scanned(digits: Seq<char>, n: nat) -> Result<nat, IntFault>
    decreases n,
{
    if n == 0 {
        Ok(0)
    } else {
        match scanned(digits, (n - 1) as nat) {
            Err(fault) => Err(fault),
            Ok(value) => if digit_value(digits[n - 1]) >= 10 {
                Err(IntFault::InvalidDigit)
            } else if value * 10 + digit_value(digits[n - 1]) > usize::MAX {
                Err(IntFault::Overflow)
            } else {
                Ok(value * 10 + digit_value(digits[n - 1]))
            },
        }
    }
}

/// The unsigned number that `s` writes, or why it writes none: the first
/// fault met from the left.
pub open spec fn unsigned_result(s: Seq<char>) -> Result<usize, IntFault> {
    let digits = if s.len() > 0 && s[0] == '+' {
        s.skip(1)
    } else {
        s
    };
    if s.len() == 0 {
        Err(IntFault::Empty)
    } else if digits.len() == 0 {
        Err(IntFault::InvalidDigit)
    } else {
        match scanned(digits, digits.len()) {
            Ok(value) => Ok(value as usize),
            Err(fault) => Err(fault),
        }
    }
}

/// Reads an unsigned number, or says why there is none.
pub fn parse_unsigned_checked(text: &Vec<char>) -> (r: Result<usize, IntFault>)
    ensures
        r == unsigned_result(text@),
        match r {
            Ok(value) => unsigned_of(text@) == Some(value),
            Err(_) => unsigned_of(text@) is None,
        },
{
    let n = text.len();
    if n == 0 {
        return Err(IntFault::Empty);
    }
    let start: usize = if text[0] == '+' {
        1
    } else {
        0
    };
    let ghost digits = text@.skip(start as int);
    proof {
        if start == 0 {
            assert(text@.skip(0) =~= text@);
        }
    }
    if start == n {
        return Err(IntFault::InvalidDigit);
    }
    let mut value: usize = 0;
    let mut i: usize = start;
    assert(digits.take(0) =~= Seq::<char>::empty());
    while i < n
        invariant
            start <= i <= n,
            start < n,
            n == text.len(),
            digits == text@.skip(start as int),
            digits == (if text@.len() > 0 && text@[0] == '+' {
                text@.skip(1)
            } else {
                text@
            }),
            all_digits(digits.take(i - start)),
            value == digits_value(digits.take(i - start)),
            scanned(digits, (i - start) as nat) == Ok::<nat, IntFault>(value as nat),
        decreases n - i,
    {
        let code = text[i] as u32;
        let ghost upto = digits.take(i + 1 - start);
        assert(upto.drop_last() =~= digits.take(i - start));
        assert(upto.last() == text@[i as int]);
        assert(digits[i - start] == text@[i as int]);
        if code < 0x30 || code > 0x39 {
            assert(digit_value(digits[i - start]) >= 10);
            assert(!all_digits(digits));
            proof {
                lemma_scan_stays(digits, (i + 1 - start) as nat, digits.len());
            }
            return Err(IntFault::InvalidDigit);
        }
        let d = (code - 0x30) as usize;
        proof {
            lemma_digits_grow(digits, i + 1 - start);
        }
        if value > (usize::MAX - d) / 10 {
            assert(digits_value(upto) > usize::MAX) by (nonlinear_arith)
                requires
                    digits_value(upto) == value * 10 + d,
                    value > (usize::MAX - d) / 10,
                    d < 10,
            ;
            assert(digits_value(digits) > usize::MAX);
            proof {
                lemma_scan_stays(digits, (i + 1 - start) as nat, digits.len());
            }
            return Err(IntFault::Overflow);
        }
        assert(value * 10 + d <= usize::MAX) by (nonlinear_arith)
            requires
                value <= (usize::MAX - d) / 10,
                d < 10,
        ;
        value = value * 10 + d;
        assert(all_digits(upto)) by {
            assert forall|j: int| 0 <= j < upto.len() implies digit_value(#[trigger] upto[j]) < 10 by {
                if j < upto.len() - 1 {
                    assert(upto[j] == digits.take(i - start)[j]);
                }
            }
        }
        i += 1;
    }
    assert(digits.take(n - start) =~= digits);
    Ok(value)
}

/// Once a fault is met, reading on does not change it.
pub proof fn lemma_scan_stays(digits: Seq<char>, n: nat, m: nat)
    requires
        n <= m,
        scanned(digits, n) is Err,
    ensures
        scanned(digits, m) == scanned(digits, n),
    decreases m - n,
{
    if n < m {
        lemma_scan_stays(digits, n, (m - 1) as nat);
    }
}

/// Reads an unsigned number.
pub fn parse_unsigned(text: &Vec<char>) -> (r: Option<usize>)
    ensures
        r == unsigned_of(text@),
{
    match parse_unsigned_checked(text) {
        Ok(value) => Some(value),
        Err(_) => None,
    }
}

} // verus!
