//! Reading the text that the operating system's sources hold: trimming of
//! white space, splitting into fields, and unsigned numbers.

use vstd::prelude::*;
use vstd::slice::slice_subrange;
use vstd::arithmetic::div_mod::lemma_fundamental_div_mod;
use vstd::arithmetic::div_mod::lemma_fundamental_div_mod_converse;

verus! {

/// The line feed, which ends a line.
pub const LINE_FEED: char = '\n';

/// The space, which parts the words of a line.
pub const SPACE: char = ' ';

/// The colon, which parts a label from its value.
pub const COLON: char = ':';

/// The point of a decimal number.
pub const POINT: char = '.';

/// The plus sign that may lead a number.
pub const PLUS: char = '+';

/// White space: the characters that Unicode gives the property `White_Space`.
pub open spec fn is_blank(c: char) -> bool {
    ||| '\u{9}' <= c && c <= '\u{d}'
    ||| c == ' '
    ||| c == '\u{85}'
    ||| c == '\u{a0}'
    ||| c == '\u{1680}'
    ||| '\u{2000}' <= c && c <= '\u{200a}'
    ||| c == '\u{2028}'
    ||| c == '\u{2029}'
    ||| c == '\u{202f}'
    ||| c == '\u{205f}'
    ||| c == '\u{3000}'
}

/// The digits `0` to `9`.
pub open spec fn is_digit(c: char) -> bool {
    '0' <= c && c <= '9'
}

/// What a digit counts for; a character that is no digit counts for nothing.
pub open spec fn digit_value(c: char) -> nat {
    if is_digit(c) {
        (c as u32 - 0x30) as nat
    } else {
        0
    }
}

/// `s` without its leading white space.
pub open spec fn skip_blanks(s: Seq<char>) -> Seq<char>
    decreases s.len(),
{
    if s.len() > 0 && is_blank(s[0]) {
        skip_blanks(s.drop_first())
    } else {
        s
    }
}

/// `s` without its trailing white space.
pub open spec fn drop_blanks(s: Seq<char>) -> Seq<char>
    decreases s.len(),
{
    if s.len() > 0 && is_blank(s.last()) {
        drop_blanks(s.drop_last())
    } else {
        s
    }
}

/// `s` without the white space at both ends.
pub open spec fn trimmed(s: Seq<char>) -> Seq<char> {
    drop_blanks(skip_blanks(s))
}

/// The pieces of `s` between occurrences of `sep`, in order. There is always
/// at least one piece; a separator at either end leaves an empty piece there.
pub open spec fn fields(s: Seq<char>, sep: char) -> Seq<Seq<char>>
    decreases s.len(),
{
    if s.len() == 0 {
        seq![Seq::<char>::empty()]
    } else {
        let before = fields(s.drop_last(), sep);
        if s.last() == sep {
            before.push(Seq::<char>::empty())
        } else {
            before.drop_last().push(before.last().push(s.last()))
        }
    }
}

/// The lines of a text: its pieces between line feeds.
pub open spec fn lines(s: Seq<char>) -> Seq<Seq<char>> {
    fields(s, LINE_FEED)
}

/// The first word of a text: what stands before the first space, once the
/// white space around the text is gone.
pub open spec fn first_word(s: Seq<char>) -> Seq<char> {
    fields(trimmed(s), SPACE)[0]
}

/// Whether `s` begins with `prefix`.
pub open spec fn starts_with(s: Seq<char>, prefix: Seq<char>) -> bool {
    prefix.len() <= s.len() && s.take(prefix.len() as int) == prefix
}

/// Whether every character of `s` is a digit.
pub open spec fn all_digits(s: Seq<char>) -> bool {
    forall|i: int| 0 <= i < s.len() ==> is_digit(#[trigger] s[i])
}

/// The number that results from writing the digits `s` behind the number
/// `acc`.
pub open spec fn extend_value(acc: nat, s: Seq<char>) -> nat
    decreases s.len(),
{
    if s.len() == 0 {
        acc
    } else {
        extend_value(acc, s.drop_last()) * 10 + digit_value(s.last())
    }
}

/// The number that the digits `s` write in base ten.
pub open spec fn digits_value(s: Seq<char>) -> nat {
    extend_value(0, s)
}

/// `s` without a leading plus sign.
pub open spec fn unsigned_body(s: Seq<char>) -> Seq<char> {
    if s.len() > 0 && s[0] == PLUS {
        s.drop_first()
    } else {
        s
    }
}

/// The unsigned whole number that `s` writes: an optional plus sign, then one
/// or more digits whose value fits 64 bits. Anything else writes no number.
pub open spec fn unsigned_of(s: Seq<char>) -> Option<u64> {
    let body = unsigned_body(s);
    if body.len() > 0 && all_digits(body) && digits_value(body) <= u64::MAX {
        Some(digits_value(body) as u64)
    } else {
        None
    }
}

/// Ten to the power `n`.
pub open spec fn pow10(n: nat) -> nat
    decreases n,
{
    if n == 0 {
        1
    } else {
        10 * pow10((n - 1) as nat)
    }
}

/// The digits of the decimal number that `s` writes, those before the point
/// and those behind it: an optional plus sign, then digits with at most one
/// point among them, and at least one digit in all. Anything else writes no
/// decimal number.
pub open spec fn decimal_parts(s: Seq<char>) -> Option<(Seq<char>, Seq<char>)> {
    let parts = fields(unsigned_body(s), POINT);
    let whole = parts[0];
    let fraction = if parts.len() == 2 {
        parts[1]
    } else {
        Seq::<char>::empty()
    };
    if parts.len() <= 2 && whole.len() + fraction.len() > 0 && all_digits(whole) && all_digits(
        fraction,
    ) {
        Some((whole, fraction))
    } else {
        None
    }
}

/// The decimal number with the digits `whole` before the point and `fraction`
/// behind it, counted in thousandths; what lies beyond the third place is cut
/// off.
pub open spec fn thousandths(whole: Seq<char>, fraction: Seq<char>) -> nat {
    (1000 * digits_value(whole + fraction)) / pow10(fraction.len())
}

/// What the digit at place `i` of `s` counts for, and nothing where `s` has
/// no such place.
pub open spec fn digit_at(s: Seq<char>, i: int) -> nat {
    if 0 <= i < s.len() {
        digit_value(s[i])
    } else {
        0
    }
}

/// The first three digits of `s` read as one number, zeros standing in for
/// the digits that `s` lacks.
pub open spec fn leading_thousandths(s: Seq<char>) -> nat {
    100 * digit_at(s, 0) + 10 * digit_at(s, 1) + digit_at(s, 2)
}

/// Why a text gives no decimal number.
#[derive(Clone, Copy, Debug, PartialEq, Eq, Structural)]
pub enum Misread {
    /// The text does not write a decimal number.
    Malformed,
    /// The number's whole part does not fit 64 bits.
    TooLarge,
}

/// How a decimal text reads: in thousandths where its whole part fits 64
/// bits.
pub open spec fn thousandths_of(s: Seq<char>) -> Result<u128, Misread> {
    match decimal_parts(s) {
        None => Err(Misread::Malformed),
        Some((whole, fraction)) => if digits_value(whole) > u64::MAX {
            Err(Misread::TooLarge)
        } else {
            Ok(thousandths(whole, fraction) as u128)
        },
    }
}

/// Every power of ten is positive.
pub proof fn lemma_pow10_positive(n: nat)
    ensures
        pow10(n) > 0,
    decreases n,
{
    if n > 0 {
        lemma_pow10_positive((n - 1) as nat);
    }
}

/// Writing more digits behind a number never makes it smaller.
pub proof fn lemma_extend_value_grows(acc: nat, s: Seq<char>, k: int)
    requires
        0 <= k <= s.len(),
    ensures
        acc <= extend_value(acc, s.take(k)) <= extend_value(acc, s),
    decreases s.len(),
{
    if s.len() == 0 {
        assert(s.take(k) =~= s);
    } else if k == s.len() {
        assert(s.take(k) =~= s);
        lemma_extend_value_grows(acc, s.drop_last(), 0);
    } else {
        assert(s.drop_last().take(k) =~= s.take(k));
        lemma_extend_value_grows(acc, s.drop_last(), k);
    }
}

/// Writing `a` and then `b` behind a number is writing `a + b` behind it.
pub proof fn lemma_extend_value_concat(acc: nat, a: Seq<char>, b: Seq<char>)
    ensures
        extend_value(acc, a + b) == extend_value(extend_value(acc, a), b),
    decreases b.len(),
{
    if b.len() == 0 {
        assert(a + b =~= a);
    } else {
        assert((a + b).drop_last() =~= a + b.drop_last());
        assert((a + b).last() == b.last());
        lemma_extend_value_concat(acc, a, b.drop_last());
    }
}

/// Digits written behind a number shift it left by as many places and fill
/// the places with their own value.
pub proof fn lemma_extend_value_shift(acc: nat, s: Seq<char>)
    ensures
        extend_value(acc, s) == acc * pow10(s.len()) + digits_value(s),
        digits_value(s) < pow10(s.len()),
    decreases s.len(),
{
    if s.len() > 0 {
        let rest = s.drop_last();
        lemma_extend_value_shift(acc, rest);
        lemma_extend_value_shift(0, rest);
        let p = pow10(rest.len());
        let full = pow10(s.len());
        assert(full == 10 * p);
        assert(acc * full == 10 * (acc * p)) by (nonlinear_arith)
            requires
                full == 10 * p,
        ;
        assert(extend_value(acc, rest) == acc * p + digits_value(rest));
        assert(extend_value(0, rest) == digits_value(rest));
        assert(extend_value(acc, s) == extend_value(acc, rest) * 10 + digit_value(s.last()));
        assert(digits_value(s) == digits_value(rest) * 10 + digit_value(s.last()));
    } else {
        assert(acc * 1 == acc);
    }
}

/// The digits behind the point, counted in thousandths, are their first three
/// digits; the rest is less than one thousandth.
proof fn lemma_leading_thousandths(fraction: Seq<char>)
    ensures
        (1000 * digits_value(fraction)) / pow10(fraction.len()) == leading_thousandths(fraction),
        leading_thousandths(fraction) < 1000,
{
    let k = fraction.len();
    let p = pow10(k);
    let f = digits_value(fraction);
    let t = leading_thousandths(fraction);
    reveal_with_fuel(extend_value, 4);
    reveal_with_fuel(pow10, 4);
    if k == 0 {
        assert(f == 0 && p == 1 && t == 0);
        lemma_fundamental_div_mod_converse((1000 * f) as int, p as int, t as int, 0);
    } else if k == 1 {
        assert(fraction.drop_last().len() == 0);
        assert(fraction.last() == fraction[0]);
        assert(f == digit_at(fraction, 0));
        assert(p == 10);
        lemma_fundamental_div_mod_converse((1000 * f) as int, p as int, t as int, 0);
    } else if k == 2 {
        let one = fraction.drop_last();
        assert(one.drop_last().len() == 0);
        assert(one.last() == fraction[0]);
        assert(fraction.last() == fraction[1]);
        assert(f == 10 * digit_at(fraction, 0) + digit_at(fraction, 1));
        assert(p == 100);
        lemma_fundamental_div_mod_converse((1000 * f) as int, p as int, t as int, 0);
    } else {
        let head = fraction.take(3);
        let tail = fraction.skip(3);
        assert(head + tail =~= fraction);
        lemma_extend_value_concat(0, head, tail);
        lemma_extend_value_shift(digits_value(head), tail);
        let two = head.drop_last();
        let one = two.drop_last();
        assert(one.drop_last().len() == 0);
        assert(one.last() == fraction[0]);
        assert(two.last() == fraction[1]);
        assert(head.last() == fraction[2]);
        assert(digits_value(one) == digit_at(fraction, 0));
        assert(digits_value(two) == 10 * digit_at(fraction, 0) + digit_at(fraction, 1));
        assert(digits_value(head) == t);
        let q = pow10(tail.len());
        let g = digits_value(tail);
        assert(p == 1000 * q);
        assert(f == t * q + g);
        assert(g < q);
        assert(1000 * f == p * t + 1000 * g) by (nonlinear_arith)
            requires
                f == t * q + g,
                p == 1000 * q,
        ;
        lemma_fundamental_div_mod_converse(
            (1000 * f) as int,
            p as int,
            t as int,
            (1000 * g) as int,
        );
    }
}

/// A decimal number in thousandths is a thousand times its whole part, and
/// its first three digits behind the point.
pub proof fn lemma_thousandths(whole: Seq<char>, fraction: Seq<char>)
    ensures
        thousandths(whole, fraction) == 1000 * digits_value(whole) + leading_thousandths(
            fraction,
        ),
        leading_thousandths(fraction) < 1000,
{
    let p = pow10(fraction.len());
    let w = digits_value(whole);
    let f = digits_value(fraction);
    let t = leading_thousandths(fraction);
    lemma_pow10_positive(fraction.len());
    lemma_extend_value_concat(0, whole, fraction);
    lemma_extend_value_shift(w, fraction);
    lemma_leading_thousandths(fraction);
    lemma_fundamental_div_mod((1000 * f) as int, p as int);
    let r = (1000 * f) % p;
    assert(1000 * (w * p + f) == p * (1000 * w + t) + r) by (nonlinear_arith)
        requires
            1000 * f == p * t + r,
    ;
    lemma_fundamental_div_mod_converse(
        (1000 * digits_value(whole + fraction)) as int,
        p as int,
        (1000 * w + t) as int,
        r as int,
    );
}

/// Skipping the leading white space drops a run of white space from the front
/// and stops at the first character that is none.
pub proof fn lemma_skip_blanks(s: Seq<char>)
    ensures
        skip_blanks(s).len() <= s.len(),
        skip_blanks(s) == s.skip(s.len() - skip_blanks(s).len()),
        forall|i: int| 0 <= i < s.len() - skip_blanks(s).len() ==> is_blank(#[trigger] s[i]),
        skip_blanks(s).len() > 0 ==> !is_blank(skip_blanks(s).first()),
    decreases s.len(),
{
    if s.len() > 0 && is_blank(s[0]) {
        let rest = s.drop_first();
        lemma_skip_blanks(rest);
        let k = rest.len() - skip_blanks(rest).len();
        assert(rest.skip(k) =~= s.skip(k + 1));
        assert forall|i: int| 0 <= i < k + 1 implies is_blank(#[trigger] s[i]) by {
            if i > 0 {
                assert(s[i] == rest[i - 1]);
            }
        }
    } else {
        assert(s.skip(0) =~= s);
    }
}

/// Dropping the trailing white space drops a run of white space from the back
/// and stops at the last character that is none.
pub proof fn lemma_drop_blanks(s: Seq<char>)
    ensures
        drop_blanks(s).len() <= s.len(),
        drop_blanks(s) == s.take(drop_blanks(s).len() as int),
        forall|i: int| drop_blanks(s).len() <= i < s.len() ==> is_blank(#[trigger] s[i]),
        drop_blanks(s).len() > 0 ==> !is_blank(drop_blanks(s).last()),
    decreases s.len(),
{
    if s.len() > 0 && is_blank(s.last()) {
        let rest = s.drop_last();
        lemma_drop_blanks(rest);
        let k = drop_blanks(rest).len() as int;
        assert(rest.take(k) =~= s.take(k));
        assert forall|i: int| k <= i < s.len() implies is_blank(#[trigger] s[i]) by {
            if i < rest.len() {
                assert(s[i] == rest[i]);
            }
        }
    } else {
        assert(s.take(s.len() as int) =~= s);
    }
}

/// What trimming leaves is the one stretch of the text that has nothing but
/// white space before it and behind it, and white space at neither of its
/// own ends.
pub proof fn lemma_trimmed_edges(s: Seq<char>)
    ensures
        trimmed(s).len() <= skip_blanks(s).len() <= s.len(),
        trimmed(s) == s.subrange(
            s.len() - skip_blanks(s).len(),
            s.len() - skip_blanks(s).len() + trimmed(s).len(),
        ),
        forall|i: int| 0 <= i < s.len() - skip_blanks(s).len() ==> is_blank(#[trigger] s[i]),
        forall|i: int|
            s.len() - skip_blanks(s).len() + trimmed(s).len() <= i < s.len() ==> is_blank(
                #[trigger] s[i],
            ),
        trimmed(s).len() > 0 ==> !is_blank(trimmed(s).first()) && !is_blank(trimmed(s).last()),
{
    let t = skip_blanks(s);
    let k = s.len() - t.len();
    lemma_skip_blanks(s);
    lemma_drop_blanks(t);
    let n = trimmed(s).len() as int;
    assert(t.take(n) =~= s.subrange(k, k + n));
    assert forall|i: int| k + n <= i < s.len() implies is_blank(#[trigger] s[i]) by {
        assert(s[i] == t[i - k]);
    }
    if n > 0 {
        assert(trimmed(s).first() == t.first());
    }
}

/// The text that results from putting `sep` between the pieces.
pub open spec fn joined(pieces: Seq<Seq<char>>, sep: char) -> Seq<char>
    decreases pieces.len(),
{
    if pieces.len() == 0 {
        Seq::<char>::empty()
    } else if pieces.len() == 1 {
        pieces[0]
    } else {
        joined(pieces.drop_last(), sep).push(sep) + pieces.last()
    }
}

/// Splitting loses nothing and leaves no separator behind: there is at least
/// one field, no field holds the separator, and the fields put together with
/// the separator between them are the text again.
pub proof fn lemma_fields_rejoin(s: Seq<char>, sep: char)
    ensures
        fields(s, sep).len() >= 1,
        forall|k: int| 0 <= k < fields(s, sep).len() ==> !(#[trigger] fields(s, sep)[k]).contains(sep),
        joined(fields(s, sep), sep) == s,
    decreases s.len(),
{
    if s.len() == 0 {
        assert(joined(fields(s, sep), sep) =~= s);
    } else {
        let rest = s.drop_last();
        let before = fields(rest, sep);
        lemma_fields_rejoin(rest, sep);
        assert(rest.push(s.last()) =~= s);
        if s.last() == sep {
            let after = before.push(Seq::<char>::empty());
            assert(after.drop_last() =~= before);
            assert(joined(after, sep) =~= s);
            assert forall|k: int| 0 <= k < after.len() implies !(#[trigger] after[k]).contains(
                sep,
            ) by {
                if k < before.len() {
                    assert(after[k] == before[k]);
                }
            }
        } else {
            let grown = before.last().push(s.last());
            let after = before.drop_last().push(grown);
            assert(!grown.contains(sep)) by {
                assert forall|i: int| 0 <= i < grown.len() implies grown[i] != sep by {
                    if i < before.last().len() {
                        assert(before.last().contains(before.last()[i]));
                    }
                }
            }
            assert forall|k: int| 0 <= k < after.len() implies !(#[trigger] after[k]).contains(
                sep,
            ) by {
                if k < before.len() - 1 {
                    assert(after[k] == before[k]);
                }
            }
            if before.len() == 1 {
                assert(joined(after, sep) =~= s);
            } else {
                assert(after.drop_last() =~= before.drop_last());
                assert(joined(after, sep) =~= s);
            }
        }
    }
}

/// A text that holds no separator is one field.
pub proof fn lemma_fields_of_one(s: Seq<char>, sep: char)
    requires
        !s.contains(sep),
    ensures
        fields(s, sep) == seq![s],
    decreases s.len(),
{
    if s.len() == 0 {
        assert(s =~= Seq::<char>::empty());
    } else {
        let rest = s.drop_last();
        assert forall|i: int| 0 <= i < rest.len() implies rest[i] != sep by {
            assert(rest[i] == s[i]);
            assert(s.contains(s[i]));
        }
        assert(s.contains(s.last()));
        lemma_fields_of_one(rest, sep);
        assert(seq![rest].drop_last().push(rest.push(s.last())) =~= seq![s]) by {
            assert(rest.push(s.last()) =~= s);
        }
    }
}

/// The fields of two texts joined by a separator are the fields of the first,
/// then the fields of the second.
pub proof fn lemma_fields_joined(a: Seq<char>, b: Seq<char>, sep: char)
    ensures
        fields(a.push(sep) + b, sep) == fields(a, sep) + fields(b, sep),
    decreases b.len(),
{
    let joined = a.push(sep) + b;
    if b.len() == 0 {
        assert(joined =~= a.push(sep));
        assert(a.push(sep).drop_last() =~= a);
        assert(fields(a, sep).push(Seq::<char>::empty()) =~= fields(a, sep) + fields(b, sep));
    } else {
        let rest = b.drop_last();
        assert(joined.drop_last() =~= a.push(sep) + rest);
        assert(joined.last() == b.last());
        lemma_fields_joined(a, rest, sep);
        let before = fields(a, sep) + fields(rest, sep);
        if b.last() == sep {
            assert(before.push(Seq::<char>::empty()) =~= fields(a, sep) + fields(b, sep));
        } else {
            assert(before.last() == fields(rest, sep).last());
            assert(before.drop_last() =~= fields(a, sep) + fields(rest, sep).drop_last());
            assert(before.drop_last().push(before.last().push(b.last())) =~= fields(a, sep)
                + fields(b, sep));
        }
    }
}

/// Tells whether a character is white space.
pub fn blank(c: char) -> (r: bool)
    ensures
        r == is_blank(c),
{
    ('\u{9}' <= c && c <= '\u{d}') || c == ' ' || c == '\u{85}' || c == '\u{a0}' || c
        == '\u{1680}' || ('\u{2000}' <= c && c <= '\u{200a}') || c == '\u{2028}' || c
        == '\u{2029}' || c == '\u{202f}' || c == '\u{205f}' || c == '\u{3000}'
}

/// The characters of a text, one by one.
pub fn chars_of(text: &str) -> (v: Vec<char>)
    ensures
        v@ == text@,
{
    let mut v: Vec<char> = Vec::new();
    for c in it: text.chars()
        invariant
            v@ == it.seq().take(it.index()),
            it.seq() == text@,
    {
        v.push(c);
    }
    v
}

/// Where `s` without the white space at both ends begins and ends.
pub fn trim_bounds(s: &[char]) -> (bounds: (usize, usize))
    ensures
        bounds.0 <= bounds.1 <= s@.len(),
        bounds.0 == s@.len() - skip_blanks(s@).len(),
        bounds.1 == bounds.0 + trimmed(s@).len(),
        s@.subrange(bounds.0 as int, bounds.1 as int) == trimmed(s@),
{
    let n: usize = s.len();
    let mut start: usize = 0;
    assert(s@.subrange(0, n as int) =~= s@);
    while start < n && blank(s[start])
        invariant
            start <= n,
            n == s@.len(),
            skip_blanks(s@) == skip_blanks(s@.subrange(start as int, n as int)),
        decreases n - start,
    {
        assert(s@.subrange(start as int, n as int).drop_first() =~= s@.subrange(
            start + 1,
            n as int,
        ));
        start = start + 1;
    }
    let mut end: usize = n;
    while end > start && blank(s[end - 1])
        invariant
            start <= end <= n,
            n == s@.len(),
            drop_blanks(s@.subrange(start as int, n as int)) == drop_blanks(
                s@.subrange(start as int, end as int),
            ),
        decreases end - start,
    {
        assert(s@.subrange(start as int, end as int).drop_last() =~= s@.subrange(
            start as int,
            end - 1,
        ));
        end = end - 1;
    }
    (start, end)
}

/// Strips the white space from both ends of `s`.
pub fn trim(s: &[char]) -> (r: &[char])
    ensures
        r@ == trimmed(s@),
{
    let (start, end) = trim_bounds(s);
    slice_subrange(s, start, end)
}

/// The first word of `s`.
pub fn leading_word(s: &[char]) -> (r: &[char])
    ensures
        r@ == first_word(s@),
{
    let words: Vec<&[char]> = split(trim(s), SPACE);
    words[0]
}

/// Splits `s` at every occurrence of `sep`.
pub fn split<'a>(s: &'a [char], sep: char) -> (pieces: Vec<&'a [char]>)
    ensures
        pieces@.len() == fields(s@, sep).len(),
        forall|k: int| 0 <= k < pieces@.len() ==> (#[trigger] pieces@[k])@ == fields(s@, sep)[k],
{
    let n: usize = s.len();
    let mut pieces: Vec<&'a [char]> = Vec::new();
    let mut start: usize = 0;
    let mut at: usize = 0;
    assert(s@.take(0) =~= Seq::<char>::empty());
    assert(s@.subrange(0, 0) =~= Seq::<char>::empty());
    while at < n
        invariant
            start <= at <= n,
            n == s@.len(),
            fields(s@.take(at as int), sep).len() == pieces@.len() + 1,
            forall|k: int|
                0 <= k < pieces@.len() ==> (#[trigger] pieces@[k])@ == fields(
                    s@.take(at as int),
                    sep,
                )[k],
            fields(s@.take(at as int), sep).last() == s@.subrange(start as int, at as int),
        decreases n - at,
    {
        proof {
            assert(s@.take(at + 1).drop_last() =~= s@.take(at as int));
            assert(s@.take(at + 1).last() == s@[at as int]);
            assert(s@.subrange(start as int, at as int).push(s@[at as int]) =~= s@.subrange(
                start as int,
                at + 1,
            ));
            assert(s@.subrange(at + 1, at + 1) =~= Seq::<char>::empty());
        }
        if s[at] == sep {
            pieces.push(slice_subrange(s, start, at));
            start = at + 1;
        }
        at = at + 1;
    }
    assert(s@.take(n as int) =~= s@);
    pieces.push(slice_subrange(s, start, n));
    pieces
}

/// Tells whether `s` begins with `prefix`.
pub fn has_prefix(s: &[char], prefix: &[char]) -> (r: bool)
    ensures
        r == starts_with(s@, prefix@),
{
    let n: usize = prefix.len();
    if s.len() < n {
        return false;
    }
    let mut at: usize = 0;
    while at < n
        invariant
            at <= n,
            n == prefix@.len(),
            n <= s@.len(),
            s@.take(at as int) == prefix@.take(at as int),
        decreases n - at,
    {
        if s[at] != prefix[at] {
            assert(s@.take(n as int)[at as int] != prefix@[at as int]);
            return false;
        }
        assert(s@.take(at + 1) =~= s@.take(at as int).push(s@[at as int]));
        assert(prefix@.take(at + 1) =~= prefix@.take(at as int).push(prefix@[at as int]));
        at = at + 1;
    }
    assert(prefix@.take(n as int) =~= prefix@);
    true
}

/// Writes the digits `s` behind the number `acc`, where every character of `s` is a
/// digit and the result fits 64 bits.
pub fn extend_number(acc: u64, s: &[char]) -> (r: Option<u64>)
    ensures
        r == if all_digits(s@) && extend_value(acc as nat, s@) <= u64::MAX {
            Some(extend_value(acc as nat, s@) as u64)
        } else {
            None
        },
{
    let n: usize = s.len();
    let mut value: u64 = acc;
    let mut at: usize = 0;
    assert(s@.take(0) =~= Seq::<char>::empty());
    while at < n
        invariant
            at <= n,
            n == s@.len(),
            all_digits(s@.take(at as int)),
            value == extend_value(acc as nat, s@.take(at as int)),
        decreases n - at,
    {
        let b: char = s[at];
        proof {
            assert(s@.take(at + 1).drop_last() =~= s@.take(at as int));
            assert(s@.take(at + 1).last() == b);
            lemma_extend_value_grows(acc as nat, s@, at + 1);
        }
        if !('0' <= b && b <= '9') {
            return None;
        }
        let digit: u64 = (b as u32 - 0x30) as u64;
        let next: Option<u64> = match value.checked_mul(10) {
            Some(tens) => tens.checked_add(digit),
            None => None,
        };
        match next {
            Some(v) => {
                value = v;
            },
            None => {
                return None;
            },
        }
        proof {
            assert forall|i: int| 0 <= i < at + 1 implies is_digit(#[trigger] s@.take(at + 1)[i]) by {
                if i < at {
                    assert(s@.take(at + 1)[i] == s@.take(at as int)[i]);
                }
            }
        }
        at = at + 1;
    }
    assert(s@.take(n as int) =~= s@);
    Some(value)
}

/// Reads an unsigned whole number.
pub fn parse_unsigned(s: &[char]) -> (r: Option<u64>)
    ensures
        r == unsigned_of(s@),
{
    let body: &[char] = strip_plus(s);
    if body.len() == 0 {
        return None;
    }
    extend_number(0, body)
}

/// Tells whether every character of `s` is a digit.
pub fn digits_only(s: &[char]) -> (r: bool)
    ensures
        r == all_digits(s@),
{
    let n: usize = s.len();
    let mut at: usize = 0;
    while at < n
        invariant
            at <= n,
            n == s@.len(),
            forall|i: int| 0 <= i < at ==> is_digit(#[trigger] s@[i]),
        decreases n - at,
    {
        if !('0' <= s[at] && s[at] <= '9') {
            return false;
        }
        at = at + 1;
    }
    true
}

/// What the digit at place `at` of `s` counts for.
fn digit_or_zero(s: &[char], at: usize) -> (d: u64)
    ensures
        d == digit_at(s@, at as int),
        d <= 9,
{
    if at < s.len() && '0' <= s[at] && s[at] <= '9' {
        (s[at] as u32 - 0x30) as u64
    } else {
        0
    }
}

/// Reads a decimal number, in thousandths.
pub fn parse_thousandths(s: &[char]) -> (r: Result<u128, Misread>)
    ensures
        r == thousandths_of(s@),
{
    let body: &[char] = strip_plus(s);
    let parts: Vec<&[char]> = split(body, POINT);
    if parts.len() > 2 {
        return Err(Misread::Malformed);
    }
    let whole: &[char] = parts[0];
    let fraction: &[char] = if parts.len() == 2 {
        parts[1]
    } else {
        slice_subrange(body, 0, 0)
    };
    assert(body@.subrange(0, 0) =~= Seq::<char>::empty());
    if whole.len() == 0 && fraction.len() == 0 {
        return Err(Misread::Malformed);
    }
    if !digits_only(whole) || !digits_only(fraction) {
        return Err(Misread::Malformed);
    }
    proof {
        lemma_thousandths(whole@, fraction@);
    }
    match extend_number(0, whole) {
        Some(units) => {
            let rest: u64 = 100 * digit_or_zero(fraction, 0) + 10 * digit_or_zero(fraction, 1)
                + digit_or_zero(fraction, 2);
            Ok(1000 * (units as u128) + rest as u128)
        },
        None => Err(Misread::TooLarge),
    }
}

/// Drops a leading plus sign.
fn strip_plus(s: &[char]) -> (r: &[char])
    ensures
        r@ == unsigned_body(s@),
{
    if s.len() > 0 && s[0] == PLUS {
        assert(s@.drop_first() =~= s@.subrange(1, s@.len() as int));
        slice_subrange(s, 1, s.len())
    } else {
        s
    }
}

} // verus!
