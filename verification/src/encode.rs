//! The statsd wire format: one gauge per line, `name:value|g`.

use vstd::prelude::*;
use vstd::string::StringExecFns;
use crate::text::{
    all_digits, digits_value, extend_value, is_digit, lemma_fields_joined, lemma_fields_of_one,
    lines, unsigned_of, LINE_FEED,
};

verus! {

/// The character that writes the digit `d`.
pub open spec fn digit_char(d: nat) -> char
    recommends
        d < 10,
{
    (d + 0x30) as char
}

/// The number `n` written in base ten, without leading zeros.
pub open spec fn decimal_text(n: nat) -> Seq<char>
    decreases n,
{
    if n < 10 {
        seq![digit_char(n)]
    } else {
        decimal_text(n / 10).push(digit_char(n % 10))
    }
}

/// One gauge as it goes on the wire, without the line feed that ends it:
/// the prefix, a point, the metric's name, a colon, the value, and the gauge
/// marker.
pub open spec fn gauge(prefix: Seq<char>, name: Seq<char>, value: nat) -> Seq<char> {
    prefix + "."@ + name + ":"@ + decimal_text(value) + "|g"@
}

/// One gauge with the line feed that ends it.
pub open spec fn gauge_line(prefix: Seq<char>, name: Seq<char>, value: nat) -> Seq<char> {
    gauge(prefix, name, value) + "\n"@
}

/// A number written in base ten is digits only, at least one, and begins
/// with a zero only where the number is zero.
pub proof fn lemma_decimal_text_digits(n: nat)
    ensures
        decimal_text(n).len() > 0,
        all_digits(decimal_text(n)),
        decimal_text(n)[0] == '0' <==> n == 0,
    decreases n,
{
    if n >= 10 {
        lemma_decimal_text_digits(n / 10);
        assert(decimal_text(n)[0] == decimal_text(n / 10)[0]);
        let high = decimal_text(n / 10);
        assert forall|i: int| 0 <= i < high.len() + 1 implies is_digit(
            #[trigger] high.push(digit_char(n % 10))[i],
        ) by {
            if i < high.len() {
                assert(high.push(digit_char(n % 10))[i] == high[i]);
            }
        }
    }
}

/// Reading back what was written gives the number written: the two directions
/// of the base-ten notation agree.
pub proof fn lemma_decimal_text_reads_back(n: nat)
    ensures
        digits_value(decimal_text(n)) == n,
        n <= u64::MAX ==> unsigned_of(decimal_text(n)) == Some(n as u64),
    decreases n,
{
    lemma_decimal_text_digits(n);
    if n >= 10 {
        lemma_decimal_text_reads_back(n / 10);
        assert(decimal_text(n).drop_last() =~= decimal_text(n / 10));
    } else {
        assert(decimal_text(n).drop_last() =~= Seq::<char>::empty());
        assert(extend_value(0, Seq::<char>::empty()) == 0);
    }
    assert(decimal_text(n).last() == digit_char(n % 10));
    assert(is_digit(decimal_text(n)[0]));
}

/// A gauge holds a character only where its prefix or its name does, or
/// where the character is a digit or one of the four marks of the format.
pub proof fn lemma_gauge_free_of(prefix: Seq<char>, name: Seq<char>, value: nat, c: char)
    requires
        !prefix.contains(c),
        !name.contains(c),
        !is_digit(c),
        c != '.' && c != ':' && c != '|' && c != 'g',
    ensures
        !gauge(prefix, name, value).contains(c),
{
    reveal_strlit(".");
    reveal_strlit(":");
    reveal_strlit("|g");
    lemma_decimal_text_digits(value);
    let text = gauge(prefix, name, value);
    let digits = decimal_text(value);
    assert forall|i: int| 0 <= i < text.len() implies text[i] != c by {
        let a = prefix.len();
        let b = a + 1;
        let d = b + name.len();
        let e = d + 1;
        let f = e + digits.len();
        if i < a {
            assert(text[i] == prefix[i]);
            assert(prefix.contains(prefix[i]));
        } else if i < b {
            assert(text[i] == '.');
        } else if i < d {
            assert(text[i] == name[i - b]);
            assert(name.contains(name[i - b]));
        } else if i < e {
            assert(text[i] == ':');
        } else if i < f {
            assert(text[i] == digits[i - e]);
        } else {
            assert(text[i] == "|g"@[i - f]);
        }
    }
}

/// A gauge line in front of a text is one more line in front of the text's
/// lines, where neither the prefix nor the name holds a line feed.
pub proof fn lemma_lines_after_gauge_line(
    prefix: Seq<char>,
    name: Seq<char>,
    value: nat,
    rest: Seq<char>,
)
    requires
        !prefix.contains(LINE_FEED),
        !name.contains(LINE_FEED),
    ensures
        lines(gauge_line(prefix, name, value) + rest) == seq![gauge(prefix, name, value)] + lines(
            rest,
        ),
{
    let g = gauge(prefix, name, value);
    lemma_gauge_free_of(prefix, name, value, LINE_FEED);
    lemma_fields_of_one(g, LINE_FEED);
    lemma_fields_joined(g, rest, LINE_FEED);
    assert(gauge_line(prefix, name, value) + rest =~= g.push(LINE_FEED) + rest) by {
        reveal_strlit("\n");
    }
}

/// The text of one digit.
fn digit_text(d: u64) -> (t: &'static str)
    requires
        d < 10,
    ensures
        t@ == seq![digit_char(d as nat)],
{
    proof {
        reveal_strlit("0");
        reveal_strlit("1");
        reveal_strlit("2");
        reveal_strlit("3");
        reveal_strlit("4");
        reveal_strlit("5");
        reveal_strlit("6");
        reveal_strlit("7");
        reveal_strlit("8");
        reveal_strlit("9");
    }
    let t: &'static str = if d == 0 {
        "0"
    } else if d == 1 {
        "1"
    } else if d == 2 {
        "2"
    } else if d == 3 {
        "3"
    } else if d == 4 {
        "4"
    } else if d == 5 {
        "5"
    } else if d == 6 {
        "6"
    } else if d == 7 {
        "7"
    } else if d == 8 {
        "8"
    } else {
        "9"
    };
    assert(t@ =~= seq![digit_char(d as nat)]);
    t
}

/// Appends `n`, written in base ten, to `out`.
pub fn push_decimal(out: &mut String, n: u64)
    ensures
        final(out)@ == old(out)@ + decimal_text(n as nat),
    decreases n,
{
    if n >= 10 {
        push_decimal(out, n / 10);
    }
    out.append(digit_text(n % 10));
    assert(out@ =~= old(out)@ + decimal_text(n as nat));
}

/// Appends one gauge line to `out`.
pub fn push_gauge(out: &mut String, prefix: &str, name: &str, value: u64)
    ensures
        final(out)@ == old(out)@ + gauge_line(prefix@, name@, value as nat),
{
    out.append(prefix);
    out.append(".");
    out.append(name);
    out.append(":");
    push_decimal(out, value);
    out.append("|g");
    out.append("\n");
    assert(out@ =~= old(out)@ + gauge_line(prefix@, name@, value as nat));
}

} // verus!
