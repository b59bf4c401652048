//! Numbers as text: digits written to a fixed width, numerals read back, and
//! text cut at its dashes.

use vstd::prelude::*;
use vstd::string::*;

verus! {

/// The character of one digit, lower case past nine.
pub open spec fn digit_char(digit: nat) -> char {
    if digit < 10 {
        ('0' as nat + digit) as char
    } else {
        ('a' as nat + (digit - 10)) as char
    }
}

/// What one character counts for in `radix`, in either case; `None` where it
/// is no digit of that radix.
pub open spec fn digit_value(c: char, radix: nat) -> Option<nat> {
    let code = c as int;
    let value = if '0' as int <= code <= '9' as int {
        code - '0' as int
    } else if 'a' as int <= code <= 'z' as int {
        code - 'a' as int + 10
    } else if 'A' as int <= code <= 'Z' as int {
        code - 'A' as int + 10
    } else {
        radix as int
    };
    if value < radix {
        Some(value as nat)
    } else {
        None
    }
}

/// `value` in `radix`, zeros in front up to `width` digits.
pub open spec fn digits_of(value: nat, radix: nat, width: nat) -> Seq<char>
    decreases value, width,
{
    if radix < 2 || (value < radix && width <= 1) {
        seq![digit_char(value)]
    } else {
        proof {
            lemma_quotient_shrinks(value, radix);
        }
        digits_of(
            value / radix,
            radix,
            if width == 0 {
                0
            } else {
                (width - 1) as nat
            },
        ).push(digit_char(value % radix))
    }
}

/// Dividing a positive number by two or more makes it smaller.
pub proof fn lemma_quotient_shrinks(value: nat, radix: nat)
    requires
        radix >= 2,
    ensures
        value > 0 ==> value / radix < value,
        value == 0 ==> value / radix == 0,
{
    assert(value > 0 ==> value / radix < value) by (nonlinear_arith)
        requires
            radix >= 2,
    ;
    assert(value == 0 ==> value / radix == 0) by (nonlinear_arith)
        requires
            radix >= 2,
    ;
}

/// What a run of digits counts for, most significant first; `None` where one
/// of them is no digit.
pub open spec fn value_of(digits: Seq<char>, radix: nat) -> Option<nat>
    decreases digits.len(),
{
    if digits.len() == 0 {
        Some(0)
    } else {
        match (value_of(digits.drop_last(), radix), digit_value(digits.last(), radix)) {
            (Some(high), Some(low)) => Some(high * radix + low),
            _ => None,
        }
    }
}

/// An unsigned numeral: an optional plus sign, then digits, at least one, that
/// count for no more than `max`.
pub open spec fn numeral(text: Seq<char>, radix: nat, max: nat) -> Option<nat> {
    let digits = if text.len() > 0 && text[0] == '+' {
        text.skip(1)
    } else {
        text
    };
    if digits.len() == 0 {
        None
    } else {
        match value_of(digits, radix) {
            Some(value) => if value <= max {
                Some(value)
            } else {
                None
            },
            None => None,
        }
    }
}

/// `text` cut at every dash: one part more than it has dashes.
pub open spec fn dash_parts(text: Seq<char>) -> Seq<Seq<char>>
    decreases text.len(),
{
    if text.len() == 0 {
        seq![Seq::empty()]
    } else {
        let before = dash_parts(text.drop_last());
        if text.last() == '-' {
            before.push(Seq::empty())
        } else {
            before.drop_last().push(before.last().push(text.last()))
        }
    }
}

/// The characters of `text`, one by one.
pub(crate) fn chars_of(text: &str) -> (chars: Vec<char>)
    ensures
        chars@ == text@,
{
    let mut chars: Vec<char> = Vec::new();
    for c in it: text.chars()
        invariant
            chars@ == it.seq().take(it.index() as int),
    {
        chars.push(c);
    }
    chars
}

/// One digit as text.
fn digit_text(digit: u64) -> (text: &'static str)
    requires
        digit < 16,
    ensures
        text@ == seq![digit_char(digit as nat)],
{
    proof {
        reveal_strlit("0");
        reveal_strlit("1");
        reveal_strlit("2");
        reveal_strlit("3");
        reveal_strlit("4");
        reveal_strlit("5");
        reveal_strlit("6");
        reveal_strlit("7");
        reveal_strlit("8");
        reveal_strlit("9");
        reveal_strlit("a");
        reveal_strlit("b");
        reveal_strlit("c");
        reveal_strlit("d");
        reveal_strlit("e");
        reveal_strlit("f");
    }
    match digit {
        0 => "0",
        1 => "1",
        2 => "2",
        3 => "3",
        4 => "4",
        5 => "5",
        6 => "6",
        7 => "7",
        8 => "8",
        9 => "9",
        10 => "a",
        11 => "b",
        12 => "c",
        13 => "d",
        14 => "e",
        _ => "f",
    }
}

/// Writes `value` in `radix` at the end of `out`, zeros in front up to `width`
/// digits.
pub(crate) fn write_digits(out: &mut String, value: u64, radix: u64, width: u64)
    requires
        2 <= radix <= 16,
    ensures
        final(out)@ == old(out)@ + digits_of(value as nat, radix as nat, width as nat),
    decreases value, width,
{
    proof {
        lemma_quotient_shrinks(value as nat, radix as nat);
    }
    if value < radix && width <= 1 {
        out.append(digit_text(value));
    } else {
        let narrower: u64 = if width == 0 {
            0
        } else {
            width - 1
        };
        write_digits(out, value / radix, radix, narrower);
        out.append(digit_text(value % radix));
    }
}

/// What one character counts for in `radix`.
fn digit_in(c: char, radix: u32) -> (value: Option<u32>)
    requires
        radix <= 36,
    ensures
        match value {
            Some(v) => digit_value(c, radix as nat) == Some(v as nat),
            None => digit_value(c, radix as nat) is None,
        },
{
    let code: u32 = c as u32;
    let value: u32 = if '0' <= c && c <= '9' {
        code - '0' as u32
    } else if 'a' <= c && c <= 'z' {
        code - 'a' as u32 + 10
    } else if 'A' <= c && c <= 'Z' {
        code - 'A' as u32 + 10
    } else {
        radix
    };
    if value < radix {
        Some(value)
    } else {
        None
    }
}

/// A longer run of digits never counts for less than its start.
proof fn lemma_value_grows(digits: Seq<char>, radix: nat, upto: int)
    requires
        0 <= upto <= digits.len(),
        radix >= 1,
        value_of(digits, radix) is Some,
    ensures
        value_of(digits.take(upto), radix) is Some,
        value_of(digits.take(upto), radix).unwrap() <= value_of(digits, radix).unwrap(),
    decreases digits.len(),
{
    if upto == digits.len() {
        assert(digits.take(upto) =~= digits);
    } else {
        let shorter = digits.drop_last();
        lemma_value_grows(shorter, radix, upto);
        assert(shorter.take(upto) =~= digits.take(upto));
        let high = value_of(shorter, radix).unwrap();
        assert(high <= high * radix) by (nonlinear_arith)
            requires
                radix >= 1,
        ;
    }
}

/// Reads an unsigned numeral: an optional plus sign, then digits.
pub(crate) fn read_numeral(text: &Vec<char>, radix: u32, max: u32) -> (value: Option<u32>)
    requires
        2 <= radix <= 36,
    ensures
        match value {
            Some(v) => numeral(text@, radix as nat, max as nat) == Some(v as nat),
            None => numeral(text@, radix as nat, max as nat) is None,
        },
{
    let start: usize = if text.len() > 0 && text[0] == '+' {
        1
    } else {
        0
    };
    let ghost digits = text@.skip(start as int);
    assert(start == 0 ==> digits =~= text@);
    if start == text.len() {
        return None;
    }
    let mut value: u64 = 0;
    let mut at: usize = start;
    assert(digits.take(0).len() == 0);
    while at < text.len()
        invariant
            start <= at <= text.len(),
            2 <= radix <= 36,
            value <= max,
            digits == text@.skip(start as int),
            digits.len() > 0,
            digits == (if text@.len() > 0 && text@[0] == '+' {
                text@.skip(1)
            } else {
                text@
            }),
            value_of(digits.take(at - start), radix as nat) == Some(value as nat),
        decreases text.len() - at,
    {
        let ghost seen = digits.take(at - start);
        let ghost longer = digits.take(at - start + 1);
        assert(longer.drop_last() =~= seen);
        assert(longer.last() == text@[at as int]);
        proof {
            if value_of(digits, radix as nat) is Some {
                lemma_value_grows(digits, radix as nat, at - start + 1);
            }
        }
        match digit_in(text[at], radix) {
            None => {
                return None;
            },
            Some(digit) => {
                assert(value * radix <= 0xffff_ffff * 36) by (nonlinear_arith)
                    requires
                        value <= 0xffff_ffff,
                        radix <= 36,
                ;
                let next: u64 = value * (radix as u64) + digit as u64;
                if next > max as u64 {
                    return None;
                }
                value = next;
                at = at + 1;
            },
        }
    }
    assert(digits.take(at - start) =~= digits);
    Some(value as u32)
}

/// Cuts `text` at its dashes.
pub(crate) fn cut_at_dashes(text: &Vec<char>) -> (parts: Vec<Vec<char>>)
    ensures
        parts@.len() == dash_parts(text@).len(),
        forall|i: int|
            0 <= i < parts@.len() ==> #[trigger] parts@[i]@ == dash_parts(text@)[i],
{
    let mut parts: Vec<Vec<char>> = Vec::new();
    let mut part: Vec<char> = Vec::new();
    let mut at: usize = 0;
    assert(text@.take(0) =~= Seq::empty());
    while at < text.len()
        invariant
            at <= text.len(),
            dash_parts(text@.take(at as int)).len() == parts@.len() + 1,
            dash_parts(text@.take(at as int)).last() == part@,
            forall|i: int|
                0 <= i < parts@.len() ==> #[trigger] parts@[i]@ == dash_parts(
                    text@.take(at as int),
                )[i],
        decreases text.len() - at,
    {
        assert(text@.take(at + 1).drop_last() =~= text@.take(at as int));
        if text[at] == '-' {
            parts.push(part);
            part = Vec::new();
        } else {
            part.push(text[at]);
        }
        at = at + 1;
    }
    assert(text@.take(at as int) =~= text@);
    parts.push(part);
    parts
}

/// One digit reads back as what it counts for.
proof fn lemma_digit_reads_back(digit: nat, radix: nat)
    requires
        digit < radix <= 16,
    ensures
        digit_value(digit_char(digit), radix) == Some(digit),
        digit_char(digit) != '+',
        digit_char(digit) != '-',
{
}

/// Digits written to any width read back as the value they were written from,
/// and hold neither a plus sign nor a dash.
pub proof fn digits_read_back(value: nat, radix: nat, width: nat)
    requires
        2 <= radix <= 16,
    ensures
        value_of(digits_of(value, radix, width), radix) == Some(value),
        digits_of(value, radix, width).len() > 0,
        forall|i: int|
            0 <= i < digits_of(value, radix, width).len() ==> {
                &&& #[trigger] digits_of(value, radix, width)[i] != '+'
                &&& digits_of(value, radix, width)[i] != '-'
            },
    decreases value, width,
{
    let digits = digits_of(value, radix, width);
    if value < radix && width <= 1 {
        lemma_digit_reads_back(value, radix);
        assert(digits.drop_last() =~= Seq::empty());
        assert(value_of(digits.drop_last(), radix) == Some(0nat));
        assert(0 * radix == 0) by (nonlinear_arith);
    } else {
        lemma_digit_reads_back(value % radix, radix);
        lemma_quotient_shrinks(value, radix);
        let narrower = if width == 0 {
            0
        } else {
            (width - 1) as nat
        };
        digits_read_back(value / radix, radix, narrower);
        vstd::arithmetic::div_mod::lemma_fundamental_div_mod(value as int, radix as int);
        vstd::arithmetic::mul::lemma_mul_is_commutative(radix as int, (value / radix) as int);
        assert(digits.drop_last() =~= digits_of(value / radix, radix, narrower));
    }
}

/// A numeral written to any width reads back within any limit it is under.
pub proof fn numeral_reads_back(value: nat, radix: nat, width: nat, max: nat)
    requires
        2 <= radix <= 16,
        value <= max,
    ensures
        numeral(digits_of(value, radix, width), radix, max) == Some(value),
{
    digits_read_back(value, radix, width);
    assert(digits_of(value, radix, width)[0] != '+');
}

/// Text without a dash is one part.
pub proof fn dashless_is_one_part(text: Seq<char>)
    requires
        forall|i: int| 0 <= i < text.len() ==> #[trigger] text[i] != '-',
    ensures
        dash_parts(text) == seq![text],
    decreases text.len(),
{
    if text.len() == 0 {
        assert(text =~= Seq::empty());
    } else {
        dashless_is_one_part(text.drop_last());
        assert(text.last() != '-');
        assert(text.drop_last().push(text.last()) =~= text);
        assert(dash_parts(text) =~= seq![text]);
    }
}

/// The parts of two texts with a dash between are the parts of each.
pub proof fn parts_about_a_dash(before: Seq<char>, after: Seq<char>)
    ensures
        dash_parts(before + seq!['-'] + after) == dash_parts(before) + dash_parts(after),
        dash_parts(after).len() > 0,
    decreases after.len(),
{
    let whole = before + seq!['-'] + after;
    if after.len() == 0 {
        assert(whole.drop_last() =~= before);
        assert(whole.last() == '-');
        assert(dash_parts(whole) =~= dash_parts(before) + dash_parts(after));
    } else {
        let shorter = after.drop_last();
        parts_about_a_dash(before, shorter);
        assert(whole.drop_last() =~= before + seq!['-'] + shorter);
        assert(whole.last() == after.last());
        assert(dash_parts(whole) =~= dash_parts(before) + dash_parts(after));
    }
}

} // verus!
