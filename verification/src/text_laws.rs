//! What numbers and addresses are as text, character by character: which
//! digits count for what, which text reads as which address, and which text an
//! address is shown as.

use crate::address;
use crate::address::{Address, Reading};
use crate::error;
use crate::error::HartError;
use crate::text;
use vstd::arithmetic::power;
use vstd::prelude::*;

verus! {

/// In decimal a character counts for its place in `0123456789`, and in hex for
/// its place in `0123456789abcdef` or the same in capitals; no other character
/// counts for anything. Digits are written from the first of those.
pub proof fn digit_counts_for_its_place(c: char, place: nat)
    ensures
        text::digit_value(c, 10) == Some(place) <==> place < 10 && c
            == "0123456789"@[place as int],
        text::digit_value(c, 16) == Some(place) <==> place < 16 && (c
            == "0123456789abcdef"@[place as int] || c == "0123456789ABCDEF"@[place as int]),
        place < 16 ==> text::digit_char(place) == "0123456789abcdef"@[place as int],
{
    reveal_strlit("0123456789");
    reveal_strlit("0123456789abcdef");
    reveal_strlit("0123456789ABCDEF");
    if place < 16 {
        let lower = "0123456789abcdef"@[place as int];
        let upper = "0123456789ABCDEF"@[place as int];
        assert(lower as int == (if place < 10 {
            48 + place
        } else {
            87 + place
        }));
        assert(upper as int == (if place < 10 {
            48 + place
        } else {
            55 + place
        }));
    }
    if place < 10 {
        assert("0123456789"@[place as int] as int == 48 + place);
    }
}

/// No digits count for nothing and one for itself; of two runs of digits, one
/// after the other, the first counts for as many times the radix as the second
/// has digits, and the second for itself. One that is no digit spoils all.
pub proof fn digits_count_by_their_places(c: char, first: Seq<char>, second: Seq<char>, radix: nat)
    ensures
        text::value_of(Seq::empty(), radix) == Some(0nat),
        text::value_of(seq![c], radix) == text::digit_value(c, radix),
        text::value_of(first + second, radix) == (match (
            text::value_of(first, radix),
            text::value_of(second, radix),
        ) {
            (Some(high), Some(low)) => Some(
                (high * power::pow(radix as int, second.len()) + low) as nat,
            ),
            _ => None,
        }),
    decreases second.len(),
{
    assert(seq![c].drop_last() =~= Seq::<char>::empty());
    assert(text::value_of(seq![c].drop_last(), radix) == Some(0nat));
    assert(0 * radix == 0) by (nonlinear_arith);
    if second.len() == 0 {
        assert(first + second =~= first);
        power::lemma_pow0(radix as int);
    } else {
        let shorter = second.drop_last();
        digits_count_by_their_places(c, first, shorter, radix);
        assert((first + second).drop_last() =~= first + shorter);
        assert((first + second).last() == second.last());
        power::lemma_pow1(radix as int);
        power::lemma_pow_adds(radix as int, shorter.len(), 1);
        match (
            text::value_of(first, radix),
            text::value_of(shorter, radix),
            text::digit_value(second.last(), radix),
        ) {
            (Some(high), Some(middle), Some(low)) => {
                let places = power::pow(radix as int, shorter.len());
                power::lemma_pow_positive(radix as int, shorter.len());
                assert(high * places >= 0) by (nonlinear_arith)
                    requires
                        places >= 0,
                ;
                assert((high * places + middle) * radix + low == high * (places * radix) + (middle
                    * radix + low)) by (nonlinear_arith);
            },
            _ => {},
        }
    }
}

/// A number is written in decimal or lower-case hex digits, as few as there
/// can be, but as many as asked for: past those, the first is no zero.
pub proof fn digits_are_plain(value: nat, radix: nat, width: nat)
    requires
        2 <= radix <= 16,
    ensures
        ({
            let digits = text::digits_of(value, radix, width);
            &&& digits.len() >= 1
            &&& digits.len() >= width
            &&& digits.len() > 1 && digits.len() > width ==> digits[0] != '0'
            &&& forall|i: int|
                0 <= i < digits.len() ==> '0' <= #[trigger] digits[i] <= '9' || 'a' <= digits[i]
                    <= 'f'
            &&& text::value_of(digits, radix) == Some(value)
        }),
    decreases value, width,
{
    text::digits_read_back(value, radix, width);
    if value < radix && width <= 1 {
    } else {
        text::lemma_quotient_shrinks(value, radix);
        let narrower = if width == 0 {
            0
        } else {
            (width - 1) as nat
        };
        digits_are_plain(value / radix, radix, narrower);
        let front = text::digits_of(value / radix, radix, narrower);
        let digits = text::digits_of(value, radix, width);
        assert(digits =~= front.push(text::digit_char(value % radix)));
        assert(value % radix < radix) by (nonlinear_arith)
            requires
                radix >= 2,
        ;
        if front.len() == 1 && width <= 1 {
            assert(value / radix > 0) by (nonlinear_arith)
                requires
                    value >= radix,
                    radix >= 2,
            ;
            assert(front[0] != '0') by {
                if front[0] == '0' {
                    assert(front.drop_last() =~= Seq::<char>::empty());
                    assert(text::value_of(front.drop_last(), radix) == Some(0nat));
                    assert(0 * radix == 0) by (nonlinear_arith);
                }
            }
        }
    }
}

/// A numeral is its digits, of which there is at least one, where they count
/// for no more than the limit; one plus sign in front changes nothing, and two
/// make it none.
pub proof fn numeral_is_its_digits(digits: Seq<char>, radix: nat, max: nat, value: nat)
    requires
        2 <= radix <= 36,
    ensures
        text::numeral(Seq::empty(), radix, max) is None,
        text::numeral(seq!['+'], radix, max) is None,
        digits.len() > 0 && digits[0] != '+' ==> {
            &&& text::numeral(digits, radix, max) == Some(value) <==> text::value_of(digits, radix)
                == Some(value) && value <= max
            &&& text::numeral(seq!['+'] + digits, radix, max) == text::numeral(digits, radix, max)
        },
        digits.len() > 0 && digits[0] == '+' ==> text::numeral(
            seq!['+'] + digits,
            radix,
            max,
        ) is None,
{
    assert((seq!['+'] + digits).skip(1) =~= digits);
    assert(seq!['+'].skip(1) =~= Seq::<char>::empty());
    if digits.len() > 0 && digits[0] == '+' {
        assert(digits =~= seq!['+'] + digits.skip(1));
        digits_count_by_their_places('+', seq!['+'], digits.skip(1), radix);
    }
}

/// Text without a dash names a polling address where it is a decimal numeral
/// of 63 or less, is refused as over 63 where it is one of 64 to 255, and is no
/// address otherwise.
pub proof fn dashless_text_is_a_polling_address(part: Seq<char>)
    requires
        forall|i: int| 0 <= i < part.len() ==> #[trigger] part[i] != '-',
    ensures
        address::reading(part) == (match text::numeral(part, 10, 255) {
            Some(polling) => if polling <= 63 {
                Reading::Names(Address::Short(polling as u8))
            } else {
                Reading::Over63
            },
            None => Reading::Nothing,
        }),
{
    text::dashless_is_one_part(part);
}

/// Text with two dashes names a unique address where the three parts about
/// them are hex numerals: the first and the second of a byte, manufacturer and
/// device type, and the third of four, the device identifier. Text with any
/// other number of dashes than two, or none, is no address.
pub proof fn dashed_text_is_a_unique_address(
    first: Seq<char>,
    second: Seq<char>,
    third: Seq<char>,
    rest: Seq<char>,
)
    requires
        forall|i: int| 0 <= i < first.len() ==> #[trigger] first[i] != '-',
        forall|i: int| 0 <= i < second.len() ==> #[trigger] second[i] != '-',
        forall|i: int| 0 <= i < third.len() ==> #[trigger] third[i] != '-',
    ensures
        address::reading(first + seq!['-'] + second) is Nothing,
        address::reading(first + seq!['-'] + second + seq!['-'] + third + seq!['-'] + rest)
            is Nothing,
        address::reading(first + seq!['-'] + second + seq!['-'] + third) == (match (
            text::numeral(first, 16, 255),
            text::numeral(second, 16, 255),
            text::numeral(third, 16, 0xffff_ffff),
        ) {
            (Some(manufacturer), Some(device_type), Some(device_id)) => Reading::Names(
                Address::Long {
                    manufacturer: manufacturer as u8,
                    device_type: device_type as u8,
                    device_id: device_id as u32,
                },
            ),
            _ => Reading::Nothing,
        }),
{
    let two = first + seq!['-'] + second;
    let three = two + seq!['-'] + third;
    text::dashless_is_one_part(first);
    text::dashless_is_one_part(second);
    text::dashless_is_one_part(third);
    text::parts_about_a_dash(first, second);
    text::parts_about_a_dash(two, third);
    text::parts_about_a_dash(three, rest);
    assert(text::dash_parts(three) =~= seq![first, second, third]);
}

/// A decimal digit is written as the character at its place.
proof fn lemma_decimal_digit(digit: nat)
    requires
        digit < 10,
    ensures
        text::digit_char(digit) == "0123456789"@[digit as int],
        text::digit_value("0123456789"@[digit as int], 10) == Some(digit),
        "0123456789"@[digit as int] != '+',
        "0123456789"@[digit as int] != '-',
{
    let c = "0123456789"@[digit as int];
    digit_counts_for_its_place(c, digit);
    reveal_strlit("0123456789");
    assert(c as int == 48 + digit);
}

/// What three decimal digits count for.
proof fn lemma_three_digits(hundreds: nat, tens: nat, ones: nat)
    requires
        hundreds < 10,
        tens < 10,
        ones < 10,
    ensures
        ({
            let digits = "0123456789"@;
            text::value_of(
                seq![digits[hundreds as int], digits[tens as int], digits[ones as int]],
                10,
            ) == Some((hundreds * 100 + tens * 10 + ones) as nat)
        }),
{
    let digits = "0123456789"@;
    lemma_decimal_digit(hundreds);
    lemma_decimal_digit(tens);
    lemma_decimal_digit(ones);
    let first = seq![digits[hundreds as int]];
    let second = first.push(digits[tens as int]);
    let third = second.push(digits[ones as int]);
    assert(third =~= seq![digits[hundreds as int], digits[tens as int], digits[ones as int]]);
    assert(first.drop_last() =~= Seq::<char>::empty());
    assert(second.drop_last() =~= first);
    assert(third.drop_last() =~= second);
    assert(text::value_of(first.drop_last(), 10) == Some(0nat));
    assert(text::value_of(first, 10) == Some(hundreds));
    assert(text::value_of(second, 10) == Some((hundreds * 10 + tens) as nat));
}

/// A polling address is shown in decimal, without zeros in front; its three
/// decimal digits, zeros in front and all, read as it or, past 63, as over 63.
pub proof fn polling_address_is_decimal(polling: u8)
    ensures
        ({
            let digits = "0123456789"@;
            let ones = digits[(polling % 10) as int];
            let tens = digits[(polling / 10 % 10) as int];
            let hundreds = digits[(polling / 100) as int];
            &&& Address::Short(polling).shown() == (if polling < 10 {
                seq![ones]
            } else if polling < 100 {
                seq![tens, ones]
            } else {
                seq![hundreds, tens, ones]
            })
            &&& address::reading(seq![hundreds, tens, ones]) == (if polling < 64 {
                Reading::Names(Address::Short(polling))
            } else {
                Reading::Over63
            })
        }),
{
    let ones = (polling % 10) as nat;
    let tens = (polling / 10 % 10) as nat;
    let hundreds = (polling / 100) as nat;
    lemma_decimal_digit(ones);
    lemma_decimal_digit(tens);
    lemma_decimal_digit(hundreds);
    lemma_three_digits(hundreds, tens, ones);
    let digits = "0123456789"@;
    let value = polling as nat;
    assert(value % 10 == ones && (value / 10) % 10 == tens && value / 10 / 10 == hundreds);
    if polling >= 10 {
        if polling < 100 {
            assert(text::digits_of(value / 10, 10, 0) == seq![text::digit_char(tens)]);
        } else {
            assert(text::digits_of(hundreds, 10, 0) == seq![text::digit_char(hundreds)]);
            assert(text::digits_of(value / 10, 10, 0) == seq![text::digit_char(hundreds)].push(
                text::digit_char(tens),
            ));
        }
        assert(text::digits_of(value, 10, 1) == text::digits_of(value / 10, 10, 0).push(
            text::digit_char(ones),
        ));
    }
    assert(Address::Short(polling).shown() =~= (if polling < 10 {
        seq![digits[ones as int]]
    } else if polling < 100 {
        seq![digits[tens as int], digits[ones as int]]
    } else {
        seq![digits[hundreds as int], digits[tens as int], digits[ones as int]]
    }));
    let whole = seq![digits[hundreds as int], digits[tens as int], digits[ones as int]];
    dashless_text_is_a_polling_address(whole);
}

/// A unique address is shown as two hex digits of the manufacturer, two of the
/// device type and six of the device identifier, or as many more as it takes,
/// with dashes between.
pub proof fn unique_address_is_hex(
    manufacturer: u8,
    device_type: u8,
    device_id: u32,
) -> (id: Seq<char>)
    ensures
        ({
            let digits = "0123456789abcdef"@;
            (Address::Long { manufacturer, device_type, device_id }).shown() == seq![
                digits[(manufacturer / 16) as int],
                digits[(manufacturer % 16) as int],
                '-',
                digits[(device_type / 16) as int],
                digits[(device_type % 16) as int],
                '-',
            ] + id
        }),
        id.len() >= 6,
        id.len() > 6 ==> id[0] != '0',
        forall|i: int|
            0 <= i < id.len() ==> '0' <= #[trigger] id[i] <= '9' || 'a' <= id[i] <= 'f',
        text::value_of(id, 16) == Some(device_id as nat),
{
    let id = text::digits_of(device_id as nat, 16, 6);
    digits_are_plain(device_id as nat, 16, 6);
    reveal_with_fuel(text::digits_of, 3);
    digit_counts_for_its_place('0', (manufacturer / 16) as nat);
    digit_counts_for_its_place('0', (manufacturer % 16) as nat);
    digit_counts_for_its_place('0', (device_type / 16) as nat);
    digit_counts_for_its_place('0', (device_type % 16) as nat);
    let digits = "0123456789abcdef"@;
    let shown = (Address::Long { manufacturer, device_type, device_id }).shown();
    assert(text::digits_of(manufacturer as nat, 16, 2) =~= seq![
        digits[(manufacturer / 16) as int],
        digits[(manufacturer % 16) as int],
    ]);
    assert(text::digits_of(device_type as nat, 16, 2) =~= seq![
        digits[(device_type / 16) as int],
        digits[(device_type % 16) as int],
    ]);
    assert(shown =~= seq![
        digits[(manufacturer / 16) as int],
        digits[(manufacturer % 16) as int],
        '-',
        digits[(device_type / 16) as int],
        digits[(device_type % 16) as int],
        '-',
    ] + id);
    id
}

/// Two errors that carry a number say it in digits that read back as it: a
/// response code in decimal, and a delimiter's bits in hex, two digits of it.
pub proof fn error_says_its_number(code: u8)
    ensures
        ({
            let said = "the device answered with response code "@;
            let sentence = HartError::ResponseCode(code).sentence();
            let digits = sentence.skip(said.len() as int);
            &&& sentence == said + digits
            &&& digits == Address::Short(code).shown()
            &&& text::numeral(digits, 10, 255) == Some(code as nat)
        }),
        ({
            let said = "a delimiter HART does not use: 0x"@;
            let sentence = HartError::UnknownDelimiter(code).sentence();
            &&& sentence == said + seq![
                "0123456789abcdef"@[(code / 16) as int],
                "0123456789abcdef"@[(code % 16) as int],
            ]
        }),
{
    let said = "the device answered with response code "@;
    let sentence = HartError::ResponseCode(code).sentence();
    assert(sentence.skip(said.len() as int) =~= text::digits_of(code as nat, 10, 1));
    text::numeral_reads_back(code as nat, 10, 1, 255);
    reveal_with_fuel(text::digits_of, 3);
    digit_counts_for_its_place('0', (code / 16) as nat);
    digit_counts_for_its_place('0', (code % 16) as nat);
    assert(text::digits_of(code as nat, 16, 2) =~= seq![
        "0123456789abcdef"@[(code / 16) as int],
        "0123456789abcdef"@[(code % 16) as int],
    ]);
}

/// Text that is no address is said between quotes, all of it, before what it is
/// not; and the error that carries it says it so.
pub proof fn error_says_its_text(shown: Seq<char>, given: String)
    ensures
        error::not_an_address(shown) == shown + " is not a HART address"@,
        HartError::NotAnAddress(given).sentence() == error::quoted(given@)
            + " is not a HART address"@,
{
}

} // verus!
