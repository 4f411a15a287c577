//! Reading the id out of an announcement.
//!
//! An announcement is text that holds `id=`, decimal digits, and ` addr=`
//! somewhere; the first place where it does so counts.
use bytes::Bytes;
use vstd::prelude::*;
use vstd::string::*;
use vstd::utf8::*;

#[allow(unused_imports)]
use crate::buffers;

verus! {

/// Whether a character outside ASCII is a decimal digit of some script, that
/// is, whether the class `\d` of the `regex` crate holds it.
pub uninterp spec fn wide_digit(c: char) -> bool;

/// Whether a character is a decimal digit of some script.
pub open spec fn is_digit(c: char) -> bool {
    if c <= '\u{7f}' {
        '0' <= c <= '9'
    } else {
        wide_digit(c)
    }
}

/// Whether the text announces `digits` at the place `start`.
pub open spec fn announces(text: Seq<char>, start: int, digits: Seq<char>) -> bool {
    &&& 0 <= start <= text.len()
    &&& digits.len() > 0
    &&& forall|i: int| 0 <= i < digits.len() ==> is_digit(#[trigger] digits[i])
    &&& ("id="@ + digits + " addr="@).is_prefix_of(text.skip(start))
}

/// Whether the text announces `digits` at the place `start`, and nothing at an
/// earlier one.
pub open spec fn announces_first(text: Seq<char>, start: int, digits: Seq<char>) -> bool {
    &&& announces(text, start, digits)
    &&& forall|earlier: int, other: Seq<char>|
        earlier < start ==> !#[trigger] announces(text, earlier, other)
}

/// The digits that the text announces first, where it announces any.
pub open spec fn announced(text: Seq<char>) -> Option<Seq<char>> {
    if exists|start: int, digits: Seq<char>| announces_first(text, start, digits) {
        let (_, digits): (int, Seq<char>) = choose|start: int, digits: Seq<char>|
            announces_first(text, start, digits);
        Some(digits)
    } else {
        None
    }
}

/// The number that decimal digits spell.
pub open spec fn decimal_value(digits: Seq<char>) -> nat
    decreases digits.len(),
{
    if digits.len() == 0 {
        0
    } else {
        decimal_value(digits.drop_last()) * 10 + (digits.last() as u32 - '0' as u32) as nat
    }
}

/// The number that the text spells, where it is made of ASCII digits and the
/// number fits.
pub open spec fn decimal_u64(text: Seq<char>) -> Option<u64> {
    if text.len() > 0 && (forall|i: int| 0 <= i < text.len() ==> '0' <= #[trigger] text[i] <= '9')
        && decimal_value(text) <= u64::MAX {
        Some(decimal_value(text) as u64)
    } else {
        None
    }
}

/// The id that a payload announces.
pub open spec fn id_in(payload: Seq<u8>) -> Option<u64> {
    if valid_utf8(payload) {
        match announced(decode_utf8(payload)) {
            Some(digits) => decimal_u64(digits),
            None => None,
        }
    } else {
        None
    }
}

/// `std::str::from_utf8` gives the text that the bytes encode, where they are
/// valid UTF-8.
#[verifier::external_body]
fn utf8_text(bytes: &[u8]) -> (text: Option<&str>)
    ensures
        text is Some <==> valid_utf8(bytes@),
        text matches Some(decoded) ==> decoded.spec_bytes() == bytes@,
{
    std::str::from_utf8(bytes).ok()
}

/// `regex::Regex::captures` for the pattern `id=(\d+) addr=` finds the leftmost
/// place where the text holds `id=`, one or more decimal digits, and ` addr=`;
/// the first group of the match is the digits.
#[verifier::external_body]
fn capture_id(message: &str) -> (digits: Option<&str>)
    ensures
        (match digits {
            Some(found) => Some(found@),
            None => None,
        }) == announced(message@),
        digits matches Some(found) ==> forall|i: int|
            0 <= i < found@.len() ==> ('0' <= #[trigger] found@[i] <= '9' || wide_digit(found@[i])),
{
    let pattern = regex::Regex::new(r"id=(\d+) addr=").ok()?;
    let captures = pattern.captures(message)?;
    captures.get(1).map(|group| group.as_str())
}

/// Reads a number in decimal.
pub fn parse_decimal(text: &str) -> (number: Option<u64>)
    ensures
        number == decimal_u64(text@),
{
    broadcast use is_ascii_spec_bytes;

    if text.is_empty() {
        return None;
    }
    if !text.is_ascii() {
        proof {
            let i = choose|i: int| 0 <= i < text@.len() && !('\0' <= #[trigger] text@[i] <= '\u{7f}');
            assert(!('0' <= text@[i] <= '9'));
        }
        return None;
    }
    let bytes = text.as_bytes();
    let mut number: u64 = 0;
    let mut i: usize = 0;
    while i < bytes.len()
        invariant
            i <= bytes.len(),
            bytes@.len() == text@.len(),
            forall|j: int| 0 <= j < text@.len() ==> bytes@[j] == #[trigger] text@[j] as u8
                && text@[j] <= '\u{7f}',
            forall|j: int| 0 <= j < i ==> '0' <= #[trigger] text@[j] <= '9',
            number == decimal_value(text@.take(i as int)),
        decreases bytes.len() - i,
    {
        let byte = bytes[i];
        let ghost c = text@[i as int];
        proof {
            lemma_ascii_code(c);
        }
        if byte < 48 || byte > 57 {
            return None;
        }
        let ghost here = text@.take(i as int + 1);
        assert(here.drop_last() =~= text@.take(i as int));
        let digit: u64 = (byte - 48) as u64;
        let next: Option<u64> = match number.checked_mul(10) {
            Some(tens) => tens.checked_add(digit),
            None => None,
        };
        match next {
            Some(value) => {
                number = value;
            },
            None => {
                proof {
                    lemma_value_grows(text@, i as int + 1);
                }
                return None;
            },
        }
        i = i + 1;
    }
    assert(text@.take(i as int) =~= text@);
    Some(number)
}

/// The code of an ASCII character fits in a byte.
proof fn lemma_ascii_code(c: char)
    requires
        c <= '\u{7f}',
    ensures
        c as u8 == c as u32,
        '0' <= c <= '9' <==> 48 <= c as u32 <= 57,
{
}

/// A number does not get smaller when digits are added to it.
proof fn lemma_value_grows(digits: Seq<char>, count: int)
    requires
        0 <= count <= digits.len(),
    ensures
        decimal_value(digits.take(count)) <= decimal_value(digits),
    decreases digits.len() - count,
{
    if count < digits.len() {
        lemma_value_grows(digits, count + 1);
        assert(digits.take(count + 1).drop_last() =~= digits.take(count));
    } else {
        assert(digits.take(count) =~= digits);
    }
}

/// The id that a payload announces, where it is text and announces one that
/// fits.
pub fn extract_id(payload: Bytes) -> (id: Option<u64>)
    ensures
        id == id_in(buffers::bytes_of(payload)),
{
    broadcast use encode_utf8_decode_utf8;

    let bytes: &[u8] = &payload;
    match utf8_text(bytes) {
        Some(message) => {
            assert(decode_utf8(bytes@) == message@);
            match capture_id(message) {
                Some(digits) => parse_decimal(digits),
                None => None,
            }
        },
        None => None,
    }
}

/// The decimal digits of a number, without leading zeros.
pub open spec fn decimal(number: nat) -> Seq<char>
    decreases number,
{
    if number < 10 {
        seq![('0' as u32 + number) as char]
    } else {
        decimal(number / 10).push(('0' as u32 + number % 10) as char)
    }
}

/// At one place a text announces one thing at most.
proof fn lemma_one_announcement(text: Seq<char>, start: int, a: Seq<char>, b: Seq<char>)
    requires
        announces(text, start, a),
        announces(text, start, b),
    ensures
        a == b,
{
    reveal_strlit("id=");
    reveal_strlit(" addr=");
    let rest = text.skip(start);
    let of_a = "id="@ + a + " addr="@;
    let of_b = "id="@ + b + " addr="@;
    assert(forall|i: int| 0 <= i < of_a.len() ==> of_a[i] == rest.take(of_a.len() as int)[i]);
    assert(forall|i: int| 0 <= i < of_b.len() ==> of_b[i] == rest.take(of_b.len() as int)[i]);
    assert forall|i: int| 0 <= i < a.len() implies #[trigger] a[i] == rest[i + 3] by {
        assert(of_a[i + 3] == a[i]);
    }
    assert forall|i: int| 0 <= i < b.len() implies #[trigger] b[i] == rest[i + 3] by {
        assert(of_b[i + 3] == b[i]);
    }
    if a.len() < b.len() {
        assert(of_a[a.len() as int + 3] == ' ');
        assert(is_digit(b[a.len() as int]));
        assert(rest[a.len() as int + 3] == ' ');
    }
    if b.len() < a.len() {
        assert(of_b[b.len() as int + 3] == ' ');
        assert(is_digit(a[b.len() as int]));
        assert(rest[b.len() as int + 3] == ' ');
    }
    assert(a =~= b);
}

/// Among the places where a text announces something there is a first one.
proof fn lemma_first_place(text: Seq<char>, start: int, digits: Seq<char>) -> (first: (
    int,
    Seq<char>,
))
    requires
        announces(text, start, digits),
    ensures
        announces_first(text, first.0, first.1),
    decreases start,
{
    if exists|earlier: int, other: Seq<char>| earlier < start && announces(text, earlier, other) {
        let (earlier, other): (int, Seq<char>) = choose|earlier: int, other: Seq<char>|
            earlier < start && announces(text, earlier, other);
        lemma_first_place(text, earlier, other)
    } else {
        (start, digits)
    }
}

/// The announcement that counts is the first one.
pub proof fn law_first_announcement_counts(text: Seq<char>, start: int, digits: Seq<char>)
    requires
        announces_first(text, start, digits),
    ensures
        announced(text) == Some(digits),
{
    let (other_start, other): (int, Seq<char>) = choose|other_start: int, other: Seq<char>|
        announces_first(text, other_start, other);
    assert(other_start == start);
    lemma_one_announcement(text, start, digits, other);
}

/// A text has an announcement that counts just where it announces something
/// anywhere.
pub proof fn law_any_announcement_is_found(text: Seq<char>)
    ensures
        announced(text) is Some <==> exists|start: int, digits: Seq<char>|
            announces(text, start, digits),
{
    if exists|start: int, digits: Seq<char>| announces(text, start, digits) {
        let (start, digits): (int, Seq<char>) = choose|start: int, digits: Seq<char>|
            announces(text, start, digits);
        let first = lemma_first_place(text, start, digits);
        assert(announces_first(text, first.0, first.1));
    }
}

/// Text behind an announcement does not change what is announced.
pub proof fn law_appended_text_does_not_matter(text: Seq<char>, more: Seq<char>)
    requires
        announced(text) is Some,
    ensures
        announced(text + more) == announced(text),
{
    reveal_strlit("id=");
    reveal_strlit(" addr=");
    let whole = text + more;
    let (start, digits): (int, Seq<char>) = choose|start: int, digits: Seq<char>|
        announces_first(text, start, digits);
    let middle = "id="@ + digits + " addr="@;
    assert(whole.skip(start) =~= text.skip(start) + more);
    assert(whole.skip(start).take(middle.len() as int) =~= text.skip(start).take(
        middle.len() as int,
    ));
    assert(announces(whole, start, digits));
    assert forall|earlier: int, other: Seq<char>| earlier < start implies !#[trigger] announces(
        whole,
        earlier,
        other,
    ) by {
        if announces(whole, earlier, other) {
            let span = "id="@ + other + " addr="@;
            let rest = whole.skip(earlier);
            assert(forall|i: int| 0 <= i < span.len() ==> span[i] == rest.take(span.len() as int)[i]);
            assert(middle[0] == text.skip(start).take(middle.len() as int)[0]);
            assert(whole[start] == 'i');
            let at = start - earlier;
            if at < span.len() {
                assert(span[at] == whole[start]);
                if 3 <= at < 3 + other.len() {
                    assert(is_digit(other[at - 3]));
                }
                assert(false);
            }
            assert(text.skip(earlier).take(span.len() as int) =~= rest.take(span.len() as int));
            assert(announces(text, earlier, other));
        }
    }
    law_first_announcement_counts(text, start, digits);
    law_first_announcement_counts(whole, start, digits);
}

/// The decimal digits of a number spell the number.
pub proof fn law_decimal_reads_back(number: u64)
    ensures
        decimal_u64(decimal(number as nat)) == Some(number),
{
    lemma_decimal(number as nat);
}

proof fn lemma_decimal(number: nat)
    ensures
        decimal(number).len() > 0,
        forall|i: int| 0 <= i < decimal(number).len() ==> '0' <= #[trigger] decimal(number)[i] <= '9',
        decimal_value(decimal(number)) == number,
    decreases number,
{
    lemma_digit_char(number % 10);
    if number < 10 {
        reveal_with_fuel(decimal_value, 2);
        assert(decimal(number).drop_last() =~= Seq::empty());
    } else {
        lemma_decimal(number / 10);
        assert(decimal(number).drop_last() =~= decimal(number / 10));
    }
}

proof fn lemma_digit_char(digit: nat)
    requires
        digit < 10,
    ensures
        '0' <= (('0' as u32 + digit) as char) <= '9',
        (('0' as u32 + digit) as char) as u32 - '0' as u32 == digit,
{
}

/// An id that is announced is read back, whatever stands around the
/// announcement, as long as nothing is announced in front of it.
pub proof fn law_id_comes_back(before: Seq<char>, id: u64, after: Seq<char>)
    requires
        forall|start: int, digits: Seq<char>|
            start < before.len() ==> !#[trigger] announces(
                before + ("id="@ + decimal(id as nat) + " addr="@) + after,
                start,
                digits,
            ),
    ensures
        id_in(encode_utf8(before + ("id="@ + decimal(id as nat) + " addr="@) + after)) == Some(id),
{
    let digits = decimal(id as nat);
    let middle = "id="@ + digits + " addr="@;
    let text = before + middle + after;
    let start = before.len() as int;
    lemma_decimal(id as nat);
    assert(text.skip(start) =~= middle + after);
    assert((middle + after).take(middle.len() as int) =~= middle);
    assert forall|i: int| 0 <= i < digits.len() implies is_digit(#[trigger] digits[i]) by {
        lemma_digits_are_ascii(digits[i]);
    }
    assert(announces_first(text, start, digits));
    law_first_announcement_counts(text, start, digits);
    law_decimal_reads_back(id);
    encode_utf8_valid_utf8(text);
    encode_utf8_decode_utf8(text);
}

proof fn lemma_digits_are_ascii(c: char)
    requires
        '0' <= c <= '9',
    ensures
        is_digit(c),
{
}

/// An announcement is the text `id=`, digits, ` addr=`, with any text in front of
/// it and behind it.
pub proof fn law_announcement_stands_in_the_text(
    before: Seq<char>,
    digits: Seq<char>,
    after: Seq<char>,
)
    ensures
        announces(before + "id="@ + digits + " addr="@ + after, before.len() as int, digits)
            <==> digits.len() > 0 && forall|i: int|
            0 <= i < digits.len() ==> is_digit(#[trigger] digits[i]),
{
    let middle = "id="@ + digits + " addr="@;
    let text = before + "id="@ + digits + " addr="@ + after;
    assert(text.skip(before.len() as int) =~= middle + after);
    assert((middle + after).take(middle.len() as int) =~= middle);
}

/// Where a text announces digits, it is made up of what is in front of the
/// announcement, the announcement and what is behind it.
pub proof fn law_announcement_takes_the_text_apart(text: Seq<char>, start: int, digits: Seq<char>)
    requires
        announces(text, start, digits),
    ensures
        0 <= start,
        start + 9 + digits.len() <= text.len(),
        text.take(start) + "id="@ + digits + " addr="@ + text.skip(start + 9 + digits.len())
            == text,
        digits.len() > 0,
        forall|i: int| 0 <= i < digits.len() ==> is_digit(#[trigger] digits[i]),
{
    reveal_strlit("id=");
    reveal_strlit(" addr=");
    let middle = "id="@ + digits + " addr="@;
    let rest = text.skip(start);
    assert(middle == rest.take(middle.len() as int));
    assert(rest =~= middle + rest.skip(middle.len() as int));
    assert(rest.skip(middle.len() as int) =~= text.skip(start + 9 + digits.len()));
    assert(text =~= text.take(start) + rest);
    assert(text.take(start) + "id="@ + digits + " addr="@ + text.skip(start + 9 + digits.len())
        =~= text.take(start) + (middle + text.skip(start + 9 + digits.len())));
}

/// Among the ASCII characters the ten from `0` to `9` are digits.
pub proof fn law_ascii_digits(c: char)
    requires
        c as u32 <= 127,
    ensures
        is_digit(c) <==> 48 <= c as u32 <= 57,
{
}

/// Each further digit is worth itself, and ten times what was in front of it.
pub proof fn law_digits_are_worth_their_place(digits: Seq<char>, digit: nat)
    requires
        digit < 10,
    ensures
        decimal_value(Seq::empty()) == 0,
        decimal_value(digits.push((48 + digit) as char)) == decimal_value(digits) * 10 + digit,
{
    lemma_digit_char(digit);
    assert(digits.push((48 + digit) as char).drop_last() =~= digits);
}

/// A number is read from text that is made of ASCII digits and nothing else, as
/// long as it is less than 2 to the 64th, and from no other text.
pub proof fn law_numbers_are_made_of_digits(text: Seq<char>)
    ensures
        decimal_u64(text) is Some <==> {
            &&& text.len() > 0
            &&& forall|i: int| 0 <= i < text.len() ==> '0' <= #[trigger] text[i] <= '9'
            &&& decimal_value(text) < 0x1_0000_0000_0000_0000
        },
        decimal_u64(text) matches Some(number) ==> number == decimal_value(text),
{
}

/// An id is read from an announcement and from nothing else: the payload must be
/// text, and what it announces first must be the digits of the id.
pub proof fn law_id_is_announced(payload: Seq<u8>, id: u64)
    ensures
        id_in(payload) == Some(id) <==> valid_utf8(payload) && exists|start: int, digits: Seq<char>|
            {
                &&& #[trigger] announces_first(decode_utf8(payload), start, digits)
                &&& decimal_u64(digits) == Some(id)
            },
{
    if valid_utf8(payload) {
        let text = decode_utf8(payload);
        if exists|start: int, digits: Seq<char>|
            {
                &&& #[trigger] announces_first(text, start, digits)
                &&& decimal_u64(digits) == Some(id)
            } {
            let (start, digits): (int, Seq<char>) = choose|start: int, digits: Seq<char>|
                {
                    &&& #[trigger] announces_first(text, start, digits)
                    &&& decimal_u64(digits) == Some(id)
                };
            law_first_announcement_counts(text, start, digits);
        }
        if announced(text) is Some {
            let (start, digits): (int, Seq<char>) = choose|start: int, digits: Seq<char>|
                announces_first(text, start, digits);
            law_first_announcement_counts(text, start, digits);
            assert(announces_first(text, start, digits));
        }
    }
}

/// A text that announces nothing has no id.
pub proof fn law_no_announcement_no_id(text: Seq<char>)
    requires
        forall|start: int, digits: Seq<char>| !#[trigger] announces(text, start, digits),
    ensures
        id_in(encode_utf8(text)) is None,
{
    encode_utf8_valid_utf8(text);
    encode_utf8_decode_utf8(text);
    let payload = encode_utf8(text);
    if id_in(payload) is Some {
        law_id_is_announced(payload, id_in(payload)->0);
        let id = id_in(payload)->0;
        let (start, digits): (int, Seq<char>) = choose|start: int, digits: Seq<char>|
            {
                &&& #[trigger] announces_first(decode_utf8(payload), start, digits)
                &&& decimal_u64(digits) == Some(id)
            };
        assert(announces(text, start, digits));
    }
}

/// The announcement that counts is one of the text, and none of the text is in
/// front of it.
pub proof fn law_first_announcement_is_first(text: Seq<char>, start: int, digits: Seq<char>)
    ensures
        announces_first(text, start, digits) <==> announces(text, start, digits) && forall|
            earlier: int,
            other: Seq<char>,
        | #[trigger]
            announces(text, earlier, other) ==> start <= earlier,
{
}

} // verus!
