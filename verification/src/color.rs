//! The colour of a message: the colour of the issue's first label, read as
//! a hexadecimal number.

use vstd::prelude::*;
use vstd::string::is_ascii_spec_bytes;
use crate::github_dtos::Label;

verus! {

/// The greatest colour there is: six hexadecimal digits, all `f`.
pub const MAX_COLOR: i64 = 0xFF_FFFF;

pub open spec fn is_hex_digit(c: char) -> bool {
    ('0' <= c <= '9') || ('a' <= c <= 'f') || ('A' <= c <= 'F')
}

/// The number that a hexadecimal digit stands for.
pub open spec fn hex_digit_value(c: char) -> int {
    if '0' <= c <= '9' {
        c as int - '0' as int
    } else if 'a' <= c <= 'f' {
        c as int - 'a' as int + 10
    } else {
        c as int - 'A' as int + 10
    }
}

pub open spec fn all_hex(text: Seq<char>) -> bool {
    forall|i: int| 0 <= i < text.len() ==> is_hex_digit(#[trigger] text[i])
}

/// The number that a sequence of hexadecimal digits stands for, the first
/// digit counting most.
pub open spec fn hex_value(text: Seq<char>) -> int
    decreases text.len(),
{
    if text.len() == 0 {
        0
    } else {
        16 * hex_value(text.drop_last()) + hex_digit_value(text.last())
    }
}

/// A text is a colour when it is made of hexadecimal digits, at least one,
/// and the number they stand for is at most `MAX_COLOR`.
pub open spec fn is_color(text: Seq<char>) -> bool {
    text.len() > 0 && all_hex(text) && hex_value(text) <= MAX_COLOR
}

/// The colour that a text stands for; 0 where it is no colour.
pub open spec fn color_value(text: Seq<char>) -> int {
    if is_color(text) {
        hex_value(text)
    } else {
        0
    }
}

/// The colour of an issue with these labels: that of the first label; 0
/// where there is no label.
pub open spec fn issue_color_spec(labels: Seq<Label>) -> int {
    if labels.len() == 0 {
        0
    } else {
        color_value(labels[0].color@)
    }
}

/// Digits added at the end never make the number smaller.
proof fn lemma_hex_value_grows(text: Seq<char>, n: int)
    requires
        all_hex(text),
        0 <= n <= text.len(),
    ensures
        0 <= hex_value(text.take(n)) <= hex_value(text),
    decreases text.len() - n,
{
    if n == text.len() {
        assert(text.take(n) =~= text);
        lemma_hex_value_nonnegative(text);
    } else {
        lemma_hex_value_grows(text, n + 1);
        assert(text.take(n + 1).drop_last() =~= text.take(n));
        assert(is_hex_digit(text[n]));
        lemma_hex_value_nonnegative_prefix(text, n);
    }
}

proof fn lemma_hex_value_nonnegative(text: Seq<char>)
    requires
        all_hex(text),
    ensures
        0 <= hex_value(text),
    decreases text.len(),
{
    if text.len() > 0 {
        assert(all_hex(text.drop_last())) by {
            assert forall|i: int| 0 <= i < text.drop_last().len() implies is_hex_digit(
                #[trigger] text.drop_last()[i],
            ) by {
                assert(is_hex_digit(text[i]));
            }
        }
        lemma_hex_value_nonnegative(text.drop_last());
        assert(is_hex_digit(text[text.len() - 1]));
    }
}

proof fn lemma_hex_value_nonnegative_prefix(text: Seq<char>, n: int)
    requires
        all_hex(text),
        0 <= n <= text.len(),
    ensures
        0 <= hex_value(text.take(n)),
{
    assert(all_hex(text.take(n))) by {
        assert forall|i: int| 0 <= i < text.take(n).len() implies is_hex_digit(
            #[trigger] text.take(n)[i],
        ) by {
            assert(is_hex_digit(text[i]));
        }
    }
    lemma_hex_value_nonnegative(text.take(n));
}

/// A text that is empty, or holds anything but hexadecimal digits, stands
/// for the colour 0.
pub proof fn lemma_unreadable_color_is_zero(text: Seq<char>)
    requires
        text.len() == 0 || !all_hex(text),
    ensures
        color_value(text) == 0,
{
}

/// Every colour lies between 0 and `MAX_COLOR`.
pub proof fn lemma_color_in_range(text: Seq<char>)
    ensures
        0 <= color_value(text) <= MAX_COLOR,
{
    if is_color(text) {
        lemma_hex_value_nonnegative(text);
    }
}

/// An issue without labels has the colour 0.
pub proof fn lemma_no_labels_no_color(labels: Seq<Label>)
    requires
        labels.len() == 0,
    ensures
        issue_color_spec(labels) == 0,
{
}

/// The number that the byte of a hexadecimal digit stands for, if it is
/// one.
fn hex_digit(byte: u8) -> (digit: Option<u8>)
    ensures
        match digit {
            Some(d) => is_hex_digit(byte as char) && d == hex_digit_value(byte as char),
            None => !is_hex_digit(byte as char),
        },
{
    if 0x30 <= byte && byte <= 0x39 {
        Some(byte - 0x30)
    } else if 0x61 <= byte && byte <= 0x66 {
        Some(byte - 0x61 + 10)
    } else if 0x41 <= byte && byte <= 0x46 {
        Some(byte - 0x41 + 10)
    } else {
        None
    }
}

/// Reads a colour: the number that the text stands for where it is made of
/// hexadecimal digits and the number is at most `MAX_COLOR`, and 0 in every
/// other case.
pub fn parse_color(text: &str) -> (color: i64)
    ensures
        color == color_value(text@),
        0 <= color <= MAX_COLOR,
{
    if !text.is_ascii() {
        proof {
            let i = choose|i: int|
                0 <= i < text@.len() && !('\0' <= #[trigger] text@[i] <= '\u{7f}');
            assert(!is_hex_digit(text@[i]));
        }
        return 0;
    }
    let bytes = text.as_bytes();
    proof {
        is_ascii_spec_bytes(text);
    }
    if bytes.len() == 0 {
        return 0;
    }
    let mut value: i64 = 0;
    let mut i: usize = 0;
    while i < bytes.len()
        invariant
            i <= bytes@.len(),
            bytes@.len() == text@.len(),
            forall|k: int| 0 <= k < text@.len() ==> text@[k] as u8 == #[trigger] bytes@[k],
            forall|k: int| 0 <= k < text@.len() ==> '\0' <= #[trigger] text@[k] <= '\u{7f}',
            forall|k: int| 0 <= k < i ==> is_hex_digit(#[trigger] text@[k]),
            value == hex_value(text@.take(i as int)),
            0 <= value <= MAX_COLOR,
        decreases bytes@.len() - i,
    {
        let ghost c = text@[i as int];
        assert(c as u8 == bytes@[i as int]);
        assert('\0' <= c <= '\u{7f}');
        assert((bytes@[i as int] as char) == c);
        match hex_digit(bytes[i]) {
            Some(d) => {
                let next = value * 16 + (d as i64);
                assert(text@.take(i + 1).drop_last() =~= text@.take(i as int));
                assert(next == hex_value(text@.take(i + 1)));
                if next > MAX_COLOR {
                    proof {
                        if all_hex(text@) {
                            lemma_hex_value_grows(text@, i + 1);
                        }
                    }
                    return 0;
                }
                value = next;
            },
            None => {
                return 0;
            },
        }
        i += 1;
    }
    assert(text@.take(i as int) =~= text@);
    value
}

/// The colour of an issue with these labels.
pub fn issue_color(labels: &Vec<Label>) -> (color: i64)
    ensures
        color == issue_color_spec(labels@),
        0 <= color <= MAX_COLOR,
{
    if labels.len() == 0 {
        0
    } else {
        parse_color(labels[0].color.as_str())
    }
}

} // verus!
