//! Heights in bricks and flats, the units that builders think in: a brick is as high as 3 flats.
use crate::text::{decimal, to_chars};
use vstd::prelude::*;
use vstd::string::StringExecFns;

verus! {

/// The character is a decimal digit.
pub open spec fn is_digit(c: char) -> bool {
    '0' <= c <= '9'
}

/// Number that decimal digits stand for.
pub open spec fn number(digits: Seq<char>) -> nat
    decreases digits.len(),
{
    if digits.len() == 0 {
        0
    } else {
        number(digits.drop_last()) * 10 + (digits.last() as nat - 48) as nat
    }
}

/// Length of the run of digits that a text starts with.
pub open spec fn digit_run(text: Seq<char>) -> nat
    decreases text.len(),
{
    if text.len() == 0 || !is_digit(text[0]) {
        0
    } else {
        1 + digit_run(text.skip(1))
    }
}

/// The amount of flats after the bricks: nothing, or a number and `f`, behind at most one space.
pub open spec fn flats_part(text: Seq<char>) -> Option<nat> {
    let rest = if text.len() > 0 && text[0] == ' ' {
        text.skip(1)
    } else {
        text
    };
    let n = digit_run(rest);
    if text.len() == 0 {
        Some(0)
    } else if n > 0 && rest.len() == n + 1 && rest[n as int] == 'f' {
        Some(number(rest.take(n as int)))
    } else {
        None
    }
}

/// The flats that a text without a sign stands for: a bare number is flats, `b` marks bricks and `f`
/// flats, and bricks come before flats.
pub open spec fn magnitude(text: Seq<char>) -> Option<nat> {
    let n = digit_run(text);
    let value = number(text.take(n as int));
    if n == 0 {
        None
    } else if n == text.len() {
        Some(value)
    } else if text[n as int] == 'f' && text.len() == n + 1 {
        Some(value)
    } else if text[n as int] == 'b' {
        match flats_part(text.skip(n as int + 1)) {
            Some(flats) => Some(value * 3 + flats),
            None => None,
        }
    } else {
        None
    }
}

/// The flats that a text stands for. A leading `-` negates the whole.
pub open spec fn amount(text: Seq<char>) -> Option<int> {
    if text.len() > 0 && text[0] == '-' {
        match magnitude(text.skip(1)) {
            Some(m) => Some(-(m as int)),
            None => None,
        }
    } else {
        match magnitude(text) {
            Some(m) => Some(m as int),
            None => None,
        }
    }
}

/// A height without a sign in bricks and flats; a part that is zero is left out.
pub open spec fn magnitude_text(flats: nat) -> Seq<char> {
    let bricks = crate::text::decimal_chars(flats / 3) + "b"@;
    let rest = crate::text::decimal_chars(flats % 3) + "f"@;
    if flats / 3 == 0 {
        rest
    } else if flats % 3 == 0 {
        bricks
    } else {
        bricks + " "@ + rest
    }
}

/// A height in bricks and flats. The sign is written once, in front of the whole.
pub open spec fn height_text(flats: int) -> Seq<char> {
    if flats < 0 {
        "-"@ + magnitude_text((-flats) as nat)
    } else {
        magnitude_text(flats as nat)
    }
}

/// Write a height in bricks and flats.
pub fn fmt_bricks_flats(flats: i64) -> (text: String)
    ensures
        text@ == height_text(flats as int),
{
    let size: u64 = if flats < 0 {
        (-(flats as i128)) as u64
    } else {
        flats as u64
    };
    let mut text: String = if flats < 0 {
        "-".to_owned()
    } else {
        String::new()
    };
    let ghost sign: Seq<char> = text@;
    let bricks: u64 = size / 3;
    let rest: u64 = size % 3;
    if bricks > 0 {
        text.append(decimal(bricks).as_str());
        text.append("b");
        if rest > 0 {
            text.append(" ");
        }
    }
    if rest > 0 || bricks == 0 {
        text.append(decimal(rest).as_str());
        text.append("f");
    }
    proof {
        assert(text@ =~= sign + magnitude_text(size as nat));
        assert(text@ =~= height_text(flats as int));
    }
    text
}

/// Read the digits that stand at `from`: where they end and their number, unless it is too large.
fn read_number(text: &Vec<char>, from: usize) -> (read: (usize, Option<u64>))
    requires
        from <= text@.len(),
    ensures
        read.0 == from + digit_run(text@.skip(from as int)),
        read.0 <= text@.len(),
        match read.1 {
            Some(n) => n == number(text@.subrange(from as int, read.0 as int)),
            None => number(text@.subrange(from as int, read.0 as int)) > u64::MAX,
        },
{
    let mut value: Option<u64> = Some(0);
    let mut i: usize = from;
    assert(text@.subrange(from as int, from as int).len() == 0);
    while i < text.len() && text[i] >= '0' && text[i] <= '9'
        invariant
            from <= i <= text@.len(),
            from + digit_run(text@.skip(from as int)) == i + digit_run(text@.skip(i as int)),
            match value {
                Some(n) => n == number(text@.subrange(from as int, i as int)),
                None => number(text@.subrange(from as int, i as int)) > u64::MAX,
            },
        decreases text@.len() - i,
    {
        let digit: u64 = text[i] as u64 - 48;
        proof {
            let grown = text@.subrange(from as int, i + 1);
            assert(grown.drop_last() =~= text@.subrange(from as int, i as int));
            assert(grown.last() == text@[i as int]);
            assert(text@.skip(i as int).skip(1) =~= text@.skip(i + 1));
            assert(text@.skip(i as int)[0] == text@[i as int]);
        }
        value = match value {
            Some(n) => match n.checked_mul(10) {
                Some(m) => m.checked_add(digit),
                None => None,
            },
            None => None,
        };
        i = i + 1;
    }
    proof {
        if i < text@.len() {
            assert(text@.skip(i as int)[0] == text@[i as int]);
        }
    }
    (i, value)
}

/// Read bricks and flats from `from` to the end of a text, unless the amount is too large.
fn read_magnitude(text: &Vec<char>, from: usize) -> (flats: Option<u64>)
    requires
        from <= text@.len(),
    ensures
        match flats {
            Some(n) => magnitude(text@.skip(from as int)) == Some(n as nat),
            None => magnitude(text@.skip(from as int)) matches Some(n) ==> n > u64::MAX,
        },
{
    let ghost rest: Seq<char> = text@.skip(from as int);
    let (end, value) = read_number(text, from);
    let ghost n: int = end - from;
    proof {
        lemma_run_bound(rest);
        assert(rest.take(n) =~= text@.subrange(from as int, end as int));
        if end < text@.len() {
            assert(rest[n] == text@[end as int]);
        }
    }
    if end == from {
        return None;
    }
    if end == text.len() {
        return value;
    }
    if text[end] == 'f' && end + 1 == text.len() {
        return value;
    }
    if text[end] != 'b' {
        return None;
    }
    let ghost tail: Seq<char> = text@.skip(end + 1);
    assert(rest.skip(n + 1) =~= tail);
    let flats: Option<u64> = if end + 1 == text.len() {
        Some(0)
    } else {
        let start: usize = if text[end + 1] == ' ' {
            end + 2
        } else {
            end + 1
        };
        let (stop, part) = read_number(text, start);
        proof {
            assert(tail[0] == text@[end + 1]);
            let after = if tail[0] == ' ' {
                tail.skip(1)
            } else {
                tail
            };
            assert(after =~= text@.skip(start as int));
            lemma_run_bound(after);
            assert(after.take(stop - start) =~= text@.subrange(start as int, stop as int));
            if stop < text@.len() {
                assert(after[stop - start] == text@[stop as int]);
            }
        }
        if stop > start && stop < text.len() && stop + 1 == text.len() && text[stop] == 'f' {
            part
        } else {
            return None;
        }
    };
    match (value, flats) {
        (Some(b), Some(f)) => match b.checked_mul(3) {
            Some(m) => m.checked_add(f),
            None => None,
        },
        _ => None,
    }
}

/// Read a height in bricks and flats: `2b 1f`, `2b1f`, `1b`, `2f`, or a bare number of flats, with a
/// leading `-` for the whole. An amount that is no 64-bit number is not read.
pub fn parse_bricks_flats(text: &str) -> (flats: Option<i64>)
    ensures
        match flats {
            Some(n) => amount(text@) == Some(n as int),
            None => amount(text@) matches Some(n) ==> !(i64::MIN <= n <= i64::MAX),
        },
{
    let chars: Vec<char> = to_chars(text);
    if chars.len() > 0 && chars[0] == '-' {
        match read_magnitude(&chars, 1) {
            Some(m) => {
                if m <= i64::MAX as u64 {
                    Some(-(m as i64))
                } else if m == 0x8000_0000_0000_0000 {
                    Some(i64::MIN)
                } else {
                    None
                }
            },
            None => None,
        }
    } else {
        assert(chars@.skip(0) =~= chars@);
        match read_magnitude(&chars, 0) {
            Some(m) => {
                if m <= i64::MAX as u64 {
                    Some(m as i64)
                } else {
                    None
                }
            },
            None => None,
        }
    }
}

proof fn lemma_run_bound(text: Seq<char>)
    ensures
        digit_run(text) <= text.len(),
    decreases text.len(),
{
    if text.len() > 0 && is_digit(text[0]) {
        lemma_run_bound(text.skip(1));
    }
}

/// Decimal notation is made of digits and reads back as its number.
proof fn lemma_decimal(n: nat)
    ensures
        crate::text::decimal_chars(n).len() > 0,
        forall|i: int|
            0 <= i < crate::text::decimal_chars(n).len() ==> is_digit(
                #[trigger] crate::text::decimal_chars(n)[i],
            ),
        number(crate::text::decimal_chars(n)) == n,
    decreases n,
{
    let chars = crate::text::decimal_chars(n);
    if n < 10 {
        assert(chars.drop_last() =~= Seq::<char>::empty());
        assert(number(chars.drop_last()) == 0);
        assert(chars.last() as nat == 48 + n);
    } else {
        lemma_decimal(n / 10);
        let head = crate::text::decimal_chars(n / 10);
        assert(chars.drop_last() =~= head);
        assert(chars.last() as nat == 48 + n % 10);
        assert forall|i: int| 0 <= i < chars.len() implies is_digit(#[trigger] chars[i]) by {
            if i < head.len() {
                assert(chars[i] == head[i]);
            }
        }
    }
}

/// The run of digits of a text ends where its digits end.
proof fn lemma_run(digits: Seq<char>, rest: Seq<char>)
    requires
        forall|i: int| 0 <= i < digits.len() ==> is_digit(#[trigger] digits[i]),
        rest.len() > 0 ==> !is_digit(rest[0]),
    ensures
        digit_run(digits + rest) == digits.len(),
        (digits + rest).take(digits.len() as int) == digits,
        (digits + rest).skip(digits.len() as int) == rest,
    decreases digits.len(),
{
    let all = digits + rest;
    assert(all.take(digits.len() as int) =~= digits);
    assert(all.skip(digits.len() as int) =~= rest);
    if digits.len() > 0 {
        let fewer = digits.skip(1);
        assert forall|i: int| 0 <= i < fewer.len() implies is_digit(#[trigger] fewer[i]) by {
            assert(fewer[i] == digits[i + 1]);
        }
        lemma_run(fewer, rest);
        assert(all.skip(1) =~= fewer + rest);
        assert(all[0] == digits[0]);
    } else {
        assert(all =~= rest);
    }
}

proof fn lemma_magnitude_reads_back(flats: nat)
    ensures
        magnitude(magnitude_text(flats)) == Some(flats),
        magnitude_text(flats).len() > 0,
        is_digit(magnitude_text(flats)[0]),
{
    reveal_strlit("b");
    reveal_strlit("f");
    reveal_strlit(" ");
    let text = magnitude_text(flats);
    let b = crate::text::decimal_chars(flats / 3);
    let f = crate::text::decimal_chars(flats % 3);
    lemma_decimal(flats / 3);
    lemma_decimal(flats % 3);
    lemma_run(f, "f"@);
    if flats / 3 == 0 {
        assert(text =~= f + "f"@);
        assert(text[0] == f[0]);
        assert(text[f.len() as int] == 'f');
    } else {
        let tail = if flats % 3 == 0 {
            Seq::<char>::empty()
        } else {
            " "@ + (f + "f"@)
        };
        let rest = "b"@ + tail;
        lemma_run(b, rest);
        assert(text =~= b + rest);
        assert(text[0] == b[0]);
        assert(text[b.len() as int] == 'b');
        assert(text.skip(b.len() as int + 1) =~= tail);
        if flats % 3 > 0 {
            assert(tail[0] == ' ');
            assert(tail.skip(1) =~= f + "f"@);
            assert((f + "f"@)[f.len() as int] == 'f');
        }
    }
}

/// A written height reads back as the same height.
pub proof fn written_heights_read_back(flats: int)
    ensures
        amount(height_text(flats)) == Some(flats),
{
    reveal_strlit("-");
    let m = if flats < 0 {
        (-flats) as nat
    } else {
        flats as nat
    };
    lemma_magnitude_reads_back(m);
    if flats < 0 {
        let text = height_text(flats);
        assert(text.skip(1) =~= magnitude_text(m));
        assert(text[0] == '-');
    }
}

/// Numbers in decimal notation are made of digits and read back as they were.
pub proof fn written_numbers_read_back(n: nat, i: int)
    ensures
        number(crate::text::decimal_chars(n)) == n,
        0 <= i < crate::text::decimal_chars(n).len() ==> is_digit(crate::text::decimal_chars(n)[i]),
{
    lemma_decimal(n);
}

/// A brick is three flats: bricks and flats that are written side by side count that many.
pub proof fn bricks_count_three_flats(bricks: nat, flats: nat)
    requires
        bricks > 0,
        0 < flats < 3,
    ensures
        height_text((bricks * 3 + flats) as int) == crate::text::decimal_chars(bricks) + "b"@ + " "@ + (
        crate::text::decimal_chars(flats) + "f"@),
        height_text((bricks * 3) as int) == crate::text::decimal_chars(bricks) + "b"@,
        height_text(flats as int) == crate::text::decimal_chars(flats) + "f"@,
        amount(height_text((bricks * 3 + flats) as int)) == Some((bricks * 3 + flats) as int),
{
    written_heights_read_back((bricks * 3 + flats) as int);
}

} // verus!
