//! Numbers in messages, and strings as lists of characters.
use vstd::prelude::*;
use vstd::string::StringExecFns;

verus! {

/// The character of a decimal digit.
pub open spec fn digit_char(d: nat) -> char {
    ((48 + d) as u8) as char
}

/// Decimal notation of a number.
pub open spec fn decimal_chars(n: nat) -> Seq<char>
    decreases n,
{
    if n < 10 {
        seq![digit_char(n)]
    } else {
        decimal_chars(n / 10).push(digit_char(n % 10))
    }
}

fn digit_text(d: u64) -> (s: &'static str)
    requires
        d < 10,
    ensures
        s@ == seq![digit_char(d as nat)],
{
    proof {
        reveal_strlit("0");
        reveal_strlit("1");
        reveal_strlit("2");
        reveal_strlit("3");
        reveal_strlit("4");
        reveal_strlit("5");
        reveal_strlit("6");
        reveal_strlit("7");
        reveal_strlit("8");
        reveal_strlit("9");
    }
    let s: &'static str = match d {
        0 => "0",
        1 => "1",
        2 => "2",
        3 => "3",
        4 => "4",
        5 => "5",
        6 => "6",
        7 => "7",
        8 => "8",
        _ => "9",
    };
    assert(s@ =~= seq![digit_char(d as nat)]);
    s
}

/// Write a number in decimal notation.
pub fn decimal(n: u64) -> (s: String)
    ensures
        s@ == decimal_chars(n as nat),
    decreases n,
{
    if n < 10 {
        digit_text(n).to_owned()
    } else {
        let mut s: String = decimal(n / 10);
        let ghost head: Seq<char> = s@;
        s.append(digit_text(n % 10));
        assert(s@ =~= head.push(digit_char((n % 10) as nat)));
        s
    }
}

/// [`String::push`]: appends the character to the end of the string.
pub assume_specification[ String::push ](s: &mut String, c: char)
    ensures
        final(s)@ == old(s)@.push(c),
;

/// The characters of a string.
pub fn to_chars(s: &str) -> (chars: Vec<char>)
    ensures
        chars@ == s@,
{
    let mut chars: Vec<char> = Vec::new();
    for c in it: s.chars()
        invariant
            it.seq() == s@,
            chars@ == it.seq().take(it.index() as int),
    {
        chars.push(c);
    }
    assert(chars@ =~= s@);
    chars
}

/// The string made of the characters.
pub fn from_chars(chars: &Vec<char>) -> (s: String)
    ensures
        s@ == chars@,
{
    let mut s: String = String::new();
    let mut i: usize = 0;
    assert(s@ =~= chars@.take(0));
    while i < chars.len()
        invariant
            i <= chars@.len(),
            s@ == chars@.take(i as int),
        decreases chars@.len() - i,
    {
        s.push(chars[i]);
        i = i + 1;
        assert(chars@.take(i as int) =~= chars@.take(i - 1).push(chars@[i - 1]));
    }
    assert(chars@.take(i as int) =~= chars@);
    s
}

/// A character with `A..=Z` turned into `a..=z`.
pub open spec fn ascii_lower(c: char) -> char {
    if 'A' <= c <= 'Z' {
        ((c as u8 + 32) as u8) as char
    } else {
        c
    }
}

pub fn to_ascii_lower(c: char) -> (l: char)
    ensures
        l == ascii_lower(c),
{
    if 'A' <= c && c <= 'Z' {
        (c as u8 + 32) as char
    } else {
        c
    }
}

/// The text with `A..=Z` turned into `a..=z`.
pub open spec fn lowered(s: Seq<char>) -> Seq<char> {
    s.map_values(|c: char| ascii_lower(c))
}

/// The part `from..to` of the text equals `name`, letter case aside.
pub fn reads_as(s: &Vec<char>, from: usize, to: usize, name: &str) -> (same: bool)
    requires
        from <= to <= s@.len(),
    ensures
        same == (lowered(s@.subrange(from as int, to as int)) == name@),
{
    let want: Vec<char> = to_chars(name);
    let ghost got: Seq<char> = lowered(s@.subrange(from as int, to as int));
    if to - from != want.len() {
        return false;
    }
    let mut i: usize = 0;
    while i < want.len()
        invariant
            from <= to <= s@.len(),
            to - from == want@.len(),
            want@ == name@,
            got == lowered(s@.subrange(from as int, to as int)),
            i <= want@.len(),
            forall|k: int| 0 <= k < i ==> got[k] == want@[k],
        decreases want@.len() - i,
    {
        assert(got[i as int] == ascii_lower(s@[from + i]));
        if to_ascii_lower(s[from + i]) != want[i] {
            return false;
        }
        i = i + 1;
    }
    assert(got =~= want@);
    true
}

/// The text equals `name`, letter case aside.
pub fn same_lowered(text: &str, name: &str) -> (same: bool)
    ensures
        same == (lowered(text@) == name@),
{
    let s: Vec<char> = to_chars(text);
    assert(s@.subrange(0, s@.len() as int) =~= text@);
    reads_as(&s, 0, s.len(), name)
}

/// Whether two texts are the same.
pub fn same_text(a: &str, b: &str) -> (same: bool)
    ensures
        same == (a@ == b@),
{
    let x: Vec<char> = to_chars(a);
    let y: Vec<char> = to_chars(b);
    if x.len() != y.len() {
        return false;
    }
    let mut i: usize = 0;
    while i < x.len()
        invariant
            i <= x@.len(),
            x@.len() == y@.len(),
            x@ == a@,
            y@ == b@,
            forall|j: int| 0 <= j < i ==> x@[j] == y@[j],
        decreases x@.len() - i,
    {
        if x[i] != y[i] {
            return false;
        }
        i = i + 1;
    }
    assert(x@ =~= y@);
    true
}

/// The character is white space, as Unicode has it.
pub open spec fn is_white(c: char) -> bool {
    let n = c as u32;
    9 <= n <= 13 || n == 32 || n == 0x85 || n == 0xA0 || n == 0x1680 || 0x2000 <= n <= 0x200A || n
        == 0x2028 || n == 0x2029 || n == 0x202F || n == 0x205F || n == 0x3000
}

/// The text without the white space at its ends.
pub open spec fn trimmed(text: Seq<char>) -> Seq<char>
    decreases text.len(),
{
    if text.len() == 0 {
        text
    } else if is_white(text[0]) {
        trimmed(text.drop_first())
    } else if is_white(text.last()) {
        trimmed(text.drop_last())
    } else {
        text
    }
}

fn is_white_space(c: char) -> (b: bool)
    ensures
        b == is_white(c),
{
    let n: u32 = c as u32;
    (9 <= n && n <= 13) || n == 32 || n == 0x85 || n == 0xA0 || n == 0x1680 || (0x2000 <= n && n
        <= 0x200A) || n == 0x2028 || n == 0x2029 || n == 0x202F || n == 0x205F || n == 0x3000
}

/// Take the white space off both ends of a text.
pub fn trim(text: &str) -> (rest: String)
    ensures
        rest@ == trimmed(text@),
{
    let chars: Vec<char> = to_chars(text);
    let mut from: usize = 0;
    let mut to: usize = chars.len();
    assert(chars@.subrange(0, chars@.len() as int) =~= chars@);
    while from < to && is_white_space(chars[from])
        invariant
            from <= to == chars@.len(),
            trimmed(chars@) == trimmed(chars@.subrange(from as int, to as int)),
        decreases to - from,
    {
        assert(chars@.subrange(from as int, to as int).drop_first() =~= chars@.subrange(
            from + 1,
            to as int,
        ));
        from = from + 1;
    }
    while from < to && is_white_space(chars[to - 1])
        invariant
            from <= to <= chars@.len(),
            from < to ==> !is_white(chars@[from as int]),
            trimmed(chars@) == trimmed(chars@.subrange(from as int, to as int)),
        decreases to - from,
    {
        assert(chars@.subrange(from as int, to as int).drop_last() =~= chars@.subrange(
            from as int,
            to - 1,
        ));
        to = to - 1;
    }
    let mut rest: Vec<char> = Vec::new();
    let mut i: usize = from;
    while i < to
        invariant
            from <= i <= to <= chars@.len(),
            rest@ == chars@.subrange(from as int, i as int),
        decreases to - i,
    {
        rest.push(chars[i]);
        i = i + 1;
        assert(rest@ =~= chars@.subrange(from as int, i as int));
    }
    from_chars(&rest)
}

/// Trimming takes white space off the ends and nothing else: what is left starts and ends with other
/// characters, and what goes is all white space.
pub proof fn trimming_takes_off_white_space(text: Seq<char>) -> (cut: (int, int))
    ensures
        0 <= cut.0 <= cut.1 <= text.len(),
        trimmed(text) == text.subrange(cut.0, cut.1),
        forall|i: int| 0 <= i < cut.0 ==> is_white(#[trigger] text[i]),
        forall|i: int| cut.1 <= i < text.len() ==> is_white(#[trigger] text[i]),
        cut.0 < cut.1 ==> !is_white(text[cut.0]) && !is_white(text[cut.1 - 1]),
    decreases text.len(),
{
    if text.len() == 0 {
        assert(text.subrange(0, 0) =~= text);
        (0, 0)
    } else if is_white(text[0]) {
        let rest = text.drop_first();
        let (a, b) = trimming_takes_off_white_space(rest);
        assert(rest.subrange(a, b) =~= text.subrange(a + 1, b + 1));
        assert forall|i: int| 0 <= i < a + 1 implies is_white(#[trigger] text[i]) by {
            if i > 0 {
                assert(rest[i - 1] == text[i]);
            }
        }
        assert forall|i: int| b + 1 <= i < text.len() implies is_white(#[trigger] text[i]) by {
            assert(rest[i - 1] == text[i]);
        }
        (a + 1, b + 1)
    } else if is_white(text.last()) {
        let rest = text.drop_last();
        let (a, b) = trimming_takes_off_white_space(rest);
        assert(rest.subrange(a, b) =~= text.subrange(a, b));
        assert forall|i: int| 0 <= i < a implies is_white(#[trigger] text[i]) by {
            assert(rest[i] == text[i]);
        }
        assert forall|i: int| b <= i < text.len() implies is_white(#[trigger] text[i]) by {
            if i < rest.len() {
                assert(rest[i] == text[i]);
            }
        }
        (a, b)
    } else {
        assert(text.subrange(0, text.len() as int) =~= text);
        (0, text.len() as int)
    }
}

/// Letter case aside means ASCII letters: `A` to `Z` count as `a` to `z`, and everything else as it is.
pub proof fn only_ascii_letters_change_case(s: Seq<char>, i: int)
    requires
        0 <= i < s.len(),
    ensures
        lowered(s).len() == s.len(),
        'A' <= s[i] <= 'Z' ==> lowered(s)[i] as u32 == s[i] as u32 + 32,
        !('A' <= s[i] <= 'Z') ==> lowered(s)[i] == s[i],
{
}

/// Numbers are written without leading zeros: only 0 starts with one.
pub proof fn numbers_have_no_leading_zeros(n: nat)
    ensures
        decimal_chars(n).len() > 0,
        n > 0 ==> decimal_chars(n)[0] != '0',
        n == 0 ==> decimal_chars(n) == seq!['0'],
    decreases n,
{
    if n >= 10 {
        numbers_have_no_leading_zeros(n / 10);
        assert(decimal_chars(n)[0] == decimal_chars(n / 10)[0]);
    } else {
        assert(decimal_chars(0) =~= seq!['0']);
    }
}

} // verus!
