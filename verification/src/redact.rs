//! Masking of access tokens in URLs and error messages.
use crate::text::{from_chars, reads_as, to_chars};
use vstd::prelude::*;

verus! {

/// What stands in for a masked value.
pub open spec fn mask() -> Seq<char> {
    seq!['*', '*', '*']
}

/// Position of the first `c`, or the length of the text where there is none.
pub open spec fn first_index(s: Seq<char>, c: char) -> int
    decreases s.len(),
{
    if s.len() == 0 || s[0] == c {
        0
    } else {
        1 + first_index(s.skip(1), c)
    }
}

/// The names of query parameters that carry secrets.
pub open spec fn is_secret_name(key: Seq<char>) -> bool {
    let k = crate::text::lowered(key);
    k == "access_token"@ || k == "api_key"@ || k == "key"@ || k == "token"@
}

/// A `key=value` pair with the value masked where the key is a secret's.
pub open spec fn redacted_pair(pair: Seq<char>) -> Seq<char> {
    let i = first_index(pair, '=');
    if i < pair.len() && is_secret_name(pair.take(i)) {
        pair.take(i + 1) + mask()
    } else {
        pair
    }
}

/// A query with each of its `&`-separated pairs redacted.
pub open spec fn redacted_query(query: Seq<char>) -> Seq<char>
    decreases query.len(),
{
    let i = first_index(query, '&');
    if 0 <= i < query.len() {
        redacted_pair(query.take(i)).push('&') + redacted_query(query.skip(i + 1))
    } else {
        redacted_pair(query)
    }
}

/// A URL with its query redacted; a URL without a query stays as it is.
pub open spec fn redacted_url(url: Seq<char>) -> Seq<char> {
    let i = first_index(url, '?');
    if i < url.len() {
        url.take(i + 1) + redacted_query(url.skip(i + 1))
    } else {
        url
    }
}

proof fn lemma_first_index(s: Seq<char>, c: char)
    ensures
        0 <= first_index(s, c) <= s.len(),
        first_index(s, c) < s.len() ==> s[first_index(s, c)] == c,
        forall|k: int| 0 <= k < first_index(s, c) ==> s[k] != c,
    decreases s.len(),
{
    if s.len() > 0 && s[0] != c {
        let rest = s.skip(1);
        lemma_first_index(rest, c);
        assert forall|k: int| 0 <= k < first_index(s, c) implies s[k] != c by {
            if k > 0 {
                assert(s[k] == rest[k - 1]);
            }
        }
    }
}

/// Position of the first `c` at or after `from`.
fn index_from(s: &Vec<char>, from: usize, c: char) -> (i: usize)
    requires
        from <= s@.len(),
    ensures
        from <= i <= s@.len(),
        i - from == first_index(s@.skip(from as int), c),
    decreases s@.len() - from,
{
    let ghost rest: Seq<char> = s@.skip(from as int);
    if from == s.len() || s[from] == c {
        from
    } else {
        assert(rest.skip(1) =~= s@.skip(from + 1));
        index_from(s, from + 1, c)
    }
}

fn is_secret_param(s: &Vec<char>, from: usize, to: usize) -> (secret: bool)
    requires
        from <= to <= s@.len(),
    ensures
        secret == is_secret_name(s@.subrange(from as int, to as int)),
{
    reads_as(s, from, to, "access_token") || reads_as(s, from, to, "api_key") || reads_as(
        s,
        from,
        to,
        "key",
    ) || reads_as(s, from, to, "token")
}

/// Append the part `from..to` of a text.
fn append_part(out: &mut Vec<char>, s: &Vec<char>, from: usize, to: usize)
    requires
        from <= to <= s@.len(),
    ensures
        final(out)@ == old(out)@ + s@.subrange(from as int, to as int),
{
    let ghost head: Seq<char> = out@;
    let mut i: usize = from;
    assert(head + s@.subrange(from as int, from as int) =~= head);
    while i < to
        invariant
            from <= i <= to <= s@.len(),
            out@ == head + s@.subrange(from as int, i as int),
        decreases to - i,
    {
        out.push(s[i]);
        i = i + 1;
        assert(s@.subrange(from as int, i as int) =~= s@.subrange(from as int, i - 1).push(
            s@[i - 1],
        ));
        assert(out@ =~= head + s@.subrange(from as int, i as int));
    }
}

fn append_mask(out: &mut Vec<char>)
    ensures
        final(out)@ == old(out)@ + mask(),
{
    let ghost head: Seq<char> = out@;
    out.push('*');
    out.push('*');
    out.push('*');
    assert(out@ =~= head + mask());
}

/// Replace the value of any secret-bearing query parameter with `***` so a
/// URL embedded in an error never discloses an API token. Non-query URLs
/// (AWS Terrarium, ESRI) pass through unchanged so the error stays useful.
pub fn redact_url(url: &str) -> (safe: String)
    ensures
        safe@ == redacted_url(url@),
{
    let s: Vec<char> = to_chars(url);
    assert(s@.skip(0) =~= s@);
    proof {
        lemma_first_index(s@, '?');
    }
    let q: usize = index_from(&s, 0, '?');
    if q == s.len() {
        return url.to_owned();
    }
    let mut out: Vec<char> = Vec::new();
    append_part(&mut out, &s, 0, q + 1);
    assert(out@ =~= s@.take(q + 1));
    let mut at: usize = q + 1;
    let mut more: bool = true;
    assert(out@ + redacted_query(s@.skip(at as int)) =~= redacted_url(s@));
    while more
        invariant
            at <= s@.len(),
            more ==> out@ + redacted_query(s@.skip(at as int)) == redacted_url(s@),
            !more ==> out@ == redacted_url(s@),
        decreases s@.len() - at, if more {
            1int
        } else {
            0
        },
    {
        let ghost query: Seq<char> = s@.skip(at as int);
        let end: usize = index_from(&s, at, '&');
        let ghost pair: Seq<char> = query.take(end - at);
        let ghost before: Seq<char> = out@;
        proof {
            lemma_first_index(query, '&');
            assert(pair =~= s@.subrange(at as int, end as int));
        }
        append_redacted_pair(&mut out, &s, at, end);
        if end < s.len() {
            out.push('&');
            proof {
                assert(query.skip(end - at + 1) =~= s@.skip(end + 1));
                assert(out@ + redacted_query(s@.skip(end + 1)) =~= before + redacted_query(query));
            }
            at = end + 1;
        } else {
            proof {
                assert(pair =~= query);
            }
            more = false;
        }
    }
    from_chars(&out)
}

fn append_redacted_pair(out: &mut Vec<char>, s: &Vec<char>, from: usize, to: usize)
    requires
        from <= to <= s@.len(),
    ensures
        final(out)@ == old(out)@ + redacted_pair(s@.subrange(from as int, to as int)),
{
    let ghost pair: Seq<char> = s@.subrange(from as int, to as int);
    let ghost head: Seq<char> = out@;
    let mut eq: usize = from;
    while eq < to && s[eq] != '='
        invariant
            from <= eq <= to <= s@.len(),
            pair == s@.subrange(from as int, to as int),
            forall|k: int| 0 <= k < eq - from ==> pair[k] != '=',
        decreases to - eq,
    {
        eq = eq + 1;
    }
    proof {
        lemma_first_index(pair, '=');
        let i = first_index(pair, '=');
        if eq < to {
            assert(pair[eq - from] == '=');
        }
        if i < eq - from {
            assert(pair[i] != '=');
        }
        assert(i == eq - from);
        assert(pair.take(i) =~= s@.subrange(from as int, eq as int));
    }
    if eq < to && is_secret_param(s, from, eq) {
        append_part(out, s, from, eq + 1);
        append_mask(out);
        proof {
            assert(pair.take(eq - from + 1) =~= s@.subrange(from as int, eq + 1));
            assert(out@ =~= head + (pair.take(eq - from + 1) + mask()));
        }
    } else {
        append_part(out, s, from, to);
    }
}

/// The parameter (with its `=`) is written at position `p`, letter case aside.
pub open spec fn occurs(s: Seq<char>, param: Seq<char>, p: int) -> bool {
    &&& 0 <= p
    &&& p + param.len() <= s.len()
    &&& crate::text::lowered(s.subrange(p, p + param.len() as int)) == param
}

/// The first place at or after `from` where the parameter is written.
pub open spec fn next_occurrence(s: Seq<char>, param: Seq<char>, from: int) -> Option<int>
    decreases s.len() + 1 - from,
{
    if from + param.len() > s.len() || from < 0 {
        None
    } else if occurs(s, param, from) {
        Some(from)
    } else {
        next_occurrence(s, param, from + 1)
    }
}

/// Characters that a parameter's value is made of.
pub open spec fn is_value_char(c: char) -> bool {
    ||| 'a' <= c <= 'z'
    ||| 'A' <= c <= 'Z'
    ||| '0' <= c <= '9'
    ||| c == '.' || c == '_' || c == '~' || c == '%' || c == '-'
}

/// End of the value that starts at `from`.
pub open spec fn value_end(s: Seq<char>, from: int) -> int
    decreases s.len() - from,
{
    if from >= s.len() || from < 0 || !is_value_char(s[from]) {
        from
    } else {
        value_end(s, from + 1)
    }
}

/// The mask stands at position `i`.
pub open spec fn masked_at(s: Seq<char>, i: int) -> bool {
    0 <= i && i + 3 <= s.len() && s.subrange(i, i + 3) == mask()
}

/// Where the secret that starts at `start` ends; a mask that stands there already is part of it.
pub open spec fn secret_end(s: Seq<char>, start: int) -> int {
    if masked_at(s, start) {
        value_end(s, start + 3)
    } else {
        value_end(s, start)
    }
}

/// The text with its part `start..end` replaced by the mask.
pub open spec fn masked_part(s: Seq<char>, start: int, end: int) -> Seq<char> {
    s.take(start) + mask() + s.skip(end)
}

/// The text with the value after each occurrence of the parameter masked, from left to right.
pub open spec fn masked_from(s: Seq<char>, param: Seq<char>, from: int) -> Seq<char>
    decreases s.len() - from,
    via masked_from_decreases
{
    if param.len() == 0 {
        s
    } else {
        match next_occurrence(s, param, from) {
            None => s,
            Some(p) => {
                let start = p + param.len() as int;
                masked_from(masked_part(s, start, secret_end(s, start)), param, start + 3)
            },
        }
    }
}

#[via_fn]
proof fn masked_from_decreases(s: Seq<char>, param: Seq<char>, from: int) {
    if param.len() > 0 && next_occurrence(s, param, from) is Some {
        lemma_next_occurrence(s, param, from);
        lemma_secret_end(s, next_occurrence(s, param, from)->0 + param.len() as int);
    }
}

/// A message in which the value after every secret-bearing parameter is masked.
pub open spec fn redacted_text(msg: Seq<char>) -> Seq<char> {
    let a = masked_from(msg, "access_token="@, 0);
    let b = masked_from(a, "api_key="@, 0);
    let c = masked_from(b, "key="@, 0);
    masked_from(c, "token="@, 0)
}

proof fn lemma_next_occurrence(s: Seq<char>, param: Seq<char>, from: int)
    ensures
        next_occurrence(s, param, from) matches Some(p) ==> from <= p && occurs(s, param, p),
        forall|k: int|
            0 <= from <= k && (next_occurrence(s, param, from) matches Some(p) ==> k < p)
                ==> !#[trigger] occurs(s, param, k),
    decreases s.len() + 1 - from,
{
    if !(from + param.len() > s.len() || from < 0) && !occurs(s, param, from) {
        lemma_next_occurrence(s, param, from + 1);
    }
}

proof fn lemma_value_end(s: Seq<char>, from: int)
    requires
        0 <= from <= s.len(),
    ensures
        from <= value_end(s, from) <= s.len(),
        forall|k: int| from <= k < value_end(s, from) ==> is_value_char(#[trigger] s[k]),
        value_end(s, from) < s.len() ==> !is_value_char(s[value_end(s, from)]),
    decreases s.len() - from,
{
    if from < s.len() && is_value_char(s[from]) {
        lemma_value_end(s, from + 1);
    }
}

proof fn lemma_secret_end(s: Seq<char>, start: int)
    requires
        0 <= start <= s.len(),
    ensures
        start <= secret_end(s, start) <= s.len(),
        secret_end(s, start) < s.len() ==> !is_value_char(s[secret_end(s, start)]),
{
    if masked_at(s, start) {
        lemma_value_end(s, start + 3);
    } else {
        lemma_value_end(s, start);
    }
}

fn find_param(s: &Vec<char>, param: &str, len: usize, from: usize) -> (found: Option<usize>)
    requires
        len == param@.len(),
        len > 0,
        from <= s@.len(),
    ensures
        found matches Some(p) ==> next_occurrence(s@, param@, from as int) == Some(p as int),
        found is None ==> next_occurrence(s@, param@, from as int) is None,
    decreases s@.len() - from,
{
    if s.len() - from < len {
        None
    } else if reads_as(s, from, from + len, param) {
        Some(from)
    } else {
        find_param(s, param, len, from + 1)
    }
}

fn in_value(c: char) -> (b: bool)
    ensures
        b == is_value_char(c),
{
    ('a' <= c && c <= 'z') || ('A' <= c && c <= 'Z') || ('0' <= c && c <= '9') || c == '.' || c
        == '_' || c == '~' || c == '%' || c == '-'
}

/// Whether the mask stands at position `i`.
fn is_masked_at(s: &Vec<char>, i: usize) -> (b: bool)
    requires
        i <= s@.len(),
    ensures
        b == masked_at(s@, i as int),
{
    if s.len() - i < 3 {
        return false;
    }
    let b: bool = s[i] == '*' && s[i + 1] == '*' && s[i + 2] == '*';
    proof {
        let part = s@.subrange(i as int, i + 3);
        assert(part[0] == s@[i as int] && part[1] == s@[i + 1] && part[2] == s@[i + 2]);
        if b {
            assert(part =~= mask());
        }
    }
    b
}

/// Mask the value after each occurrence of one parameter.
fn mask_param(s: Vec<char>, param: &str) -> (out: Vec<char>)
    requires
        param@.len() > 0,
    ensures
        out@ == masked_from(s@, param@, 0),
{
    let len: usize = to_chars(param).len();
    let mut out: Vec<char> = s;
    let mut from: usize = 0;
    let mut more: bool = true;
    while more
        invariant
            len == param@.len(),
            len > 0,
            from <= out@.len(),
            more ==> masked_from(out@, param@, from as int) == masked_from(s@, param@, 0),
            !more ==> out@ == masked_from(s@, param@, 0),
        decreases out@.len() - from, if more {
            1int
        } else {
            0
        },
    {
        proof {
            lemma_next_occurrence(out@, param@, from as int);
        }
        match find_param(&out, param, len, from) {
            None => {
                more = false;
            },
            Some(p) => {
                assert(out.len() <= usize::MAX);
                let start: usize = p + len;
                let mut end: usize = if is_masked_at(&out, start) {
                    start + 3
                } else {
                    start
                };
                while end < out.len() && in_value(out[end])
                    invariant
                        start <= end <= out@.len(),
                        secret_end(out@, start as int) == value_end(out@, end as int),
                    decreases out@.len() - end,
                {
                    end = end + 1;
                }
                let ghost was: Seq<char> = out@;
                let mut next: Vec<char> = Vec::new();
                append_part(&mut next, &out, 0, start);
                append_mask(&mut next);
                append_part(&mut next, &out, end, out.len());
                proof {
                    assert(was.subrange(0, start as int) =~= was.take(start as int));
                    assert(was.subrange(end as int, was.len() as int) =~= was.skip(end as int));
                    assert(next@ =~= masked_part(was, start as int, end as int));
                }
                assert(next.len() <= usize::MAX);
                out = next;
                from = start + 3;
            },
        }
    }
    out
}

/// Mask the value after any secret-bearing query parameter inside an arbitrary
/// message. Unlike [`redact_url`] this works on free text: transport errors embed the full request
/// URL in their text, so any such text must pass through here before reaching a log
/// line or the screen.
pub fn redact_secrets(msg: &str) -> (clean: String)
    ensures
        clean@ == redacted_text(msg@),
{
    proof {
        reveal_strlit("access_token=");
        reveal_strlit("api_key=");
        reveal_strlit("key=");
        reveal_strlit("token=");
    }
    let s: Vec<char> = to_chars(msg);
    let s: Vec<char> = mask_param(s, "access_token=");
    let s: Vec<char> = mask_param(s, "api_key=");
    let s: Vec<char> = mask_param(s, "key=");
    let s: Vec<char> = mask_param(s, "token=");
    from_chars(&s)
}

/// The mask stands at position `i`, and nothing that could be more of a value follows it.
pub open spec fn hidden_at(s: Seq<char>, i: int) -> bool {
    masked_at(s, i) && (i + 3 < s.len() ==> !is_value_char(s[i + 3]))
}

/// Wherever the parameter is written, the mask stands for its whole value.
pub open spec fn all_masked(s: Seq<char>, param: Seq<char>) -> bool {
    forall|p: int| #[trigger] occurs(s, param, p) ==> hidden_at(s, p + param.len())
}

spec fn is_param(param: Seq<char>) -> bool {
    &&& param.len() > 0
    &&& param.last() == '='
    &&& forall|k: int| 0 <= k < param.len() ==> param[k] != '*'
}

spec fn all_masked_below(s: Seq<char>, param: Seq<char>, from: int) -> bool {
    forall|p: int| #[trigger]
        occurs(s, param, p) && p < from ==> hidden_at(s, p + param.len())
}

proof fn lemma_occurs_char(s: Seq<char>, param: Seq<char>, p: int, k: int)
    requires
        occurs(s, param, p),
        0 <= k < param.len(),
    ensures
        crate::text::ascii_lower(s[p + k]) == param[k],
{
    let part = s.subrange(p, p + param.len() as int);
    assert(crate::text::lowered(part)[k] == crate::text::ascii_lower(part[k]));
}

/// An occurrence in the masked text lies beside the mask and was there before.
proof fn lemma_occurrence_beside_mask(
    s: Seq<char>,
    param: Seq<char>,
    start: int,
    end: int,
    q: int,
)
    requires
        is_param(param),
        0 <= start <= end <= s.len(),
        occurs(masked_part(s, start, end), param, q),
    ensures
        ({
            ||| q + param.len() <= start && occurs(s, param, q)
            ||| q >= start + 3 && occurs(s, param, q - start - 3 + end)
        }),
{
    let t = masked_part(s, start, end);
    let len = param.len() as int;
    if q + len <= start {
        assert(t.subrange(q, q + len) =~= s.subrange(q, q + len));
    } else if q >= start + 3 {
        let r = q - start - 3 + end;
        assert(t.subrange(q, q + len) =~= s.subrange(r, r + len));
    } else {
        let k = if q < start {
            start
        } else {
            q
        };
        assert(t[k] == '*');
        lemma_occurs_char(t, param, q, k - q);
    }
}

/// A mask beside the replaced part stays.
proof fn lemma_mask_stays(s: Seq<char>, start: int, end: int, i: int)
    requires
        0 < start <= end <= s.len(),
        s[start - 1] == '=',
        hidden_at(s, i),
        end < s.len() ==> !is_value_char(s[end]),
    ensures
        i <= start ==> hidden_at(masked_part(s, start, end), i),
        i >= end ==> hidden_at(masked_part(s, start, end), i - end + start + 3),
{
    let t = masked_part(s, start, end);
    assert(s.subrange(i, i + 3)[0] == s[i]);
    assert(s.subrange(i, i + 3)[1] == s[i + 1]);
    assert(s.subrange(i, i + 3)[2] == s[i + 2]);
    if i == start {
        assert(t.subrange(start, start + 3) =~= mask());
    } else if i < start {
        assert(t.subrange(i, i + 3) =~= s.subrange(i, i + 3));
    }
    if i >= end {
        let j = i - end + start + 3;
        assert(t.subrange(j, j + 3) =~= s.subrange(i, i + 3));
    }
}

proof fn lemma_ends_in_equals(s: Seq<char>, param: Seq<char>, p: int)
    requires
        is_param(param),
        occurs(s, param, p),
    ensures
        s[p + param.len() - 1] == '=',
{
    lemma_occurs_char(s, param, p, param.len() - 1);
}

proof fn lemma_masks_all(s: Seq<char>, param: Seq<char>, from: int)
    requires
        is_param(param),
        0 <= from,
        all_masked_below(s, param, from),
    ensures
        all_masked(masked_from(s, param, from), param),
    decreases s.len() - from,
{
    lemma_next_occurrence(s, param, from);
    match next_occurrence(s, param, from) {
        None => {},
        Some(p) => {
            let len = param.len() as int;
            let start = p + len;
            lemma_secret_end(s, start);
            let end = secret_end(s, start);
            let t = masked_part(s, start, end);
            lemma_ends_in_equals(s, param, p);
            assert(t.subrange(start, start + 3) =~= mask());
            assert forall|q: int| #[trigger]
                occurs(t, param, q) && q < start + 3 implies hidden_at(t, q + len) by {
                lemma_occurrence_beside_mask(s, param, start, end, q);
                if q != p {
                    assert(q < from);
                    lemma_mask_stays(s, start, end, q + len);
                }
            }
            lemma_masks_all(t, param, start + 3);
        },
    }
}

/// Masking the values of one parameter leaves those of another masked.
proof fn lemma_keeps_masked(s: Seq<char>, param: Seq<char>, from: int, other: Seq<char>)
    requires
        is_param(param),
        is_param(other),
        0 <= from,
        all_masked(s, other),
    ensures
        all_masked(masked_from(s, param, from), other),
    decreases s.len() - from,
{
    lemma_next_occurrence(s, param, from);
    match next_occurrence(s, param, from) {
        None => {},
        Some(p) => {
            let start = p + param.len() as int;
            lemma_secret_end(s, start);
            let end = secret_end(s, start);
            let t = masked_part(s, start, end);
            lemma_ends_in_equals(s, param, p);
            assert forall|q: int| #[trigger] occurs(t, other, q) implies hidden_at(
                t,
                q + other.len(),
            ) by {
                lemma_occurrence_beside_mask(s, other, start, end, q);
                if q + other.len() <= start {
                    lemma_mask_stays(s, start, end, q + other.len());
                } else {
                    lemma_mask_stays(s, start, end, q - start - 3 + end + other.len());
                }
            }
            lemma_keeps_masked(t, param, start + 3, other);
        },
    }
}

proof fn lemma_masked_from_clean(s: Seq<char>, param: Seq<char>)
    requires
        forall|p: int| !#[trigger] occurs(s, param, p),
    ensures
        masked_from(s, param, 0) == s,
{
    lemma_next_occurrence(s, param, 0);
}

proof fn lemma_params()
    ensures
        is_param("access_token="@),
        is_param("api_key="@),
        is_param("key="@),
        is_param("token="@),
{
    reveal_strlit("access_token=");
    reveal_strlit("api_key=");
    reveal_strlit("key=");
    reveal_strlit("token=");
}

/// No secret survives redaction: in a redacted message every secret-bearing parameter, however its
/// letters are cased, is followed by the mask and by nothing that could be more of its value.
pub proof fn no_secret_value_survives(msg: Seq<char>)
    ensures
        all_masked(redacted_text(msg), "access_token="@),
        all_masked(redacted_text(msg), "api_key="@),
        all_masked(redacted_text(msg), "key="@),
        all_masked(redacted_text(msg), "token="@),
{
    lemma_params();
    let a = masked_from(msg, "access_token="@, 0);
    let b = masked_from(a, "api_key="@, 0);
    let c = masked_from(b, "key="@, 0);
    lemma_masks_all(msg, "access_token="@, 0);
    lemma_masks_all(a, "api_key="@, 0);
    lemma_masks_all(b, "key="@, 0);
    lemma_masks_all(c, "token="@, 0);
    lemma_keeps_masked(a, "api_key="@, 0, "access_token="@);
    lemma_keeps_masked(b, "key="@, 0, "access_token="@);
    lemma_keeps_masked(b, "key="@, 0, "api_key="@);
    lemma_keeps_masked(c, "token="@, 0, "access_token="@);
    lemma_keeps_masked(c, "token="@, 0, "api_key="@);
    lemma_keeps_masked(c, "token="@, 0, "key="@);
}

proof fn lemma_hidden_stays(s: Seq<char>, param: Seq<char>, from: int)
    requires
        is_param(param),
        all_masked(s, param),
    ensures
        masked_from(s, param, from) == s,
    decreases s.len() - from,
{
    lemma_next_occurrence(s, param, from);
    match next_occurrence(s, param, from) {
        None => {},
        Some(p) => {
            let start = p + param.len() as int;
            assert(hidden_at(s, start));
            assert(value_end(s, start + 3) == start + 3);
            assert(masked_part(s, start, start + 3) =~= s) by {
                assert(s.subrange(start, start + 3) == mask());
                assert(s =~= s.take(start) + s.subrange(start, start + 3) + s.skip(start + 3));
            }
            lemma_hidden_stays(s, param, start + 3);
        },
    }
}

/// Redacting a redacted message changes nothing.
pub proof fn redacting_twice_changes_nothing(msg: Seq<char>)
    ensures
        redacted_text(redacted_text(msg)) == redacted_text(msg),
{
    let r = redacted_text(msg);
    lemma_params();
    no_secret_value_survives(msg);
    lemma_hidden_stays(r, "access_token="@, 0);
    lemma_hidden_stays(r, "api_key="@, 0);
    lemma_hidden_stays(r, "key="@, 0);
    lemma_hidden_stays(r, "token="@, 0);
}

/// A message that names no secret-bearing parameter stays as it is.
pub proof fn clean_text_passes(msg: Seq<char>)
    requires
        forall|p: int| !#[trigger] occurs(msg, "access_token="@, p),
        forall|p: int| !#[trigger] occurs(msg, "api_key="@, p),
        forall|p: int| !#[trigger] occurs(msg, "key="@, p),
        forall|p: int| !#[trigger] occurs(msg, "token="@, p),
    ensures
        redacted_text(msg) == msg,
{
    lemma_params();
    lemma_masked_from_clean(msg, "access_token="@);
    lemma_masked_from_clean(msg, "api_key="@);
    lemma_masked_from_clean(msg, "key="@);
    lemma_masked_from_clean(msg, "token="@);
}

proof fn lemma_first_index_is(s: Seq<char>, c: char, i: int)
    requires
        0 <= i <= s.len(),
        i < s.len() ==> s[i] == c,
        forall|k: int| 0 <= k < i ==> s[k] != c,
    ensures
        first_index(s, c) == i,
{
    lemma_first_index(s, c);
    let j = first_index(s, c);
    if j < i {
        assert(s[j] != c);
    }
}

proof fn lemma_redacted_pair(pair: Seq<char>)
    requires
        forall|k: int| 0 <= k < pair.len() ==> pair[k] != '&',
    ensures
        forall|k: int| 0 <= k < redacted_pair(pair).len() ==> redacted_pair(pair)[k] != '&',
        redacted_pair(redacted_pair(pair)) == redacted_pair(pair),
{
    lemma_first_index(pair, '=');
    let i = first_index(pair, '=');
    if i < pair.len() && is_secret_name(pair.take(i)) {
        let r = redacted_pair(pair);
        assert forall|k: int| 0 <= k < i implies r[k] != '=' by {
            assert(r[k] == pair[k]);
        }
        lemma_first_index_is(r, '=', i);
        assert(r.take(i) =~= pair.take(i));
        assert(r.take(i + 1) + mask() =~= r);
    }
}

proof fn lemma_redacted_query_stable(query: Seq<char>)
    ensures
        redacted_query(redacted_query(query)) == redacted_query(query),
    decreases query.len(),
{
    lemma_first_index(query, '&');
    let i = first_index(query, '&');
    let pair = query.take(i);
    lemma_redacted_pair(pair);
    let r = redacted_pair(pair);
    if i < query.len() {
        let rest = redacted_query(query.skip(i + 1));
        lemma_redacted_query_stable(query.skip(i + 1));
        let t = r.push('&') + rest;
        lemma_first_index_is(t, '&', r.len() as int);
        assert(t.take(r.len() as int) =~= r);
        assert(t.skip(r.len() as int + 1) =~= rest);
    } else {
        assert(pair =~= query);
        lemma_first_index_is(r, '&', r.len() as int);
    }
}

/// No secret survives in a URL: once redacted, every pair of its query is as redaction leaves it,
/// so redacting it again changes nothing.
pub proof fn redacting_a_url_twice_changes_nothing(url: Seq<char>)
    ensures
        redacted_url(redacted_url(url)) == redacted_url(url),
{
    lemma_first_index(url, '?');
    let i = first_index(url, '?');
    if i < url.len() {
        let query = redacted_query(url.skip(i + 1));
        let t = url.take(i + 1) + query;
        lemma_redacted_query_stable(url.skip(i + 1));
        assert forall|k: int| 0 <= k < i implies t[k] != '?' by {
            assert(t[k] == url[k]);
        }
        lemma_first_index_is(t, '?', i);
        assert(t.take(i + 1) =~= url.take(i + 1));
        assert(t.skip(i + 1) =~= query);
    }
}

/// A URL without a query stays as it is.
pub proof fn keyless_url_passes(url: Seq<char>)
    requires
        !url.contains('?'),
    ensures
        redacted_url(url) == url,
{
    lemma_first_index(url, '?');
}

/// The character can be part of a secret: a letter, a digit, or one of `.`, `_`, `~`, `%` and `-`.
pub open spec fn is_secret_char(c: char) -> bool {
    ('a' <= c <= 'z') || ('A' <= c <= 'Z') || ('0' <= c <= '9') || c == '.' || c == '_' || c == '~' || c
        == '%' || c == '-'
}

/// In a redacted message each of the four parameters, however its letters are cased, is followed by three
/// asterisks and then by no character that a secret can have.
pub proof fn redacted_messages_show_asterisks(msg: Seq<char>, param: Seq<char>, p: int)
    requires
        param == "access_token="@ || param == "api_key="@ || param == "key="@ || param == "token="@,
        0 <= p,
        p + param.len() <= redacted_text(msg).len(),
        crate::text::lowered(redacted_text(msg).subrange(p, p + param.len() as int)) == param,
    ensures
        ({
            let safe = redacted_text(msg);
            let start = p + param.len();
            &&& start + 3 <= safe.len()
            &&& safe[start] == '*' && safe[start + 1] == '*' && safe[start + 2] == '*'
            &&& start + 3 < safe.len() ==> !is_secret_char(safe[start + 3])
        }),
{
    let safe = redacted_text(msg);
    no_secret_value_survives(msg);
    assert(occurs(safe, param, p));
    let start = p + param.len() as int;
    assert(hidden_at(safe, start));
    assert(safe.subrange(start, start + 3) == mask());
    assert(safe.subrange(start, start + 3)[0] == '*');
    assert(safe.subrange(start, start + 3)[1] == '*');
    assert(safe.subrange(start, start + 3)[2] == '*');
}

/// The characters of a text that are neither part of a secret nor of a mask.
pub open spec fn plain_chars(s: Seq<char>) -> Seq<char>
    decreases s.len(),
{
    if s.len() == 0 {
        s
    } else if is_secret_char(s.last()) || s.last() == '*' {
        plain_chars(s.drop_last())
    } else {
        plain_chars(s.drop_last()).push(s.last())
    }
}

proof fn lemma_plain_of_both(a: Seq<char>, b: Seq<char>)
    ensures
        plain_chars(a + b) == plain_chars(a) + plain_chars(b),
    decreases b.len(),
{
    if b.len() == 0 {
        assert(a + b =~= a);
        assert(plain_chars(a) + plain_chars(b) =~= plain_chars(a));
    } else {
        lemma_plain_of_both(a, b.drop_last());
        assert((a + b).drop_last() =~= a + b.drop_last());
        assert(plain_chars(a + b) =~= plain_chars(a) + plain_chars(b));
    }
}

proof fn lemma_nothing_plain(s: Seq<char>)
    requires
        forall|i: int| 0 <= i < s.len() ==> is_secret_char(#[trigger] s[i]) || s[i] == '*',
    ensures
        plain_chars(s).len() == 0,
    decreases s.len(),
{
    if s.len() > 0 {
        assert(s[s.len() - 1] == s.last());
        assert forall|i: int| 0 <= i < s.drop_last().len() implies is_secret_char(
            #[trigger] s.drop_last()[i],
        ) || s.drop_last()[i] == '*' by {
            assert(s.drop_last()[i] == s[i]);
        }
        lemma_nothing_plain(s.drop_last());
    }
}

proof fn lemma_masking_keeps_plain(s: Seq<char>, param: Seq<char>, from: int)
    requires
        param.len() > 0,
    ensures
        plain_chars(masked_from(s, param, from)) == plain_chars(s),
    decreases s.len() - from,
{
    lemma_next_occurrence(s, param, from);
    match next_occurrence(s, param, from) {
        None => {},
        Some(p) => {
            let start = p + param.len() as int;
            let end = secret_end(s, start);
            lemma_secret_end(s, start);
            let part = s.subrange(start, end);
            assert forall|i: int| 0 <= i < part.len() implies is_secret_char(#[trigger] part[i])
                || part[i] == '*' by {
                if masked_at(s, start) {
                    lemma_value_end(s, start + 3);
                    if i < 3 {
                        assert(s.subrange(start, start + 3)[i] == mask()[i]);
                    }
                } else {
                    lemma_value_end(s, start);
                }
                assert(part[i] == s[start + i]);
            }
            lemma_nothing_plain(part);
            lemma_nothing_plain(mask());
            let next = masked_part(s, start, end);
            assert(s =~= s.take(start) + part + s.skip(end));
            lemma_plain_of_both(s.take(start) + part, s.skip(end));
            lemma_plain_of_both(s.take(start), part);
            lemma_plain_of_both(s.take(start) + mask(), s.skip(end));
            lemma_plain_of_both(s.take(start), mask());
            assert(plain_chars(s.take(start)) + plain_chars(part) =~= plain_chars(s.take(start)));
            assert(plain_chars(s.take(start)) + plain_chars(mask()) =~= plain_chars(s.take(start)));
            lemma_masking_keeps_plain(next, param, start + 3);
        },
    }
}

/// Redaction takes secrets out of a message and nothing else: all characters that cannot be part of a
/// secret stay, in their order.
pub proof fn redaction_keeps_the_rest(msg: Seq<char>)
    ensures
        plain_chars(redacted_text(msg)) == plain_chars(msg),
{
    lemma_params();
    let a = masked_from(msg, "access_token="@, 0);
    let b = masked_from(a, "api_key="@, 0);
    let c = masked_from(b, "key="@, 0);
    lemma_masking_keeps_plain(msg, "access_token="@, 0);
    lemma_masking_keeps_plain(a, "api_key="@, 0);
    lemma_masking_keeps_plain(b, "key="@, 0);
    lemma_masking_keeps_plain(c, "token="@, 0);
}

/// The value of a secret in a URL's query gives way to three asterisks, whatever it is and however the
/// letters of its name are cased; any other pair of the query stays as it is.
pub proof fn secrets_in_urls_give_way(path: Seq<char>, name: Seq<char>, value: Seq<char>)
    requires
        !path.contains('?'),
        !name.contains('='),
        !name.contains('&'),
        !value.contains('&'),
    ensures
        ({
            let lower = crate::text::lowered(name);
            let url = path.push('?') + name.push('=') + value;
            if lower == "access_token"@ || lower == "api_key"@ || lower == "key"@ || lower
                == "token"@ {
                redacted_url(url) == path.push('?') + name.push('=') + seq!['*', '*', '*']
            } else {
                redacted_url(url) == url
            }
        }),
{
    let pair = name.push('=') + value;
    let url = path.push('?') + name.push('=') + value;
    let n = path.len() as int;
    lemma_none_before(path, '?', url);
    lemma_first_index_is(url, '?', n);
    assert(url.skip(n + 1) =~= pair);
    assert(url.take(n + 1) =~= path.push('?'));
    assert forall|k: int| 0 <= k < pair.len() implies pair[k] != '&' by {
        if k < name.len() {
            assert(name.contains(name[k]));
        } else if k > name.len() {
            assert(value.contains(value[k - name.len() - 1]));
        }
    }
    lemma_first_index_is(pair, '&', pair.len() as int);
    lemma_none_before(name, '=', pair);
    lemma_first_index_is(pair, '=', name.len() as int);
    assert(pair.take(name.len() as int) =~= name);
    assert(pair.take(name.len() as int + 1) =~= name.push('='));
    assert(url =~= path.push('?') + pair);
    assert(path.push('?') + (name.push('=') + mask()) =~= path.push('?') + name.push('=') + mask());
}

proof fn lemma_none_before(head: Seq<char>, c: char, all: Seq<char>)
    requires
        !head.contains(c),
        head.len() <= all.len(),
        forall|k: int| 0 <= k < head.len() ==> #[trigger] all[k] == head[k],
    ensures
        forall|k: int| 0 <= k < head.len() ==> all[k] != c,
{
    assert forall|k: int| 0 <= k < head.len() implies all[k] != c by {
        assert(head.contains(head[k]));
    }
}

/// The pairs of a URL's query are redacted one by one: what one pair becomes does not depend on the others.
pub proof fn urls_are_redacted_pair_by_pair(path: Seq<char>, pair: Seq<char>, rest: Seq<char>)
    requires
        !path.contains('?'),
        !pair.contains('&'),
    ensures
        redacted_url(path.push('?') + pair.push('&') + rest) == redacted_url(
            path.push('?') + pair,
        ).push('&') + redacted_url(seq!['?'] + rest).skip(1),
{
    let url = path.push('?') + pair.push('&') + rest;
    let first = path.push('?') + pair;
    let other = seq!['?'] + rest;
    let n = path.len() as int;
    let m = pair.len() as int;
    lemma_none_before(path, '?', url);
    lemma_first_index_is(url, '?', n);
    lemma_none_before(path, '?', first);
    lemma_first_index_is(first, '?', n);
    lemma_first_index_is(other, '?', 0);
    let query = url.skip(n + 1);
    assert(query =~= pair.push('&') + rest);
    lemma_none_before(pair, '&', query);
    lemma_first_index_is(query, '&', m);
    assert(query.take(m) =~= pair);
    assert(query.skip(m + 1) =~= rest);
    assert(first.skip(n + 1) =~= pair);
    lemma_none_before(pair, '&', pair);
    lemma_first_index_is(pair, '&', m);
    assert(other.skip(1) =~= rest);
    assert(url.take(n + 1) =~= path.push('?'));
    assert(first.take(n + 1) =~= path.push('?'));
    assert(redacted_url(other) =~= other.take(1) + redacted_query(rest));
    assert(redacted_url(other).skip(1) =~= redacted_query(rest));
    assert(redacted_url(url) =~= path.push('?') + (redacted_pair(pair).push('&') + redacted_query(
        rest,
    )));
    assert(redacted_url(first) =~= path.push('?') + redacted_pair(pair));
    assert(redacted_url(url) =~= redacted_url(first).push('&') + redacted_query(rest));
}

} // verus!
