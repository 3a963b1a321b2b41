//! Text helpers shared by the formatting code: comparison, decimal numerals
//! and joining.

use vstd::prelude::*;
use vstd::string::*;

verus! {

/// Whether two texts hold the same characters.
pub fn same_text(a: &str, b: &str) -> (same: bool)
    ensures
        same == (a@ == b@),
{
    let x = a.to_owned();
    let y = b.to_owned();
    x == y
}

/// The character that stands for a single decimal digit.
pub open spec fn digit_char(d: nat) -> char
    recommends
        d < 10,
{
    if d == 0 {
        '0'
    } else if d == 1 {
        '1'
    } else if d == 2 {
        '2'
    } else if d == 3 {
        '3'
    } else if d == 4 {
        '4'
    } else if d == 5 {
        '5'
    } else if d == 6 {
        '6'
    } else if d == 7 {
        '7'
    } else if d == 8 {
        '8'
    } else {
        '9'
    }
}

/// The decimal numeral of `n`: no sign, no leading zero except for zero
/// itself.
pub open spec fn decimal(n: nat) -> Seq<char>
    decreases n,
{
    if n < 10 {
        seq![digit_char(n)]
    } else {
        decimal(n / 10).push(digit_char(n % 10))
    }
}

fn digit_text(d: u64) -> (text: &'static str)
    requires
        d < 10,
    ensures
        text@ == seq![digit_char(d as nat)],
{
    proof {
        reveal_strlit("0");
        reveal_strlit("1");
        reveal_strlit("2");
        reveal_strlit("3");
        reveal_strlit("4");
        reveal_strlit("5");
        reveal_strlit("6");
        reveal_strlit("7");
        reveal_strlit("8");
        reveal_strlit("9");
    }
    let text = if d == 0 {
        "0"
    } else if d == 1 {
        "1"
    } else if d == 2 {
        "2"
    } else if d == 3 {
        "3"
    } else if d == 4 {
        "4"
    } else if d == 5 {
        "5"
    } else if d == 6 {
        "6"
    } else if d == 7 {
        "7"
    } else if d == 8 {
        "8"
    } else {
        "9"
    };
    assert(text@ =~= seq![digit_char(d as nat)]);
    text
}

/// Writes `n` as a decimal numeral.
pub fn decimal_string(n: u64) -> (text: String)
    ensures
        text@ == decimal(n as nat),
    decreases n,
{
    if n < 10 {
        String::from_str(digit_text(n))
    } else {
        let mut text = decimal_string(n / 10);
        text.append(digit_text(n % 10));
        assert(text@ =~= decimal(n as nat));
        text
    }
}

/// Whether `c` is one of the ten decimal digits.
pub open spec fn is_digit(c: char) -> bool {
    '0' <= c <= '9'
}

/// The number that a digit stands for.
pub open spec fn digit_value(c: char) -> nat
    recommends
        is_digit(c),
{
    (c as u32 - '0' as u32) as nat
}

/// The number that a run of digits stands for.
pub open spec fn digits_value(s: Seq<char>) -> nat
    decreases s.len(),
{
    if s.len() == 0 {
        0
    } else {
        digits_value(s.drop_last()) * 10 + digit_value(s.last())
    }
}

/// Every character is a digit.
pub open spec fn all_digits(s: Seq<char>) -> bool {
    forall|i: int| 0 <= i < s.len() ==> is_digit(#[trigger] s[i])
}

/// The text without a leading plus sign.
pub open spec fn unsigned_part(s: Seq<char>) -> Seq<char> {
    if s.len() > 0 && s[0] == '+' {
        s.drop_first()
    } else {
        s
    }
}

/// The number that a text denotes as an unsigned 32-bit integer: an optional
/// plus sign, then one digit or more, the whole not above the largest such
/// integer. Any other text denotes none.
pub open spec fn parsed_u32(s: Seq<char>) -> Option<u32> {
    let body = unsigned_part(s);
    if body.len() > 0 && all_digits(body) && digits_value(body) <= u32::MAX {
        Some(digits_value(body) as u32)
    } else {
        None
    }
}

/// A run of digits that continues one above the largest integer stays above
/// it.
proof fn lemma_digits_value_grows(s: Seq<char>, n: int)
    requires
        0 <= n <= s.len(),
    ensures
        digits_value(s.subrange(0, n)) <= digits_value(s),
    decreases s.len() - n,
{
    if n < s.len() {
        lemma_digits_value_grows(s.drop_last(), n);
        assert(s.drop_last().subrange(0, n) =~= s.subrange(0, n));
    } else {
        assert(s.subrange(0, n) =~= s);
    }
}

/// Reads a text as an unsigned 32-bit integer in decimal.
pub fn parse_u32(text: &str) -> (number: Option<u32>)
    ensures
        number == parsed_u32(text@),
{
    let n = text.unicode_len();
    let mut start: usize = 0;
    if n > 0 && text.get_char(0) == '+' {
        start = 1;
    }
    let ghost body = unsigned_part(text@);
    assert(body =~= text@.subrange(start as int, n as int));
    if start == n {
        return None;
    }
    let mut value: u32 = 0;
    let mut i: usize = start;
    assert(body.subrange(0, 0) =~= Seq::<char>::empty());
    while i < n
        invariant
            start <= i <= n,
            n == text@.len(),
            body == text@.subrange(start as int, n as int),
            body == unsigned_part(text@),
            all_digits(body.subrange(0, i - start)),
            value == digits_value(body.subrange(0, i - start)),
        decreases n - i,
    {
        let c = text.get_char(i);
        let ghost done = body.subrange(0, i - start);
        let ghost next = body.subrange(0, i - start + 1);
        assert(next.drop_last() =~= done);
        assert(next.last() == c);
        assert(body[i - start] == c);
        if !(c >= '0' && c <= '9') {
            assert(!is_digit(body[i - start]));
            return None;
        }
        let d: u32 = c as u32 - '0' as u32;
        proof {
            lemma_digits_value_grows(body, i - start + 1);
        }
        if value > (u32::MAX - d) / 10 {
            assert(digits_value(next) > u32::MAX);
            return None;
        }
        assert(all_digits(next)) by {
            assert forall|j: int| 0 <= j < next.len() implies is_digit(#[trigger] next[j]) by {
                if j < done.len() {
                    assert(next[j] == done[j]);
                }
            }
        }
        value = value * 10 + d;
        i += 1;
    }
    assert(body.subrange(0, n - start) =~= body);
    Some(value)
}

/// The text with `with` before each of its characters and at its end.
pub open spec fn interleaved(s: Seq<char>, with: Seq<char>) -> Seq<char>
    decreases s.len(),
{
    if s.len() == 0 {
        with
    } else {
        with + seq![s[0]] + interleaved(s.drop_first(), with)
    }
}

/// The text with every occurrence of `pattern` replaced by `with`.
/// Occurrences are found from left to right and do not overlap. The empty
/// pattern occurs before each character and at the end.
pub open spec fn replaced(s: Seq<char>, pattern: Seq<char>, with: Seq<char>) -> Seq<char>
    decreases s.len(),
{
    if pattern.len() == 0 {
        interleaved(s, with)
    } else if s.len() == 0 {
        s
    } else if s.len() >= pattern.len() && s.subrange(0, pattern.len() as int) == pattern {
        with + replaced(s.subrange(pattern.len() as int, s.len() as int), pattern, with)
    } else {
        seq![s[0]] + replaced(s.drop_first(), pattern, with)
    }
}

/// The pattern between the marks of underlined text.
pub open spec fn underlined(pattern: Seq<char>) -> Seq<char> {
    "<u>"@ + pattern + "</u>"@
}

/// Underlines every occurrence of `pat` in `s`.
pub fn emph(s: &str, pat: &str) -> (text: String)
    ensures
        text@ == replaced(s@, pat@, underlined(pat@)),
{
    let n = s.unicode_len();
    let m = pat.unicode_len();
    let mut mark = String::from_str("<u>");
    mark.append(pat);
    mark.append("</u>");
    assert(mark@ =~= underlined(pat@));
    let mut text = String::new();
    let mut i: usize = 0;
    assert(s@.subrange(0, n as int) =~= s@);
    while i < n
        invariant
            i <= n,
            n == s@.len(),
            m == pat@.len(),
            mark@ == underlined(pat@),
            replaced(s@, pat@, mark@) == text@ + replaced(
                s@.subrange(i as int, n as int),
                pat@,
                mark@,
            ),
        decreases n - i,
    {
        let ghost rest = s@.subrange(i as int, n as int);
        let ghost before = text@;
        if m == 0 {
            text.append(mark.as_str());
            text.append(s.substring_char(i, i + 1));
            proof {
                assert(rest.drop_first() =~= s@.subrange(i + 1, n as int));
                assert(s@.subrange(i as int, i + 1) =~= seq![rest[0]]);
                assert(replaced(rest.drop_first(), pat@, mark@) == interleaved(
                    rest.drop_first(),
                    mark@,
                ));
                assert(before + (mark@ + seq![rest[0]] + interleaved(rest.drop_first(), mark@))
                    =~= text@ + interleaved(rest.drop_first(), mark@));
            }
            i += 1;
        } else if m <= n - i && same_text(s.substring_char(i, i + m), pat) {
            text.append(mark.as_str());
            proof {
                assert(rest.subrange(0, m as int) =~= s@.subrange(i as int, i + m));
                assert(rest.subrange(m as int, rest.len() as int) =~= s@.subrange(
                    i + m,
                    n as int,
                ));
                let tail = replaced(rest.subrange(m as int, rest.len() as int), pat@, mark@);
                assert(before + (mark@ + tail) =~= text@ + tail);
            }
            i += m;
        } else {
            text.append(s.substring_char(i, i + 1));
            proof {
                if m <= n - i {
                    assert(rest.subrange(0, m as int) =~= s@.subrange(i as int, i + m));
                }
                assert(rest.drop_first() =~= s@.subrange(i + 1, n as int));
                assert(s@.subrange(i as int, i + 1) =~= seq![rest[0]]);
                let tail = replaced(rest.drop_first(), pat@, mark@);
                assert(before + (seq![rest[0]] + tail) =~= text@ + tail);
            }
            i += 1;
        }
    }
    proof {
        let rest = s@.subrange(n as int, n as int);
        assert(rest.len() == 0);
        if m == 0 {
            assert(replaced(rest, pat@, mark@) == mark@);
        } else {
            assert(replaced(rest, pat@, mark@) =~= Seq::<char>::empty());
            assert(text@ + Seq::<char>::empty() =~= text@);
        }
    }
    if m == 0 {
        text.append(mark.as_str());
    }
    text
}

/// The place of the first `c` in a text, or the length of the text where it
/// holds none.
pub open spec fn first_index(s: Seq<char>, c: char) -> int
    decreases s.len(),
{
    if s.len() == 0 || s[0] == c {
        0
    } else {
        1 + first_index(s.drop_first(), c)
    }
}

/// What [`first_index`] finds: the first `c`, if there is one.
pub proof fn lemma_first_index(s: Seq<char>, c: char)
    ensures
        0 <= first_index(s, c) <= s.len(),
        first_index(s, c) < s.len() ==> s[first_index(s, c)] == c,
        forall|j: int| 0 <= j < first_index(s, c) ==> #[trigger] s[j] != c,
    decreases s.len(),
{
    if s.len() == 0 || s[0] == c {
    } else {
        let rest = s.drop_first();
        lemma_first_index(rest, c);
        let i = first_index(rest, c);
        assert forall|j: int| 0 <= j < i + 1 implies #[trigger] s[j] != c by {
            if j > 0 {
                assert(s[j] == rest[j - 1]);
            }
        }
        if i + 1 < s.len() {
            assert(s[i + 1] == rest[i]);
        }
    }
}

/// A place with the properties of [`lemma_first_index`] is the one found.
pub proof fn lemma_first_index_is(s: Seq<char>, c: char, i: int)
    requires
        0 <= i <= s.len(),
        i < s.len() ==> s[i] == c,
        forall|j: int| 0 <= j < i ==> #[trigger] s[j] != c,
    ensures
        first_index(s, c) == i,
    decreases s.len(),
{
    if i > 0 {
        let rest = s.drop_first();
        assert(s[0] != c);
        assert forall|j: int| 0 <= j < i - 1 implies #[trigger] rest[j] != c by {
            assert(rest[j] == s[j + 1]);
        }
        if i < s.len() {
            assert(rest[i - 1] == s[i]);
        }
        lemma_first_index_is(rest, c, i - 1);
    }
}

/// The place of the first `c` at or after `from`, or the length of the text
/// where none follows. A `from` beyond the end counts as the end.
pub fn find_char(text: &str, c: char, from: usize) -> (place: usize)
    ensures
        place <= text@.len(),
        from <= text@.len() ==> from <= place && place - from == first_index(
            text@.subrange(from as int, text@.len() as int),
            c,
        ),
        from > text@.len() ==> place == text@.len(),
{
    let n = text.unicode_len();
    if from > n {
        return n;
    }
    let ghost rest = text@.subrange(from as int, n as int);
    let mut i: usize = from;
    while i < n
        invariant
            from <= i <= n,
            n == text@.len(),
            rest == text@.subrange(from as int, n as int),
            forall|j: int| 0 <= j < i - from ==> #[trigger] rest[j] != c,
        decreases n - i,
    {
        if text.get_char(i) == c {
            proof {
                assert(rest[i - from] == text@[i as int]);
                lemma_first_index_is(rest, c, i - from);
            }
            return i;
        }
        assert(rest[i - from] == text@[i as int]);
        i += 1;
    }
    proof {
        lemma_first_index_is(rest, c, n - from);
    }
    n
}

} // verus!
