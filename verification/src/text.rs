//! Reading and writing the few spellings the pipeline accepts: crop origins, decimal numbers, and names compared
//! character by character.
//!
//! The rules are the standard library's own: whitespace is Unicode's `White_Space` set, as `char::is_whitespace`
//! reads it, and a `u32` is an optional `+` followed by at least one ASCII digit, the way `str::parse::<u32>` reads
//! one, refused when it does not fit.

use vstd::prelude::*;

use crate::geometry::CropOrigin;

verus! {

/// Unicode's `White_Space` property, which is what `char::is_whitespace` tests.
pub open spec fn is_white_space(c: char) -> bool {
    ('\u{9}' <= c <= '\u{d}') || c == ' ' || c == '\u{85}' || c == '\u{a0}' || c == '\u{1680}' || ('\u{2000}' <= c
        <= '\u{200a}') || c == '\u{2028}' || c == '\u{2029}' || c == '\u{202f}' || c == '\u{205f}' || c == '\u{3000}'
}

/// `s` without its leading whitespace.
pub open spec fn trim_start(s: Seq<char>) -> Seq<char>
    decreases s.len(),
{
    if s.len() > 0 && is_white_space(s[0]) {
        trim_start(s.drop_first())
    } else {
        s
    }
}

/// `s` without its trailing whitespace.
pub open spec fn trim_end(s: Seq<char>) -> Seq<char>
    decreases s.len(),
{
    if s.len() > 0 && is_white_space(s.last()) {
        trim_end(s.drop_last())
    } else {
        s
    }
}

/// `s` without whitespace at either end, as `str::trim` gives it.
pub open spec fn trim(s: Seq<char>) -> Seq<char> {
    trim_end(trim_start(s))
}

/// Whether `c` is an ASCII digit.
pub open spec fn is_digit(c: char) -> bool {
    '0' <= c <= '9'
}

/// The value of a run of ASCII digits, most significant first.
pub open spec fn digits_value(s: Seq<char>) -> nat
    decreases s.len(),
{
    if s.len() == 0 {
        0
    } else {
        digits_value(s.drop_last()) * 10 + ((s.last() as nat) - ('0' as nat)) as nat
    }
}

/// `s` without the one `+` an unsigned number may start with.
pub open spec fn unsigned_digits(s: Seq<char>) -> Seq<char> {
    if s.len() > 0 && s[0] == '+' {
        s.drop_first()
    } else {
        s
    }
}

/// What `str::parse::<u32>` makes of `s`: an optional `+`, then one or more ASCII digits, and nothing else, with a
/// value that fits.
pub open spec fn spec_parse_u32(s: Seq<char>) -> Option<u32> {
    let digits = unsigned_digits(s);
    if digits.len() == 0 || exists|i: int| 0 <= i < digits.len() && !is_digit(#[trigger] digits[i]) {
        None
    } else if digits_value(digits) > u32::MAX {
        None
    } else {
        Some(digits_value(digits) as u32)
    }
}

/// The ASCII digit for `d`, which is below ten.
pub open spec fn digit_char(d: nat) -> char {
    (('0' as nat) + d) as char
}

/// `n` in decimal, with no leading zeros: `"0"` for zero.
pub open spec fn decimal(n: nat) -> Seq<char>
    decreases n,
{
    if n < 10 {
        seq![digit_char(n)]
    } else {
        decimal(n / 10).push(digit_char(n % 10))
    }
}

/// Whether `a` and `b` hold the same characters.
pub fn str_eq(a: &str, b: &str) -> (equal: bool)
    ensures
        equal == (a@ == b@),
{
    let n = a.unicode_len();
    if n != b.unicode_len() {
        return false;
    }
    let mut i: usize = 0;
    while i < n
        invariant
            i <= n,
            n == a@.len(),
            n == b@.len(),
            forall|j: int| 0 <= j < i ==> a@[j] == b@[j],
        decreases n - i,
    {
        if a.get_char(i) != b.get_char(i) {
            return false;
        }
        i = i + 1;
    }
    assert(a@ =~= b@);
    true
}

/// Whether `c` is whitespace, as `char::is_whitespace` says.
pub fn white_space(c: char) -> (space: bool)
    ensures
        space == is_white_space(c),
{
    ('\u{9}' <= c && c <= '\u{d}') || c == ' ' || c == '\u{85}' || c == '\u{a0}' || c == '\u{1680}' || ('\u{2000}'
        <= c && c <= '\u{200a}') || c == '\u{2028}' || c == '\u{2029}' || c == '\u{202f}' || c == '\u{205f}' || c
        == '\u{3000}'
}

proof fn lemma_trim_start_skips(s: Seq<char>, k: int)
    requires
        0 <= k <= s.len(),
        forall|j: int| 0 <= j < k ==> is_white_space(#[trigger] s[j]),
    ensures
        trim_start(s) == trim_start(s.subrange(k, s.len() as int)),
    decreases k,
{
    if k > 0 {
        lemma_trim_start_skips(s.drop_first(), k - 1);
        assert(s.drop_first().subrange(k - 1, s.drop_first().len() as int) =~= s.subrange(k, s.len() as int));
    } else {
        assert(s.subrange(0, s.len() as int) =~= s);
    }
}

proof fn lemma_trim_end_skips(s: Seq<char>, k: int)
    requires
        0 <= k <= s.len(),
        forall|j: int| k <= j < s.len() ==> is_white_space(#[trigger] s[j]),
    ensures
        trim_end(s) == trim_end(s.subrange(0, k)),
    decreases s.len() - k,
{
    if k < s.len() {
        lemma_trim_end_skips(s.drop_last(), k);
        assert(s.drop_last().subrange(0, k) =~= s.subrange(0, k));
    } else {
        assert(s.subrange(0, k) =~= s);
    }
}

/// `s` without whitespace at either end, as `str::trim` gives it.
pub fn trim_str(s: &str) -> (trimmed: &str)
    ensures
        trimmed@ == trim(s@),
{
    let n = s.unicode_len();
    let mut start: usize = 0;
    while start < n && white_space(s.get_char(start))
        invariant
            start <= n,
            n == s@.len(),
            forall|j: int| 0 <= j < start ==> is_white_space(#[trigger] s@[j]),
        decreases n - start,
    {
        start = start + 1;
    }
    proof {
        lemma_trim_start_skips(s@, start as int);
    }
    let rest = s.substring_char(start, n);
    assert(trim_start(s@) == rest@) by {
        if start < n {
            assert(!is_white_space(s@[start as int]));
            assert(rest@[0] == s@[start as int]);
        }
    }
    let m = rest.unicode_len();
    let mut end: usize = m;
    while end > 0 && white_space(rest.get_char(end - 1))
        invariant
            end <= m,
            m == rest@.len(),
            forall|j: int| end <= j < m ==> is_white_space(#[trigger] rest@[j]),
        decreases end,
    {
        end = end - 1;
    }
    proof {
        lemma_trim_end_skips(rest@, end as int);
    }
    let trimmed = rest.substring_char(0, end);
    assert(trim_end(rest@) == trimmed@) by {
        if end > 0 {
            assert(!is_white_space(rest@[end - 1]));
            assert(trimmed@.last() == rest@[end - 1]);
        }
    }
    trimmed
}

proof fn lemma_digits_value_step(s: Seq<char>, c: char)
    ensures
        digits_value(s.push(c)) == digits_value(s) * 10 + ((c as nat) - ('0' as nat)) as nat,
{
    assert(s.push(c).drop_last() =~= s);
}

/// Reads `s` as a `u32` the way `str::parse::<u32>` does.
pub fn parse_u32(s: &str) -> (value: Option<u32>)
    ensures
        value == spec_parse_u32(s@),
{
    let n = s.unicode_len();
    let start: usize = if n > 0 && s.get_char(0) == '+' {
        1
    } else {
        0
    };
    let ghost digits = unsigned_digits(s@);
    assert(digits =~= s@.subrange(start as int, n as int));
    if start == n {
        return None;
    }
    // Held at one past the largest `u32` once it gets there, which is all an overflow needs to be told apart.
    let mut acc: u64 = 0;
    let mut i: usize = start;
    while i < n
        invariant
            start <= i <= n,
            n == s@.len(),
            digits == s@.subrange(start as int, n as int),
            digits == unsigned_digits(s@),
            forall|j: int| start <= j < i ==> is_digit(#[trigger] s@[j]),
            acc == if digits_value(s@.subrange(start as int, i as int)) > u32::MAX {
                u32::MAX as nat + 1
            } else {
                digits_value(s@.subrange(start as int, i as int))
            },
        decreases n - i,
    {
        let c = s.get_char(i);
        if !('0' <= c && c <= '9') {
            proof {
                assert(unsigned_digits(s@)[i - start] == c);
                assert(!is_digit(unsigned_digits(s@)[i - start]));
            }
            return None;
        }
        proof {
            assert(s@.subrange(start as int, i + 1) =~= s@.subrange(start as int, i as int).push(c));
            lemma_digits_value_step(s@.subrange(start as int, i as int), c);
        }
        let d = (c as u32 - '0' as u32) as u64;
        if acc > u32::MAX as u64 {
            acc = u32::MAX as u64 + 1;
        } else {
            acc = acc * 10 + d;
            if acc > u32::MAX as u64 {
                acc = u32::MAX as u64 + 1;
            }
        }
        i = i + 1;
    }
    proof {
        assert(s@.subrange(start as int, n as int) == digits);
        assert forall|j: int| 0 <= j < digits.len() implies is_digit(#[trigger] digits[j]) by {
            assert(digits[j] == s@[start + j]);
        }
    }
    if acc > u32::MAX as u64 {
        None
    } else {
        Some(acc as u32)
    }
}

/// The one-character string for a decimal digit.
fn digit_str(d: u32) -> (digit: &'static str)
    requires
        d < 10,
    ensures
        digit@ == seq![digit_char(d as nat)],
{
    proof {
        reveal_strlit("0");
        reveal_strlit("1");
        reveal_strlit("2");
        reveal_strlit("3");
        reveal_strlit("4");
        reveal_strlit("5");
        reveal_strlit("6");
        reveal_strlit("7");
        reveal_strlit("8");
        reveal_strlit("9");
    }
    let digit = match d {
        0 => "0",
        1 => "1",
        2 => "2",
        3 => "3",
        4 => "4",
        5 => "5",
        6 => "6",
        7 => "7",
        8 => "8",
        _ => "9",
    };
    assert(digit@ =~= seq![digit_char(d as nat)]);
    digit
}

/// Appends `n` in decimal.
pub fn push_decimal(out: &mut String, n: u64)
    ensures
        final(out)@ == old(out)@ + decimal(n as nat),
    decreases n,
{
    if n >= 10 {
        push_decimal(out, n / 10);
    }
    out.append(digit_str((n % 10) as u32));
    assert(out@ =~= old(out)@ + decimal(n as nat));
}

/// The position of the first `c` in `s`, if there is one.
pub fn find_char(s: &str, c: char) -> (at: Option<usize>)
    ensures
        at is None ==> forall|i: int| 0 <= i < s@.len() ==> s@[i] != c,
        at matches Some(i) ==> i < s@.len() && s@[i as int] == c && forall|j: int| 0 <= j < i ==> s@[j] != c,
{
    let n = s.unicode_len();
    let mut i: usize = 0;
    while i < n
        invariant
            i <= n,
            n == s@.len(),
            forall|j: int| 0 <= j < i ==> s@[j] != c,
        decreases n - i,
    {
        if s.get_char(i) == c {
            return Some(i);
        }
        i = i + 1;
    }
    None
}

/// The position of the first `c` in `s`, if there is one.
pub open spec fn first_index_of(s: Seq<char>, c: char) -> Option<int> {
    if exists|i: int| 0 <= i < s.len() && s[i] == c {
        Some(choose|i: int| 0 <= i < s.len() && s[i] == c && forall|j: int| 0 <= j < i ==> s[j] != c)
    } else {
        None
    }
}

proof fn lemma_first_index_of(s: Seq<char>, c: char, at: int)
    requires
        0 <= at < s.len(),
        s[at] == c,
        forall|j: int| 0 <= j < at ==> s[j] != c,
    ensures
        first_index_of(s, c) == Some(at),
{
    let found = choose|i: int| 0 <= i < s.len() && s[i] == c && forall|j: int| 0 <= j < i ==> s[j] != c;
    assert(0 <= found < s.len() && s[found] == c && forall|j: int| 0 <= j < found ==> s[j] != c);
    if found < at {
        assert(s[found] != c);
    }
    if found > at {
        assert(s[at] != c);
    }
}

/// How a crop origin is written: the anchor's name, or a corner as `X,Y` in decimal.
pub open spec fn spec_origin_text(origin: CropOrigin) -> Seq<char> {
    match origin {
        CropOrigin::Center => "center"@,
        CropOrigin::Top => "top"@,
        CropOrigin::Bottom => "bottom"@,
        CropOrigin::Left => "left"@,
        CropOrigin::Right => "right"@,
        CropOrigin::At { x, y } => decimal(x as nat) + seq![','] + decimal(y as nat),
    }
}

/// How a crop origin is read: an anchor's name, or `X,Y` for a corner, either with whitespace around it. Each half of
/// a corner is trimmed and read as a `u32`; the first comma is what splits them.
pub open spec fn spec_parse_origin(raw: Seq<char>) -> Result<CropOrigin, Seq<char>> {
    let text = trim(raw);
    if text == "center"@ {
        Ok(CropOrigin::Center)
    } else if text == "top"@ {
        Ok(CropOrigin::Top)
    } else if text == "bottom"@ {
        Ok(CropOrigin::Bottom)
    } else if text == "left"@ {
        Ok(CropOrigin::Left)
    } else if text == "right"@ {
        Ok(CropOrigin::Right)
    } else {
        match first_index_of(text, ',') {
            None => Err("expected center, top, bottom, left, right or X,Y, got `"@ + raw + "`"@),
            Some(at) => {
                let x = text.subrange(0, at);
                let y = text.subrange(at + 1, text.len() as int);
                match spec_parse_u32(trim(x)) {
                    None => Err("bad crop x `"@ + x + "`"@),
                    Some(x_value) => match spec_parse_u32(trim(y)) {
                        None => Err("bad crop y `"@ + y + "`"@),
                        Some(y_value) => Ok(CropOrigin::At { x: x_value, y: y_value }),
                    },
                }
            },
        }
    }
}

impl CropOrigin {
    /// Parses an anchor name, or `X,Y` for a corner. [`CropOrigin::to_string`] writes back what this reads.
    ///
    /// The error says what was wrong: a spelling that is neither, or which half of a corner is not a number.
    pub fn parse(raw: &str) -> (parsed: Result<CropOrigin, String>)
        ensures
            match parsed {
                Ok(origin) => spec_parse_origin(raw@) == Ok::<CropOrigin, Seq<char>>(origin),
                Err(message) => spec_parse_origin(raw@) == Err::<CropOrigin, Seq<char>>(message@),
            },
    {
        let text = trim_str(raw);
        if str_eq(text, "center") {
            return Ok(CropOrigin::Center);
        }
        if str_eq(text, "top") {
            return Ok(CropOrigin::Top);
        }
        if str_eq(text, "bottom") {
            return Ok(CropOrigin::Bottom);
        }
        if str_eq(text, "left") {
            return Ok(CropOrigin::Left);
        }
        if str_eq(text, "right") {
            return Ok(CropOrigin::Right);
        }
        match find_char(text, ',') {
            None => {
                proof {
                    assert(first_index_of(text@, ',') is None);
                }
                let mut message = String::from_str("expected center, top, bottom, left, right or X,Y, got `");
                message.append(raw);
                message.append("`");
                Err(message)
            },
            Some(at) => {
                proof {
                    lemma_first_index_of(text@, ',', at as int);
                }
                let n = text.unicode_len();
                let x = text.substring_char(0, at);
                let y = text.substring_char(at + 1, n);
                match parse_u32(trim_str(x)) {
                    None => {
                        let mut message = String::from_str("bad crop x `");
                        message.append(x);
                        message.append("`");
                        Err(message)
                    },
                    Some(x_value) => match parse_u32(trim_str(y)) {
                        None => {
                            let mut message = String::from_str("bad crop y `");
                            message.append(y);
                            message.append("`");
                            Err(message)
                        },
                        Some(y_value) => Ok(CropOrigin::At { x: x_value, y: y_value }),
                    },
                }
            },
        }
    }

    /// How this origin is written: its anchor's name, or `X,Y` for a corner.
    pub fn to_string(&self) -> (text: String)
        ensures
            text@ == spec_origin_text(*self),
    {
        match *self {
            CropOrigin::Center => String::from_str("center"),
            CropOrigin::Top => String::from_str("top"),
            CropOrigin::Bottom => String::from_str("bottom"),
            CropOrigin::Left => String::from_str("left"),
            CropOrigin::Right => String::from_str("right"),
            CropOrigin::At { x, y } => {
                let mut text = String::new();
                push_decimal(&mut text, x as u64);
                text.append(",");
                push_decimal(&mut text, y as u64);
                proof {
                    reveal_strlit(",");
                    assert(text@ =~= decimal(x as nat) + seq![','] + decimal(y as nat));
                }
                text
            },
        }
    }
}

/// A decimal numeral is one or more digits, and reads back as the number it was written from.
pub proof fn lemma_decimal_reads_back(n: nat)
    ensures
        decimal(n).len() >= 1,
        forall|i: int| 0 <= i < decimal(n).len() ==> is_digit(#[trigger] decimal(n)[i]),
        digits_value(decimal(n)) == n,
    decreases n,
{
    if n < 10 {
        assert(('0' as nat) == 48);
        assert((digit_char(n) as nat) == 48 + n);
        assert(digits_value(decimal(n)) == digits_value(seq![digit_char(n)]));
        assert(seq![digit_char(n)].drop_last() =~= Seq::<char>::empty());
        assert(digits_value(Seq::<char>::empty()) == 0);
        assert(digits_value(seq![digit_char(n)]) == 0 * 10 + ((digit_char(n) as nat) - ('0' as nat)) as nat);
    } else {
        lemma_decimal_reads_back(n / 10);
        lemma_digits_value_step(decimal(n / 10), digit_char(n % 10));
        assert((digit_char(n % 10) as nat) == 48 + n % 10);
        assert(('0' as nat) == 48);
        assert(decimal(n) == decimal(n / 10).push(digit_char(n % 10)));
        assert(digits_value(decimal(n)) == (n / 10) * 10 + n % 10);
    }
}

proof fn lemma_untrimmed(s: Seq<char>)
    requires
        s.len() >= 1,
        !is_white_space(s[0]),
        !is_white_space(s.last()),
    ensures
        trim(s) == s,
{
}

proof fn lemma_numeral_parses(n: u32)
    ensures
        spec_parse_u32(trim(decimal(n as nat))) == Some(n),
{
    let s = decimal(n as nat);
    lemma_decimal_reads_back(n as nat);
    lemma_untrimmed(s);
    assert(unsigned_digits(s) == s);
}

/// Whatever an origin is, what [`CropOrigin::to_string`] writes, [`CropOrigin::parse`] reads back as that origin.
pub proof fn lemma_origin_round_trips(origin: CropOrigin)
    ensures
        spec_parse_origin(spec_origin_text(origin)) == Ok::<CropOrigin, Seq<char>>(origin),
{
    reveal_strlit("center");
    reveal_strlit("top");
    reveal_strlit("bottom");
    reveal_strlit("left");
    reveal_strlit("right");
    match origin {
        CropOrigin::At { x, y } => {
            let dx = decimal(x as nat);
            let dy = decimal(y as nat);
            let text = dx + seq![','] + dy;
            lemma_decimal_reads_back(x as nat);
            lemma_decimal_reads_back(y as nat);
            assert(text[0] == dx[0]);
            assert(text.last() == dy.last());
            lemma_untrimmed(text);
            assert(text != "center"@ && text != "top"@ && text != "bottom"@ && text != "left"@ && text != "right"@) by {
                assert(is_digit(text[0]));
            }
            assert(text[dx.len() as int] == ',');
            assert forall|j: int| 0 <= j < dx.len() implies text[j] != ',' by {
                assert(text[j] == dx[j]);
                assert(is_digit(dx[j]));
            }
            lemma_first_index_of(text, ',', dx.len() as int);
            assert(text.subrange(0, dx.len() as int) =~= dx);
            assert(text.subrange(dx.len() as int + 1, text.len() as int) =~= dy);
            lemma_numeral_parses(x);
            lemma_numeral_parses(y);
        },
        _ => {
            lemma_untrimmed(spec_origin_text(origin));
        },
    }
}

} // verus!
