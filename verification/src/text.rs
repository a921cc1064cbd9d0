//! Text: lower case, parts of a text, and numbers written in decimal.

use vstd::prelude::*;
use vstd::string::*;

verus! {

/// The text in lower case, as Unicode defines it.
pub uninterp spec fn lowercase(text: Seq<char>) -> Seq<char>;

/// `str::to_lowercase`. It maps characters by Unicode's tables, without regard
/// to any locale, so its result is a function of the text alone.
#[verifier::external_body]
pub(crate) fn to_lowercase(s: &str) -> (r: String)
    ensures
        r@ == lowercase(s@),
{
    s.to_lowercase()
}

/// Whether `part` stands somewhere in `text`.
pub open spec fn has_part(text: Seq<char>, part: Seq<char>) -> bool {
    exists|i: int|
        0 <= i <= text.len() - part.len() && #[trigger] text.subrange(i, i + part.len()) == part
}

/// Whether the two texts are equal.
pub fn same(a: &str, b: &str) -> (r: bool)
    ensures
        r == (a@ == b@),
{
    a.to_string() == b.to_string()
}

/// The characters of a text.
pub fn chars_of(s: &str) -> (r: Vec<char>)
    ensures
        r@ == s@,
{
    broadcast use vstd::string::axiom_spec_iter;
    let mut chars: Vec<char> = Vec::new();
    for c in it: s.chars()
        invariant
            it.seq() == s@,
            chars@ == s@.take(it.index() as int),
    {
        assert(s@.take(it.index() + 1) =~= s@.take(it.index() as int).push(c));
        chars.push(c);
    }
    assert(s@.take(s@.len() as int) =~= s@);
    chars
}

/// Whether `part` stands in `chars` from `at` on.
pub fn has_part_at(chars: &Vec<char>, at: usize, part: &Vec<char>) -> (r: bool)
    requires
        at + part.len() <= chars.len(),
    ensures
        r == (chars@.subrange(at as int, at + part.len()) == part@),
{
    let mut i: usize = 0;
    while i < part.len()
        invariant
            at + part.len() <= chars.len(),
            i <= part.len(),
            forall|j: int| 0 <= j < i ==> chars@[at + j] == #[trigger] part@[j],
        decreases part.len() - i,
    {
        if chars[at + i] != part[i] {
            assert(chars@.subrange(at as int, at + part.len())[i as int] != part@[i as int]);
            return false;
        }
        i = i + 1;
    }
    assert(chars@.subrange(at as int, at + part.len()) =~= part@);
    true
}

/// Whether `part` stands somewhere in `s`.
pub fn contains(s: &str, part: &str) -> (r: bool)
    ensures
        r == has_part(s@, part@),
{
    let chars: Vec<char> = chars_of(s);
    let letters: Vec<char> = chars_of(part);
    if letters.len() > chars.len() {
        return false;
    }
    let last: usize = chars.len() - letters.len();
    let mut i: usize = 0;
    loop
        invariant
            chars@ == s@,
            letters@ == part@,
            last + letters.len() == chars.len(),
            i <= last,
            forall|j: int|
                0 <= j < i ==> #[trigger] chars@.subrange(j, j + letters.len()) != letters@,
        decreases last - i,
    {
        if has_part_at(&chars, i, &letters) {
            return true;
        }
        if i == last {
            return false;
        }
        i = i + 1;
    }
}

/// The character of a digit.
pub open spec fn digit_char(d: int) -> char {
    (d + '0' as int) as char
}

/// A number in decimal.
pub open spec fn decimal_text(n: nat) -> Seq<char>
    decreases n,
{
    if n < 10 {
        seq![digit_char(n as int)]
    } else {
        decimal_text(n / 10).push(digit_char((n % 10) as int))
    }
}

/// A number in decimal, with a sign where it is negative.
pub open spec fn signed_text(n: int) -> Seq<char> {
    if n < 0 {
        seq!['-'] + decimal_text((-n) as nat)
    } else {
        decimal_text(n as nat)
    }
}

fn digit(d: u64) -> (r: &'static str)
    requires
        d < 10,
    ensures
        r@ == seq![digit_char(d as int)],
{
    proof {
        reveal_strlit("0");
        reveal_strlit("1");
        reveal_strlit("2");
        reveal_strlit("3");
        reveal_strlit("4");
        reveal_strlit("5");
        reveal_strlit("6");
        reveal_strlit("7");
        reveal_strlit("8");
        reveal_strlit("9");
    }
    if d == 0 {
        "0"
    } else if d == 1 {
        "1"
    } else if d == 2 {
        "2"
    } else if d == 3 {
        "3"
    } else if d == 4 {
        "4"
    } else if d == 5 {
        "5"
    } else if d == 6 {
        "6"
    } else if d == 7 {
        "7"
    } else if d == 8 {
        "8"
    } else {
        "9"
    }
}

/// Writes a number in decimal.
pub fn decimal(n: u64) -> (r: String)
    ensures
        r@ == decimal_text(n as nat),
    decreases n,
{
    if n < 10 {
        digit(n).to_string()
    } else {
        let mut s: String = decimal(n / 10);
        s.append(digit(n % 10));
        s
    }
}

/// Writes a signed number in decimal.
pub fn signed_decimal(n: i64) -> (r: String)
    ensures
        r@ == signed_text(n as int),
{
    if n < 0 {
        proof {
            reveal_strlit("-");
        }
        let m: u64 = (-(n as i128)) as u64;
        let mut s: String = "-".to_string();
        let digits: String = decimal(m);
        s.append(digits.as_str());
        s
    } else {
        decimal(n as u64)
    }
}

/// The texts of some strings.
pub open spec fn views(strings: Seq<String>) -> Seq<Seq<char>> {
    strings.map_values(|s: String| s@)
}

/// Whether a character is a digit.
pub open spec fn is_digit(c: char) -> bool {
    '0' <= c <= '9'
}

/// The number that a digit stands for.
pub open spec fn digit_value(c: char) -> int {
    c as int - '0' as int
}

/// Whether every character is a digit.
pub open spec fn all_digits(s: Seq<char>) -> bool {
    forall|i: int| 0 <= i < s.len() ==> '0' <= #[trigger] s[i] <= '9'
}

/// The number that digits stand for.
pub open spec fn digits_value(s: Seq<char>) -> int
    decreases s.len(),
{
    if s.len() == 0 {
        0
    } else {
        digits_value(s.drop_last()) * 10 + (s.last() as int - '0' as int)
    }
}

/// The integer that a text stands for: digits, after a sign if there is one.
pub open spec fn integer_of(s: Seq<char>) -> Option<int> {
    let body = if s.len() > 0 && (s[0] == '+' || s[0] == '-') {
        s.skip(1)
    } else {
        s
    };
    if body.len() == 0 || !all_digits(body) {
        None
    } else if s[0] == '-' {
        Some(-digits_value(body))
    } else {
        Some(digits_value(body))
    }
}

/// The integer in `low..=high` that a text stands for.
pub open spec fn integer_within(s: Seq<char>, low: int, high: int) -> Option<int> {
    match integer_of(s) {
        Some(n) => if low <= n <= high {
            Some(n)
        } else {
            None
        },
        None => None,
    }
}

/// Beyond this magnitude integers are not told apart when they are read.
pub const INTEGER_LIMIT: i128 = 0x10_0000_0000_0000_0000_0000_0000;

/// Reads an integer, brought into `-INTEGER_LIMIT..=INTEGER_LIMIT`.
pub fn parse_saturating(s: &str) -> (r: Option<i128>)
    ensures
        match integer_of(s@) {
            Some(n) => r == Some(
                (if n > INTEGER_LIMIT {
                    INTEGER_LIMIT as int
                } else if n < -INTEGER_LIMIT {
                    -INTEGER_LIMIT
                } else {
                    n
                }) as i128,
            ),
            None => r is None,
        },
{
    let ghost text = s@;
    let ghost body = if text.len() > 0 && (text[0] == '+' || text[0] == '-') {
        text.skip(1)
    } else {
        text
    };
    if !s.is_ascii() {
        proof {
            let k = choose|k: int|
                0 <= k < text.len() && !('\0' <= #[trigger] text[k] <= '\u{7f}');
            let at = k - (text.len() - body.len());
            assert(body[at] == text[k]);
        }
        return None;
    }
    proof {
        vstd::utf8::is_ascii_chars_encode_utf8(text);
    }
    let bytes = s.as_bytes();
    let n: usize = bytes.len();
    let start: usize = if n > 0 && (bytes[0] == 43 || bytes[0] == 45) { 1 } else { 0 };
    if n == start {
        return None;
    }
    let mut value: i128 = 0;
    let mut i: usize = start;
    while i < n
        invariant
            text == s@,
            n == text.len(),
            bytes@.len() == n,
            start < n,
            start <= i <= n,
            body == text.skip(start as int),
            (start == 1) == (text[0] == '+' || text[0] == '-'),
            start <= 1,
            forall|j: int|
                #![trigger text[j]]
                0 <= j < n ==> bytes@[j] as int == text[j] as int,
            all_digits(body.take(i - start)),
            0 <= value <= INTEGER_LIMIT,
            digits_value(body.take(i - start)) == value || (value == INTEGER_LIMIT && digits_value(
                body.take(i - start),
            ) >= value),
        decreases n - i,
    {
        let b: u8 = bytes[i];
        let ghost part = body.take(i - start);
        let ghost next = body.take(i + 1 - start);
        assert(body[i - start] == text[i as int]);
        if b < 48 || b > 57 {
            assert(!('0' <= body[i - start] <= '9'));
            assert(start == 0 ==> body =~= text);
            return None;
        }
        assert(next.drop_last() =~= part);
        assert forall|j: int| 0 <= j < next.len() implies '0' <= #[trigger] next[j] <= '9' by {
            if j < part.len() {
                assert(next[j] == part[j]);
            }
        }
        value = value * 10 + (b - 48) as i128;
        if value > INTEGER_LIMIT {
            value = INTEGER_LIMIT;
        }
        i = i + 1;
    }
    assert(body.take(n - start) =~= body);
    if bytes[0] == 45 {
        Some(-value)
    } else {
        Some(value)
    }
}

/// Reads an integer in `low..=high`.
pub fn parse_integer(s: &str, low: i128, high: i128) -> (r: Option<i128>)
    requires
        -0x1_0000_0000_0000_0000 <= low <= high <= 0x1_0000_0000_0000_0000,
    ensures
        match integer_within(s@, low as int, high as int) {
            Some(n) => r == Some(n as i128),
            None => r is None,
        },
        r matches Some(n) ==> low <= n <= high,
{
    match parse_saturating(s) {
        Some(n) => if low <= n && n <= high {
            Some(n)
        } else {
            None
        },
        None => None,
    }
}

/// The unsigned integer up to `high` that a text stands for; a minus rules it out.
pub open spec fn unsigned_within(s: Seq<char>, high: int) -> Option<int> {
    if s.len() > 0 && s[0] == '-' {
        None
    } else {
        integer_within(s, 0, high)
    }
}

/// Reads an unsigned integer up to `high`.
pub fn parse_unsigned(s: &str, high: u64) -> (r: Option<u64>)
    ensures
        match unsigned_within(s@, high as int) {
            Some(n) => r == Some(n as u64),
            None => r is None,
        },
        r matches Some(n) ==> n <= high,
{
    if !s.is_empty() && s.get_char(0) == '-' {
        return None;
    }
    match parse_integer(s, 0, high as i128) {
        Some(n) => Some(n as u64),
        None => None,
    }
}

/// An amount in cents, written in dollars with two decimal places.
pub open spec fn dollars_text(cents: int) -> Seq<char> {
    let m = if cents < 0 {
        -cents
    } else {
        cents
    };
    let sign = if cents < 0 {
        seq!['-']
    } else {
        Seq::<char>::empty()
    };
    sign + decimal_text((m / 100) as nat) + seq!['.', digit_char(m % 100 / 10), digit_char(m % 10)]
}

fn magnitude_dollars(cents: u64) -> (r: String)
    ensures
        r@ == dollars_text(cents as int),
{
    proof {
        reveal_strlit(".");
    }
    let mut s: String = decimal(cents / 100);
    s.append(".");
    s.append(digit(cents % 100 / 10));
    s.append(digit(cents % 10));
    assert(s@ =~= dollars_text(cents as int));
    s
}

/// Writes an amount in cents in dollars.
pub fn dollars(cents: i64) -> (r: String)
    ensures
        r@ == dollars_text(cents as int),
{
    if cents < 0 {
        proof {
            reveal_strlit("-");
        }
        let mut s: String = "-".to_string();
        s.append(magnitude_dollars((-(cents as i128)) as u64).as_str());
        assert(s@ =~= dollars_text(cents as int));
        s
    } else {
        magnitude_dollars(cents as u64)
    }
}

/// An amount in cents, written in dollars with its sign in front.
pub open spec fn signed_dollars_text(cents: int) -> Seq<char> {
    if cents < 0 {
        "-$"@ + dollars_text(-cents)
    } else {
        "+$"@ + dollars_text(cents)
    }
}

/// Writes an amount in cents in dollars, with its sign in front.
pub fn signed_dollars(cents: i64) -> (r: String)
    ensures
        r@ == signed_dollars_text(cents as int),
{
    if cents < 0 {
        let mut s: String = "-$".to_string();
        s.append(magnitude_dollars((-(cents as i128)) as u64).as_str());
        s
    } else {
        let mut s: String = "+$".to_string();
        s.append(magnitude_dollars(cents as u64).as_str());
        s
    }
}

/// A number written in decimal reads back as that number.
pub proof fn law_decimal_reads_back(n: nat)
    ensures
        decimal_text(n).len() > 0,
        all_digits(decimal_text(n)),
        digits_value(decimal_text(n)) == n,
        integer_of(decimal_text(n)) == Some(n as int),
    decreases n,
{
    let s = decimal_text(n);
    if n < 10 {
        assert(s.drop_last() =~= Seq::<char>::empty());
        assert(digits_value(s.drop_last()) == 0);
        assert(s[0] == digit_char(n as int));
    } else {
        law_decimal_reads_back(n / 10);
        assert(s.drop_last() =~= decimal_text(n / 10));
        assert(s.last() == digit_char((n % 10) as int));
        assert forall|i: int| 0 <= i < s.len() implies '0' <= #[trigger] s[i] <= '9' by {
            if i < s.len() - 1 {
                assert(s[i] == s.drop_last()[i]);
            }
        }
    }
    assert('0' <= s[0] <= '9');
}

/// A number with its sign reads back as that number.
pub proof fn law_signed_reads_back(n: int)
    ensures
        integer_of(signed_text(n)) == Some(n),
{
    if n < 0 {
        law_decimal_reads_back((-n) as nat);
        assert(signed_text(n).skip(1) =~= decimal_text((-n) as nat));
    } else {
        law_decimal_reads_back(n as nat);
    }
}

/// Two more digits stand for a hundredfold and themselves.
proof fn lemma_two_more_digits(s: Seq<char>, tens: int, ones: int)
    requires
        all_digits(s),
        0 <= tens < 10,
        0 <= ones < 10,
    ensures
        all_digits(s + seq![digit_char(tens), digit_char(ones)]),
        digits_value(s + seq![digit_char(tens), digit_char(ones)]) == digits_value(s) * 100 + tens
            * 10 + ones,
{
    let one = s.push(digit_char(tens));
    let both = s + seq![digit_char(tens), digit_char(ones)];
    assert(both.drop_last() =~= one);
    assert(one.drop_last() =~= s);
    assert(both.last() == digit_char(ones));
    assert(one.last() == digit_char(tens));
    assert(digits_value(one) == digits_value(s) * 10 + tens);
    assert forall|i: int| 0 <= i < both.len() implies '0' <= #[trigger] both[i] <= '9' by {
        if i < s.len() {
            assert(both[i] == s[i]);
        }
    }
}

/// An amount in dollars has two places behind its point, and without the point
/// it is the amount in cents.
pub proof fn law_dollars_read_back(cents: int)
    ensures
        ({
            let t = dollars_text(cents);
            &&& t.len() >= 4
            &&& t[t.len() - 3] == '.'
            &&& integer_of(t.take(t.len() - 3) + t.skip(t.len() - 2)) == Some(cents)
        }),
{
    let t = dollars_text(cents);
    let m = if cents < 0 {
        -cents
    } else {
        cents
    };
    let whole = decimal_text((m / 100) as nat);
    law_decimal_reads_back((m / 100) as nat);
    lemma_two_more_digits(whole, m % 100 / 10, m % 10);
    let digits = whole + seq![digit_char(m % 100 / 10), digit_char(m % 10)];
    let joined = t.take(t.len() - 3) + t.skip(t.len() - 2);
    if cents < 0 {
        assert(joined =~= seq!['-'] + digits);
        assert(joined.skip(1) =~= digits);
    } else {
        assert(joined =~= digits);
        assert('0' <= digits[0] <= '9');
    }
}

/// A signed amount has its sign, the dollar sign, and the amount without a sign.
pub proof fn law_signed_dollars_show_the_sign(cents: int)
    ensures
        ({
            let t = signed_dollars_text(cents);
            let m = if cents < 0 {
                -cents
            } else {
                cents
            };
            &&& t.len() > 2
            &&& t[0] == (if cents < 0 {
                '-'
            } else {
                '+'
            })
            &&& t[1] == '$'
            &&& t.skip(2) == dollars_text(m)
        }),
{
    reveal_strlit("-$");
    reveal_strlit("+$");
    let m = if cents < 0 {
        -cents
    } else {
        cents
    };
    assert(signed_dollars_text(cents).skip(2) =~= dollars_text(m));
}

/// A text holds a part exactly where it is made of something, the part, and
/// something.
pub proof fn law_part_has_something_around_it(
    text: Seq<char>,
    before: Seq<char>,
    part: Seq<char>,
    behind: Seq<char>,
)
    ensures
        has_part(before + part + behind, part),
        has_part(text, part) ==> exists|a: Seq<char>, b: Seq<char>|
            text == #[trigger] (a + part + b),
{
    let whole = before + part + behind;
    let at = before.len() as int;
    assert(whole.subrange(at, at + part.len()) =~= part);
    if has_part(text, part) {
        let i = choose|i: int|
            0 <= i <= text.len() - part.len() && #[trigger] text.subrange(i, i + part.len())
                == part;
        let a = text.take(i);
        let b = text.skip(i + part.len());
        assert forall|k: int| 0 <= k < text.len() implies #[trigger] text[k] == (a + part + b)[k] by {
            if i <= k < i + part.len() {
                assert(text.subrange(i, i + part.len())[k - i] == part[k - i]);
            }
        }
        assert(text =~= a + part + b);
    }
}

} // verus!
