//! Numbers as they are written in decimal: a sign, digits with a point, and a
//! power of ten.

use vstd::prelude::*;
use vstd::string::*;

use crate::quantity;
use crate::seqs;
use crate::text;

verus! {

/// The places behind the point that are read.
pub const PLACES: i128 = 6;

/// From this magnitude on, read values are not told apart.
pub const VALUE_LIMIT: i128 = 0x8000_0000_0000_0000;

/// Whether a character is a sign.
pub open spec fn is_sign(c: char) -> bool {
    c == '-' || c == '+'
}

/// The test for the mark in front of a power of ten.
pub open spec fn power_mark() -> spec_fn(char) -> bool {
    |c: char| c == 'e' || c == 'E'
}

/// The test for the point.
pub open spec fn point() -> spec_fn(char) -> bool {
    |c: char| c == '.'
}

/// Whether a text is a word of small letters, in any case of letters.
pub open spec fn spells(s: Seq<char>, word: Seq<char>) -> bool {
    &&& s.len() == word.len()
    &&& forall|i: int|
        0 <= i < s.len() ==> (#[trigger] s[i]) == word[i] || s[i] as int + 32 == word[i] as int
}

/// The words for a number beyond all others.
pub open spec fn is_infinity(s: Seq<char>) -> bool {
    spells(s, seq!['i', 'n', 'f']) || spells(s, seq!['i', 'n', 'f', 'i', 'n', 'i', 't', 'y'])
}

/// The number that the first `k` of some digits form, with zeros behind the
/// last of them.
pub open spec fn leading(digits: Seq<char>, k: int) -> int
    decreases k,
{
    if k <= 0 {
        0
    } else {
        leading(digits, k - 1) * 10 + (if k <= digits.len() {
            digits[k - 1] as int - '0' as int
        } else {
            0
        })
    }
}

/// A number without its sign.
pub enum Magnitude {
    /// The whole millionths of a number; what is left beyond them is dropped.
    Finite(int),
    /// A number beyond all others.
    Infinite,
}

/// The digits of a text with at most one point, the point left out.
pub open spec fn digits_of(mantissa: Seq<char>) -> Seq<char> {
    let at = seqs::first_where(mantissa, point());
    if at < mantissa.len() {
        mantissa.take(at) + mantissa.skip(at + 1)
    } else {
        mantissa
    }
}

/// What a text without a sign stands for, where it is a number.
pub open spec fn magnitude_of(s: Seq<char>) -> Option<Magnitude> {
    let mark = seqs::first_where(s, power_mark());
    let mantissa = s.take(mark);
    let digits = digits_of(mantissa);
    let power = if mark < s.len() {
        text::integer_of(s.skip(mark + 1))
    } else {
        Some(0)
    };
    if is_infinity(s) {
        Some(Magnitude::Infinite)
    } else if digits.len() == 0 || !text::all_digits(digits) || power is None {
        None
    } else {
        let whole = seqs::first_where(mantissa, point());
        Some(Magnitude::Finite(leading(digits, whole + power.unwrap() + PLACES)))
    }
}

/// A text without its sign, if it has one.
pub open spec fn unsigned_part(s: Seq<char>) -> Seq<char> {
    if s.len() > 0 && is_sign(s[0]) {
        s.skip(1)
    } else {
        s
    }
}

/// The millionths that a text stands for, where it is a number: an optional
/// sign, then infinity or digits with at most one point, and a power of ten
/// behind them if there is one. What 64 bits do not hold is brought to the
/// nearest end of their range.
pub open spec fn millionths(s: Seq<char>) -> Option<i64> {
    let negative = s.len() > 0 && s[0] == '-';
    match magnitude_of(unsigned_part(s)) {
        None => None,
        Some(Magnitude::Infinite) => Some(if negative {
            i64::MIN
        } else {
            i64::MAX
        }),
        Some(Magnitude::Finite(n)) => Some(quantity::clamp_units(if negative {
            -n
        } else {
            n
        }) as i64),
    }
}

proof fn lemma_leading_not_negative(digits: Seq<char>, k: int)
    requires
        text::all_digits(digits),
    ensures
        leading(digits, k) >= 0,
    decreases k,
{
    if k > 0 {
        lemma_leading_not_negative(digits, k - 1);
        if k <= digits.len() {
            assert('0' <= digits[k - 1] <= '9');
        }
    }
}

/// More digits make no smaller number.
proof fn lemma_leading_grows(digits: Seq<char>, j: int, k: int)
    requires
        text::all_digits(digits),
        j <= k,
    ensures
        leading(digits, j) <= leading(digits, k),
    decreases k - j,
{
    if j < k {
        lemma_leading_grows(digits, j, k - 1);
        lemma_leading_not_negative(digits, k - 1);
        if 0 < k <= digits.len() {
            assert('0' <= digits[k - 1] <= '9');
        }
    }
}

/// Zeros behind a zero leave it.
proof fn lemma_leading_zero(digits: Seq<char>, j: int, k: int)
    requires
        digits.len() <= j <= k,
        leading(digits, j) == 0,
    ensures
        leading(digits, k) == 0,
    decreases k - j,
{
    if j < k {
        lemma_leading_zero(digits, j, k - 1);
    }
}

/// Every zero behind any other number makes it larger.
proof fn lemma_leading_climbs(digits: Seq<char>, j: int, k: int)
    requires
        digits.len() <= j <= k,
        leading(digits, j) >= 1,
    ensures
        leading(digits, k) >= 1 + (k - j),
    decreases k - j,
{
    if j < k {
        lemma_leading_climbs(digits, j, k - 1);
    }
}

/// Powers of ten beyond the limit of what is read make no difference.
proof fn lemma_power_saturates(digits: Seq<char>, whole: int, power: int, read: int)
    requires
        text::all_digits(digits),
        0 <= whole <= digits.len() <= u64::MAX,
        power > text::INTEGER_LIMIT && read == text::INTEGER_LIMIT || power < -text::INTEGER_LIMIT
            && read == -text::INTEGER_LIMIT || power == read,
    ensures
        ({
            let a = leading(digits, whole + power + PLACES);
            let b = leading(digits, whole + read + PLACES);
            a == b || (a >= VALUE_LIMIT && b >= VALUE_LIMIT)
        }),
{
    let n = digits.len() as int;
    lemma_leading_not_negative(digits, n);
    if power > text::INTEGER_LIMIT {
        if leading(digits, n) == 0 {
            lemma_leading_zero(digits, n, whole + power + PLACES);
            lemma_leading_zero(digits, n, whole + read + PLACES);
        } else {
            lemma_leading_climbs(digits, n, whole + power + PLACES);
            lemma_leading_climbs(digits, n, whole + read + PLACES);
        }
    }
}

fn read_leading(digits: &Vec<u8>, k: i128, Ghost(chars): Ghost<Seq<char>>) -> (r: i128)
    requires
        text::all_digits(chars),
        digits.len() == chars.len(),
        forall|i: int|
            0 <= i < chars.len() ==> (#[trigger] digits@[i]) as int == chars[i] as int - '0' as int,
    ensures
        0 <= r <= VALUE_LIMIT,
        r == leading(chars, k as int) || (r == VALUE_LIMIT && leading(chars, k as int) >= r),
{
    let mut value: i128 = 0;
    let mut j: i128 = 0;
    while j < k
        invariant
            text::all_digits(chars),
            digits.len() == chars.len(),
            forall|i: int|
                0 <= i < chars.len() ==> (#[trigger] digits@[i]) as int == chars[i] as int
                    - '0' as int,
            0 <= j,
            j <= k || k < 0,
            j == 0 || j <= k,
            0 <= value < VALUE_LIMIT,
            value == leading(chars, j as int),
        decreases k - j,
    {
        if value == 0 && j >= digits.len() as i128 {
            proof {
                lemma_leading_zero(chars, j as int, k as int);
            }
            return 0;
        }
        let digit: i128 = if j < digits.len() as i128 {
            assert('0' <= chars[j as int] <= '9');
            digits[j as usize] as i128
        } else {
            0
        };
        value = value * 10 + digit;
        j = j + 1;
        if value >= VALUE_LIMIT {
            proof {
                lemma_leading_grows(chars, j as int, k as int);
            }
            return VALUE_LIMIT;
        }
    }
    value
}

fn is_spelled(s: &str, word: &[u8]) -> (r: bool)
    requires
        s.is_ascii(),
    ensures
        r == spells(s@, word@.map_values(|b: u8| b as char)),
{
    let ghost text = s@;
    let ghost letters = word@.map_values(|b: u8| b as char);
    proof {
        vstd::utf8::is_ascii_chars_encode_utf8(text);
    }
    let bytes = s.as_bytes();
    if bytes.len() != word.len() {
        return false;
    }
    let mut i: usize = 0;
    while i < bytes.len()
        invariant
            text == s@,
            letters == word@.map_values(|b: u8| b as char),
            bytes@.len() == text.len(),
            word@.len() == text.len(),
            i <= bytes.len(),
            forall|j: int|
                #![trigger text[j]]
                0 <= j < text.len() ==> bytes@[j] as int == text[j] as int,
            forall|j: int|
                0 <= j < i ==> (#[trigger] text[j]) == letters[j] || text[j] as int + 32
                    == letters[j] as int,
        decreases bytes.len() - i,
    {
        let (b, w): (u8, u8) = (bytes[i], word[i]);
        assert(letters[i as int] == w as char);
        assert(b as int == text[i as int] as int);
        if b != w && b as u16 + 32 != w as u16 {
            return false;
        }
        i = i + 1;
    }
    true
}

/// What is read of a text without a sign.
enum ReadMagnitude {
    Finite(i128),
    Infinite,
}

fn read_magnitude(s: &str) -> (r: Option<ReadMagnitude>)
    requires
        s.is_ascii(),
    ensures
        match magnitude_of(s@) {
            None => r is None,
            Some(Magnitude::Infinite) => r matches Some(ReadMagnitude::Infinite),
            Some(Magnitude::Finite(n)) => r matches Some(ReadMagnitude::Finite(m)) && 0 <= m
                <= VALUE_LIMIT && (m == n || (m == VALUE_LIMIT && n >= m)),
        },
{
    let ghost text = s@;
    let short = [105u8, 110, 102];
    let long = [105u8, 110, 102, 105, 110, 105, 116, 121];
    proof {
        assert(short@.map_values(|b: u8| b as char) =~= seq!['i', 'n', 'f']);
        assert(long@.map_values(|b: u8| b as char) =~= seq!['i', 'n', 'f', 'i', 'n', 'i', 't', 'y']);
    }
    if is_spelled(s, &short) || is_spelled(s, &long) {
        return Some(ReadMagnitude::Infinite);
    }
    proof {
        vstd::utf8::is_ascii_chars_encode_utf8(text);
    }
    let bytes = s.as_bytes();
    let n: usize = bytes.len();
    let mut mark: usize = 0;
    while mark < n && bytes[mark] != 69 && bytes[mark] != 101
        invariant
            n == text.len(),
            bytes@.len() == n,
            mark <= n,
            forall|j: int|
                #![trigger text[j]]
                0 <= j < n ==> bytes@[j] as int == text[j] as int,
            forall|j: int| 0 <= j < mark ==> !power_mark()(#[trigger] text[j]),
        decreases n - mark,
    {
        assert(bytes@[mark as int] as int == text[mark as int] as int);
        mark = mark + 1;
    }
    let ghost mantissa = text.take(mark as int);
    proof {
        if mark < n {
            assert(bytes@[mark as int] as int == text[mark as int] as int);
        }
        seqs::lemma_is_first_where(text, power_mark(), mark as int);
    }
    let mut whole: usize = 0;
    while whole < mark && bytes[whole] != 46
        invariant
            n == text.len(),
            bytes@.len() == n,
            whole <= mark <= n,
            mantissa == text.take(mark as int),
            forall|j: int|
                #![trigger text[j]]
                0 <= j < n ==> bytes@[j] as int == text[j] as int,
            forall|j: int| 0 <= j < whole ==> !point()(#[trigger] mantissa[j]),
        decreases mark - whole,
    {
        assert(mantissa[whole as int] == text[whole as int]);
        whole = whole + 1;
    }
    proof {
        if whole < mark {
            assert(mantissa[whole as int] == text[whole as int]);
        }
        seqs::lemma_is_first_where(mantissa, point(), whole as int);
    }
    let ghost all = digits_of(mantissa);
    let mut digits: Vec<u8> = Vec::new();
    let mut i: usize = 0;
    while i < mark
        invariant
            text == s@,
            !is_infinity(text),
            mark == seqs::first_where(text, power_mark()),
            n == text.len(),
            bytes@.len() == n,
            i <= mark <= n,
            whole <= mark,
            mantissa == text.take(mark as int),
            all == digits_of(mantissa),
            whole == seqs::first_where(mantissa, point()),
            forall|j: int|
                #![trigger text[j]]
                0 <= j < n ==> bytes@[j] as int == text[j] as int,
            digits.len() == (if i <= whole {
                i as int
            } else {
                i - 1
            }),
            forall|j: int|
                #![trigger digits@[j]]
                #![trigger all[j]]
                0 <= j < digits.len() ==> '0' <= all[j] <= '9' && digits@[j] as int == all[j] as int
                    - '0' as int,
        decreases mark - i,
    {
        if i != whole {
            let b: u8 = bytes[i];
            let ghost at = digits.len() as int;
            assert(b as int == text[i as int] as int);
            assert(all[at] == text[i as int]);
            if b < 48 || b > 57 {
                assert(!text::all_digits(all));
                return None;
            }
            digits.push(b - 48);
        }
        i = i + 1;
    }
    assert(digits.len() == all.len());
    assert(text::all_digits(all));
    if digits.len() == 0 {
        return None;
    }
    let power: i128 = if mark < n {
        let tail: &str = s.substring_ascii(mark + 1, n);
        assert(tail@ =~= text.skip(mark + 1));
        assert(is_infinity(text) || magnitude_of(text) is None || text::integer_of(
            tail@,
        ) is Some);
        match text::parse_saturating(tail) {
            Some(power) => power,
            None => {
                return None;
            },
        }
    } else {
        0
    };
    let k: i128 = whole as i128 + power + PLACES;
    let value: i128 = read_leading(&digits, k, Ghost(all));
    proof {
        let written = if mark < n {
            text::integer_of(text.skip(mark + 1)).unwrap()
        } else {
            0
        };
        lemma_power_saturates(all, whole as int, written, power as int);
    }
    Some(ReadMagnitude::Finite(value))
}

/// A text with a character outside ASCII is no number.
proof fn lemma_not_a_numeral(s: Seq<char>, k: int)
    requires
        0 <= k < s.len(),
        !('\0' <= s[k] <= '\u{7f}'),
    ensures
        millionths(s) is None,
{
    let body = unsigned_part(s);
    let at = k - (s.len() - body.len());
    assert(body[at] == s[k]);
    let mark = seqs::first_where(body, power_mark());
    let mantissa = body.take(mark);
    let whole = seqs::first_where(mantissa, point());
    seqs::lemma_first_where(body, power_mark());
    seqs::lemma_first_where(mantissa, point());
    if at < mark {
        assert(mantissa[at] == s[k]);
        let digits = digits_of(mantissa);
        let place = if at < whole {
            at
        } else {
            at - 1
        };
        if whole < mantissa.len() {
            assert(digits[place] == s[k]);
        } else {
            assert(digits[at] == s[k]);
        }
        assert(!text::all_digits(digits));
    } else {
        let tail = body.skip(mark + 1);
        let there = at - mark - 1;
        assert(tail[there] == s[k]);
        let rest = if tail.len() > 0 && (tail[0] == '+' || tail[0] == '-') {
            tail.skip(1)
        } else {
            tail
        };
        assert(rest[there - (tail.len() - rest.len())] == s[k]);
        assert(!text::all_digits(rest));
    }
}

/// Reads a number in millionths.
pub fn read_millionths(s: &str) -> (r: Option<i64>)
    ensures
        r == millionths(s@),
{
    let ghost text = s@;
    if !s.is_ascii() {
        proof {
            let k = choose|k: int|
                0 <= k < text.len() && !('\0' <= #[trigger] text[k] <= '\u{7f}');
            lemma_not_a_numeral(text, k);
        }
        return None;
    }
    let n: usize = s.unicode_len();
    let first: char = if n > 0 {
        s.get_char(0)
    } else {
        '0'
    };
    let negative: bool = first == '-';
    let read: Option<ReadMagnitude> = if negative || first == '+' {
        let tail: &str = s.substring_ascii(1, n);
        assert(tail@ =~= text.skip(1));
        read_magnitude(tail)
    } else {
        read_magnitude(s)
    };
    match read {
        None => None,
        Some(ReadMagnitude::Infinite) => Some(if negative { i64::MIN } else { i64::MAX }),
        Some(ReadMagnitude::Finite(m)) => if negative {
            Some((-m) as i64)
        } else if m > i64::MAX as i128 {
            Some(i64::MAX)
        } else {
            Some(m as i64)
        },
    }
}

/// Ten to the power of `n`.
pub open spec fn power_of_ten(n: nat) -> int
    decreases n,
{
    if n == 0 {
        1
    } else {
        power_of_ten((n - 1) as nat) * 10
    }
}

/// Leading digits are the number that they form; with zeros behind them it is
/// ten times as much for each.
proof fn lemma_leading_value(digits: Seq<char>, k: int)
    requires
        k >= 0,
    ensures
        k <= digits.len() ==> leading(digits, k) == text::digits_value(digits.take(k)),
        k >= digits.len() ==> leading(digits, k) == text::digits_value(digits) * power_of_ten(
            (k - digits.len()) as nat,
        ),
    decreases k,
{
    if k == 0 {
        assert(digits.take(0) =~= Seq::<char>::empty());
        if digits.len() == 0 {
            assert(digits =~= Seq::<char>::empty());
        }
    } else {
        lemma_leading_value(digits, k - 1);
        if k <= digits.len() {
            assert(digits.take(k).drop_last() =~= digits.take(k - 1));
            assert(digits.take(k).last() == digits[k - 1]);
            if k == digits.len() {
                assert(digits.take(k) =~= digits);
            }
        } else {
            let v = text::digits_value(digits);
            let p = power_of_ten((k - 1 - digits.len()) as nat);
            assert((k - digits.len() - 1) as nat == (k - 1 - digits.len()) as nat);
            assert(v * p * 10 == v * (p * 10)) by (nonlinear_arith);
            if k - 1 == digits.len() {
                assert(digits.take(k - 1) =~= digits);
            }
        }
    }
}

/// Digits behind digits: the first ones count as much more as there are behind.
proof fn lemma_digits_behind(front: Seq<char>, back: Seq<char>)
    ensures
        text::digits_value(front + back) == text::digits_value(front) * power_of_ten(back.len())
            + text::digits_value(back),
    decreases back.len(),
{
    if back.len() == 0 {
        assert(front + back =~= front);
    } else {
        let less = back.drop_last();
        lemma_digits_behind(front, less);
        assert((front + back).drop_last() =~= front + less);
        assert((front + back).last() == back.last());
        let v = text::digits_value(front);
        let p = power_of_ten(less.len());
        assert((v * p) * 10 == v * (p * 10)) by (nonlinear_arith);
        assert(power_of_ten(back.len()) == p * 10);
    }
}

/// A text of digits is no infinity, has no power and no point.
proof fn lemma_plain_digits(s: Seq<char>)
    requires
        s.len() > 0,
        text::all_digits(s),
    ensures
        !is_infinity(s),
        seqs::first_where(s, power_mark()) == s.len(),
        seqs::first_where(s, point()) == s.len(),
        unsigned_part(s) == s,
        s.take(s.len() as int) == s,
        digits_of(s) == s,
{
    assert('0' <= s[0] <= '9');
    assert forall|j: int| 0 <= j < s.len() implies !power_mark()(#[trigger] s[j]) && !point()(
        s[j],
    ) by {
        assert('0' <= s[j] <= '9');
    }
    seqs::lemma_is_first_where(s, power_mark(), s.len() as int);
    seqs::lemma_is_first_where(s, point(), s.len() as int);
    assert(s.take(s.len() as int) =~= s);
}

/// Whole numbers are read as what they are.
pub proof fn law_whole_numbers_are_read(n: nat)
    requires
        n * 1_000_000 <= i64::MAX,
    ensures
        millionths(text::decimal_text(n)) == Some((n * 1_000_000) as i64),
{
    let s = text::decimal_text(n);
    text::law_decimal_reads_back(n);
    lemma_plain_digits(s);
    lemma_leading_value(s, s.len() as int + 6);
    reveal_with_fuel(power_of_ten, 7);
    assert(magnitude_of(s) == Some(Magnitude::Finite(n as int * 1_000_000)));
    assert('0' <= s[0] <= '9');
}

/// A minus turns a number around, and a plus leaves it.
pub proof fn law_signs_turn_numbers_around(s: Seq<char>, n: i64)
    requires
        s.len() > 0,
        !is_sign(s[0]),
        millionths(s) == Some(n),
        n < i64::MAX,
    ensures
        millionths(seq!['-'] + s) == Some((-n) as i64),
        millionths(seq!['+'] + s) == Some(n),
{
    let minus = seq!['-'] + s;
    let plus = seq!['+'] + s;
    assert(minus.skip(1) =~= s);
    assert(plus.skip(1) =~= s);
    assert(unsigned_part(s) == s);
    match magnitude_of(s) {
        Some(Magnitude::Finite(m)) => {
            lemma_magnitude_not_negative(s, m);
        },
        _ => {},
    }
}

proof fn lemma_magnitude_not_negative(s: Seq<char>, m: int)
    requires
        magnitude_of(s) == Some(Magnitude::Finite(m)),
    ensures
        m >= 0,
{
    let mark = seqs::first_where(s, power_mark());
    let mantissa = s.take(mark);
    let digits = digits_of(mantissa);
    let power = if mark < s.len() {
        text::integer_of(s.skip(mark + 1))
    } else {
        Some(0)
    };
    lemma_leading_not_negative(
        digits,
        seqs::first_where(mantissa, point()) + power.unwrap() + PLACES,
    );
}

proof fn lemma_point_between(whole: Seq<char>, places: Seq<char>)
    requires
        whole.len() > 0,
        text::all_digits(whole),
        text::all_digits(places),
    ensures
        ({
            let s = whole + seq!['.'] + places;
            &&& !is_infinity(s)
            &&& !is_sign(s[0])
            &&& magnitude_of(s) == Some(
                Magnitude::Finite(leading(whole + places, whole.len() + PLACES)),
            )
        }),
{
    let s = whole + seq!['.'] + places;
    let n = s.len() as int;
    assert(s[0] == whole[0]);
    assert('0' <= whole[0] <= '9');
    assert forall|j: int| 0 <= j < n implies !power_mark()(#[trigger] s[j]) by {
        if j < whole.len() {
            assert(s[j] == whole[j]);
        } else if j > whole.len() {
            assert(s[j] == places[j - whole.len() - 1]);
        }
    }
    seqs::lemma_is_first_where(s, power_mark(), n);
    assert(s.take(n) =~= s);
    assert forall|j: int| 0 <= j < whole.len() implies !point()(#[trigger] s[j]) by {
        assert(s[j] == whole[j]);
    }
    seqs::lemma_is_first_where(s, point(), whole.len() as int);
    assert(digits_of(s) =~= whole + places);
    let digits = whole + places;
    assert forall|i: int| 0 <= i < digits.len() implies '0' <= #[trigger] digits[i] <= '9' by {
        if i < whole.len() {
            assert(digits[i] == whole[i]);
        } else {
            assert(digits[i] == places[i - whole.len()]);
        }
    }
}

/// Six places behind the point are the millionths.
pub proof fn law_six_places_are_millionths(n: nat, places: Seq<char>)
    requires
        places.len() == 6,
        text::all_digits(places),
        n * 1_000_000 + text::digits_value(places) <= i64::MAX,
        0 <= text::digits_value(places),
    ensures
        millionths(text::decimal_text(n) + seq!['.'] + places) == Some(
            (n * 1_000_000 + text::digits_value(places)) as i64,
        ),
{
    let whole = text::decimal_text(n);
    text::law_decimal_reads_back(n);
    lemma_point_between(whole, places);
    let digits = whole + places;
    lemma_leading_value(digits, digits.len() as int);
    assert(digits.take(digits.len() as int) =~= digits);
    lemma_digits_behind(whole, places);
    reveal_with_fuel(power_of_ten, 7);
}

/// A zero behind the last of fewer places changes nothing, nor does any digit
/// behind the sixth.
pub proof fn law_further_places_do_not_count(n: nat, places: Seq<char>, more: char)
    requires
        text::all_digits(places),
        '0' <= more <= '9',
        more == '0' || places.len() >= 6,
    ensures
        millionths(text::decimal_text(n) + seq!['.'] + places.push(more)) == millionths(
            text::decimal_text(n) + seq!['.'] + places,
        ),
{
    let whole = text::decimal_text(n);
    text::law_decimal_reads_back(n);
    let longer = places.push(more);
    assert forall|i: int| 0 <= i < longer.len() implies '0' <= #[trigger] longer[i] <= '9' by {
        if i < places.len() {
            assert(longer[i] == places[i]);
        }
    }
    lemma_point_between(whole, places);
    lemma_point_between(whole, longer);
    lemma_leading_ignores(whole + places, whole + longer, whole.len() + PLACES, more);
}

proof fn lemma_leading_ignores(digits: Seq<char>, longer: Seq<char>, k: int, more: char)
    requires
        longer.len() == digits.len() + 1,
        forall|i: int| 0 <= i < digits.len() ==> #[trigger] longer[i] == digits[i],
        longer[digits.len() as int] == more,
        more == '0' || k <= digits.len(),
    ensures
        leading(digits, k) == leading(longer, k),
    decreases k,
{
    if k > 0 {
        lemma_leading_ignores(digits, longer, k - 1, more);
        if k <= digits.len() {
            assert(longer[k - 1] == digits[k - 1]);
        }
    }
}

/// A power of ten behind a whole number multiplies it by as much.
pub proof fn law_power_multiplies(n: nat, power: nat)
    requires
        n * power_of_ten(power + 6) <= i64::MAX,
    ensures
        millionths(text::decimal_text(n) + seq!['e'] + text::decimal_text(power)) == Some(
            (n * power_of_ten(power + 6)) as i64,
        ),
{
    let digits = text::decimal_text(n);
    let behind = text::decimal_text(power);
    let s = digits + seq!['e'] + behind;
    text::law_decimal_reads_back(n);
    text::law_decimal_reads_back(power);
    lemma_plain_digits(digits);
    assert forall|j: int| 0 <= j < digits.len() implies !power_mark()(#[trigger] s[j]) by {
        assert(s[j] == digits[j]);
        assert('0' <= digits[j] <= '9');
    }
    seqs::lemma_is_first_where(s, power_mark(), digits.len() as int);
    assert(s.take(digits.len() as int) =~= digits);
    assert(s.skip(digits.len() as int + 1) =~= behind);
    assert(s[0] == digits[0]);
    assert('0' <= digits[0] <= '9');
    lemma_leading_value(digits, digits.len() as int + power as int + 6);
    lemma_power_of_ten_positive(power + 6);
    let scale = power_of_ten(power + 6);
    assert(n * scale >= 0) by (nonlinear_arith)
        requires
            scale >= 0,
    ;
}

proof fn lemma_power_of_ten_positive(n: nat)
    ensures
        power_of_ten(n) >= 1,
    decreases n,
{
    if n > 0 {
        lemma_power_of_ten_positive((n - 1) as nat);
    }
}

} // verus!
