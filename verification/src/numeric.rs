use vstd::prelude::*;

verus! {

/// The decimal digits of a number.
pub open spec fn decimal_text(n: nat) -> Seq<char>
    decreases n,
{
    if n < 10 {
        seq![(('0' as u32) + n) as char]
    } else {
        decimal_text(n / 10) + seq![(('0' as u32) + n % 10) as char]
    }
}

pub open spec fn is_digit(c: char) -> bool {
    '0' <= c && c <= '9'
}

pub open spec fn all_digits(s: Seq<char>) -> bool {
    forall|i: int| 0 <= i < s.len() ==> is_digit(#[trigger] s[i])
}

pub open spec fn digit_value(c: char) -> int {
    c as int - '0' as int
}

/// The value of a decimal digit string (0 for the empty string).
pub open spec fn digits_value(s: Seq<char>) -> int
    decreases s.len(),
{
    if s.len() == 0 {
        0
    } else {
        digits_value(s.drop_last()) * 10 + digit_value(s.last())
    }
}

/// What `str::parse::<i128>` gives: an optional sign, then at least one
/// decimal digit, within the range of `i128`.
pub open spec fn i128_text_value(s: Seq<char>) -> Option<int> {
    let negative = s.len() > 0 && s[0] == '-';
    let body = if s.len() > 0 && (s[0] == '-' || s[0] == '+') { s.drop_first() } else { s };
    if body.len() == 0 || !all_digits(body) {
        None
    } else {
        let v = if negative { -digits_value(body) } else { digits_value(body) };
        if i128::MIN <= v <= i128::MAX { Some(v) } else { None }
    }
}

pub proof fn lemma_digits_value_nonneg(s: Seq<char>)
    requires
        all_digits(s),
    ensures
        digits_value(s) >= 0,
    decreases s.len(),
{
    if s.len() > 0 {
        lemma_digits_value_nonneg(s.drop_last());
    }
}

/// A digit string is worth at least as much as any of its prefixes.
pub proof fn lemma_digits_value_prefix(s: Seq<char>, k: int)
    requires
        all_digits(s),
        0 <= k <= s.len(),
    ensures
        digits_value(s) >= digits_value(s.subrange(0, k)),
    decreases s.len(),
{
    if k < s.len() {
        lemma_digits_value_prefix(s.drop_last(), k);
        lemma_digits_value_nonneg(s.drop_last());
        assert(s.drop_last().subrange(0, k) =~= s.subrange(0, k));
    } else {
        assert(s.subrange(0, k) =~= s);
    }
}

pub proof fn lemma_digits_value_step(s: Seq<char>, start: int, i: int)
    requires
        0 <= start <= i < s.len(),
    ensures
        digits_value(s.subrange(start, i + 1)) == digits_value(s.subrange(start, i)) * 10
            + digit_value(s[i]),
{
    assert(s.subrange(start, i + 1).drop_last() =~= s.subrange(start, i));
}

/// `str::parse::<i128>` over a character sequence.
pub fn parse_i128(s: &[char]) -> (value: Option<i128>)
    ensures
        match value {
            Some(v) => i128_text_value(s@) == Some(v as int),
            None => i128_text_value(s@) is None,
        },
{
    let n = s.len();
    if n == 0 {
        return None;
    }
    let negative = s[0] == '-';
    let start: usize = if s[0] == '-' || s[0] == '+' { 1 } else { 0 };
    let ghost body = if s@[0] == '-' || s@[0] == '+' { s@.drop_first() } else { s@ };
    proof {
        assert(body =~= s@.subrange(start as int, n as int));
    }
    if start == n {
        return None;
    }
    let limit: u128 = if negative { 0x8000_0000_0000_0000_0000_0000_0000_0000 } else { 0x7fff_ffff_ffff_ffff_ffff_ffff_ffff_ffff };
    let mut magnitude: u128 = 0;
    let mut i: usize = start;
    let mut overflow = false;
    while i < n
        invariant
            start <= i <= n,
            n == s@.len(),
            start < n,
            body == s@.subrange(start as int, n as int),
            body == (if s@[0] == '-' || s@[0] == '+' { s@.drop_first() } else { s@ }),
            negative == (s@[0] == '-'),
            limit == (if negative { 0x8000_0000_0000_0000_0000_0000_0000_0000u128 } else { 0x7fff_ffff_ffff_ffff_ffff_ffff_ffff_ffffu128 }),
            all_digits(s@.subrange(start as int, i as int)),
            !overflow ==> magnitude == digits_value(s@.subrange(start as int, i as int)),
            !overflow ==> magnitude <= limit,
            overflow ==> digits_value(s@.subrange(start as int, i as int)) > limit,
        decreases n - i,
    {
        let c = s[i];
        if !('0' <= c && c <= '9') {
            proof {
                assert(body[i - start] == c);
                assert(!is_digit(body[i - start]));
                assert(!all_digits(body));
                assert(i128_text_value(s@) is None);
            }
            return None;
        }
        proof {
            lemma_digits_value_step(s@, start as int, i as int);
            assert(all_digits(s@.subrange(start as int, i + 1)));
        }
        let d: u128 = (c as u32 - '0' as u32) as u128;
        if overflow {
            proof {
                lemma_digits_value_nonneg(s@.subrange(start as int, i as int));
            }
        } else if magnitude > (limit - d) / 10 {
            overflow = true;
        } else {
            magnitude = magnitude * 10 + d;
        }
        i = i + 1;
    }
    proof {
        assert(s@.subrange(start as int, n as int) == body);
    }
    if overflow {
        return None;
    }
    if negative {
        if magnitude == 0x8000_0000_0000_0000_0000_0000_0000_0000u128 {
            Some(i128::MIN)
        } else {
            Some(-(magnitude as i128))
        }
    } else {
        Some(magnitude as i128)
    }
}


/// What `str::parse::<u128>` gives: an optional `+`, then at least one
/// decimal digit, within the range of `u128`.
pub open spec fn u128_text_value(s: Seq<char>) -> Option<int> {
    let body = if s.len() > 0 && s[0] == '+' { s.drop_first() } else { s };
    if body.len() == 0 || !all_digits(body) {
        None
    } else if digits_value(body) <= u128::MAX {
        Some(digits_value(body))
    } else {
        None
    }
}

/// `str::parse::<u128>` over a character sequence.
pub fn parse_u128(s: &[char]) -> (value: Option<u128>)
    ensures
        match value {
            Some(v) => u128_text_value(s@) == Some(v as int),
            None => u128_text_value(s@) is None,
        },
{
    let n = s.len();
    if n == 0 {
        return None;
    }
    let start: usize = if s[0] == '+' { 1 } else { 0 };
    let ghost body = if s@[0] == '+' { s@.drop_first() } else { s@ };
    proof {
        assert(body =~= s@.subrange(start as int, n as int));
    }
    if start == n {
        return None;
    }
    let mut value: u128 = 0;
    let mut overflow = false;
    let mut i: usize = start;
    while i < n
        invariant
            start <= i <= n,
            n == s@.len(),
            start < n,
            body == s@.subrange(start as int, n as int),
            body == (if s@[0] == '+' { s@.drop_first() } else { s@ }),
            all_digits(s@.subrange(start as int, i as int)),
            !overflow ==> value == digits_value(s@.subrange(start as int, i as int)),
            overflow ==> digits_value(s@.subrange(start as int, i as int)) > u128::MAX,
        decreases n - i,
    {
        let c = s[i];
        if !('0' <= c && c <= '9') {
            proof {
                assert(body[i - start] == c);
                assert(!all_digits(body));
            }
            return None;
        }
        proof {
            lemma_digits_value_step(s@, start as int, i as int);
            assert(all_digits(s@.subrange(start as int, i + 1)));
        }
        let d: u128 = (c as u32 - '0' as u32) as u128;
        if overflow {
            proof {
                lemma_digits_value_nonneg(s@.subrange(start as int, i as int));
            }
        } else if value > (u128::MAX - d) / 10 {
            overflow = true;
        } else {
            value = value * 10 + d;
        }
        i = i + 1;
    }
    proof {
        assert(s@.subrange(start as int, n as int) == body);
    }
    if overflow {
        return None;
    }
    Some(value)
}

/// The decimal text of a number (`u128::to_string`).
pub fn decimal_u128(n: u128) -> (text: String)
    ensures
        text@ == decimal_text(n as nat),
    decreases n,
{
    let digit = ((('0' as u32) + (n % 10) as u32) as u8) as char;
    if n < 10 {
        let mut text = String::new();
        crate::text::push_char(&mut text, digit);
        proof {
            assert(text@ =~= decimal_text(n as nat));
        }
        text
    } else {
        let mut text = decimal_u128(n / 10);
        crate::text::push_char(&mut text, digit);
        text
    }
}

/// The decimal text of a signed number (`i128::to_string`).
pub open spec fn signed_decimal_text(v: int) -> Seq<char> {
    if v < 0 {
        seq!['-'] + decimal_text((-v) as nat)
    } else {
        decimal_text(v as nat)
    }
}

pub fn decimal_i128(v: i128) -> (text: String)
    ensures
        text@ == signed_decimal_text(v as int),
{
    if v < 0 {
        let magnitude: u128 = if v == i128::MIN {
            0x8000_0000_0000_0000_0000_0000_0000_0000u128
        } else {
            (-v) as u128
        };
        let digits = decimal_u128(magnitude);
        let mut text = String::new();
        crate::text::push_char(&mut text, '-');
        text.append(digits.as_str());
        proof {
            assert(text@ =~= seq!['-'] + decimal_text((-v) as nat));
        }
        text
    } else {
        decimal_u128(v as u128)
    }
}

pub open spec fn is_exponent_marker(c: char) -> bool {
    c == 'e' || c == 'E'
}

/// Index of the first `e`/`E` in `s`, or `s.len()` when there is none.
pub open spec fn first_exponent_marker(s: Seq<char>) -> int
    decreases s.len(),
{
    if s.len() == 0 {
        0
    } else if is_exponent_marker(s[0]) {
        0
    } else {
        1 + first_exponent_marker(s.drop_first())
    }
}

/// Index of the first `c` in `s`, or `s.len()` when there is none.
pub open spec fn first_index_of(s: Seq<char>, c: char) -> int
    decreases s.len(),
{
    if s.len() == 0 {
        0
    } else if s[0] == c {
        0
    } else {
        1 + first_index_of(s.drop_first(), c)
    }
}

pub proof fn lemma_first_exponent_marker(s: Seq<char>)
    ensures
        0 <= first_exponent_marker(s) <= s.len(),
        forall|j: int| 0 <= j < first_exponent_marker(s) ==> !is_exponent_marker(#[trigger] s[j]),
        first_exponent_marker(s) < s.len() ==> is_exponent_marker(s[first_exponent_marker(s)]),
    decreases s.len(),
{
    if s.len() > 0 && !is_exponent_marker(s[0]) {
        lemma_first_exponent_marker(s.drop_first());
        assert forall|j: int| 0 <= j < first_exponent_marker(s) implies !is_exponent_marker(#[trigger] s[j]) by {
            if j > 0 {
                assert(s[j] == s.drop_first()[j - 1]);
            }
        }
    }
}

pub proof fn lemma_first_index_of(s: Seq<char>, c: char)
    ensures
        0 <= first_index_of(s, c) <= s.len(),
        forall|j: int| 0 <= j < first_index_of(s, c) ==> #[trigger] s[j] != c,
        first_index_of(s, c) < s.len() ==> s[first_index_of(s, c)] == c,
    decreases s.len(),
{
    if s.len() > 0 && s[0] != c {
        lemma_first_index_of(s.drop_first(), c);
        assert forall|j: int| 0 <= j < first_index_of(s, c) implies #[trigger] s[j] != c by {
            if j > 0 {
                assert(s[j] == s.drop_first()[j - 1]);
            }
        }
    }
}

/// An optionally signed run of at least one digit, and its value.
pub open spec fn signed_digits_value(s: Seq<char>) -> Option<int> {
    let negative = s.len() > 0 && s[0] == '-';
    let body = if s.len() > 0 && (s[0] == '-' || s[0] == '+') { s.drop_first() } else { s };
    if body.len() == 0 || !all_digits(body) {
        None
    } else if negative {
        Some(-digits_value(body))
    } else {
        Some(digits_value(body))
    }
}

/// Number of leading `0` characters.
pub open spec fn leading_zero_count(s: Seq<char>) -> int
    decreases s.len(),
{
    if s.len() == 0 {
        0
    } else if s[0] == '0' {
        1 + leading_zero_count(s.drop_first())
    } else {
        0
    }
}

/// Lexicographic order on digit strings read as decimal fractions `0.a`
/// and `0.b`, for `b` without trailing zeros: a proper prefix is smaller.
pub open spec fn lex_less(a: Seq<char>, b: Seq<char>) -> bool
    decreases a.len(),
{
    if a.len() == 0 {
        b.len() > 0
    } else if b.len() == 0 {
        false
    } else if a[0] < b[0] {
        true
    } else if a[0] > b[0] {
        false
    } else {
        lex_less(a.drop_first(), b.drop_first())
    }
}

/// The decimal digits of 2^1024 - 2^970, the least magnitude that
/// round-to-nearest-even carries past `f64::MAX` to infinity.
pub open spec fn f64_overflow_digits() -> Seq<char> {
    "179769313486231580793728971405303415079934132710037826936173778980444968292764750946649017977587207096330286416692887910946555547851940402630657488671505820681908902000708383676273854845817711531764475730270069855571366959622842914819860834936475292719074168444365510704342711559699508093042880177904174497792"@
}

/// The whole part, fraction part and exponent marker position of an
/// unsigned decimal float literal.
pub open spec fn float_split(body: Seq<char>) -> (Seq<char>, Seq<char>, int) {
    let e = first_exponent_marker(body);
    let mantissa = body.subrange(0, e);
    let d = first_index_of(mantissa, '.');
    let whole = mantissa.subrange(0, d);
    let fraction = if d < mantissa.len() { mantissa.subrange(d + 1, mantissa.len() as int) } else { Seq::empty() };
    (whole, fraction, e)
}

/// The decimal grammar that `f64::from_str` accepts after its sign:
/// digits with an optional `.` and fraction (one digit at least), then an
/// optional `e`/`E`, sign and digits.
pub open spec fn decimal_float_grammar(body: Seq<char>) -> bool {
    let (whole, fraction, e) = float_split(body);
    &&& all_digits(whole)
    &&& all_digits(fraction)
    &&& whole.len() + fraction.len() > 0
    &&& (e == body.len() || signed_digits_value(body.subrange(e + 1, body.len() as int)) is Some)
}

/// For a literal in the decimal grammar: whether its exact magnitude lies
/// below the overflow threshold, so that the parsed `f64` is finite.
pub open spec fn decimal_below_overflow(body: Seq<char>) -> bool {
    let (whole, fraction, e) = float_split(body);
    let exponent = if e == body.len() { 0 } else { signed_digits_value(body.subrange(e + 1, body.len() as int))->0 };
    let digits = whole + fraction;
    let k = leading_zero_count(digits);
    let significant = digits.subrange(k, digits.len() as int);
    let point = whole.len() - k + exponent;
    significant.len() == 0 || point < 309 || (point == 309 && lex_less(significant, f64_overflow_digits()))
}

/// Whether `str::parse::<f64>` succeeds with a finite value.
pub open spec fn f64_text_is_finite(s: Seq<char>) -> bool {
    let body = if s.len() > 0 && (s[0] == '-' || s[0] == '+') { s.drop_first() } else { s };
    decimal_float_grammar(body) && decimal_below_overflow(body)
}

/// Position of the first `e`/`E` in `s[from..to]`, or `to`.
pub fn find_exponent_marker(s: &[char], from: usize, to: usize) -> (r: usize)
    requires
        from <= to <= s@.len(),
    ensures
        r == from + first_exponent_marker(s@.subrange(from as int, to as int)),
{
    let ghost sub = s@.subrange(from as int, to as int);
    let mut i = from;
    while i < to
        invariant
            from <= i <= to <= s@.len(),
            sub == s@.subrange(from as int, to as int),
            forall|j: int| from <= j < i ==> !is_exponent_marker(#[trigger] s@[j]),
        ensures
            i == to || is_exponent_marker(s@[i as int]),
        decreases to - i,
    {
        if s[i] == 'e' || s[i] == 'E' {
            break;
        }
        i = i + 1;
    }
    proof {
        lemma_first_exponent_marker(sub);
        let r = first_exponent_marker(sub);
        if r < i - from {
            assert(sub[r] == s@[from + r]);
        }
        if i - from < r {
            assert(sub[i - from] == s@[i as int]);
        }
    }
    i
}

/// Position of the first `c` in `s[from..to]`, or `to`.
pub fn find_char(s: &[char], from: usize, to: usize, c: char) -> (r: usize)
    requires
        from <= to <= s@.len(),
    ensures
        r == from + first_index_of(s@.subrange(from as int, to as int), c),
{
    let ghost sub = s@.subrange(from as int, to as int);
    let mut i = from;
    while i < to
        invariant
            from <= i <= to <= s@.len(),
            sub == s@.subrange(from as int, to as int),
            forall|j: int| from <= j < i ==> #[trigger] s@[j] != c,
        ensures
            i == to || s@[i as int] == c,
        decreases to - i,
    {
        if s[i] == c {
            break;
        }
        i = i + 1;
    }
    proof {
        lemma_first_index_of(sub, c);
        let r = first_index_of(sub, c);
        if r < i - from {
            assert(sub[r] == s@[from + r]);
        }
        if i - from < r {
            assert(sub[i - from] == s@[i as int]);
        }
    }
    i
}

/// Whether every character of `s[from..to]` is a decimal digit.
pub fn all_digits_in(s: &[char], from: usize, to: usize) -> (result: bool)
    requires
        from <= to <= s@.len(),
    ensures
        result == all_digits(s@.subrange(from as int, to as int)),
{
    let ghost sub = s@.subrange(from as int, to as int);
    let mut i = from;
    while i < to
        invariant
            from <= i <= to <= s@.len(),
            sub == s@.subrange(from as int, to as int),
            forall|j: int| from <= j < i ==> is_digit(#[trigger] s@[j]),
        decreases to - i,
    {
        if !('0' <= s[i] && s[i] <= '9') {
            proof {
                assert(sub[i - from] == s@[i as int]);
            }
            return false;
        }
        i = i + 1;
    }
    proof {
        assert forall|j: int| 0 <= j < sub.len() implies is_digit(#[trigger] sub[j]) by {
            assert(sub[j] == s@[from + j]);
        }
    }
    true
}

/// The saturation bound used for decimal exponents: 2^70.
pub open spec fn exponent_bound() -> int {
    0x40_0000_0000_0000_0000
}

/// An optionally signed digit run, clamped to `[-2^70, 2^70]`.
pub fn clamped_exponent(s: &[char], from: usize, to: usize) -> (result: Option<i128>)
    requires
        from <= to <= s@.len(),
    ensures
        result is Some == signed_digits_value(s@.subrange(from as int, to as int)) is Some,
        result matches Some(v) ==> ({
            let x = signed_digits_value(s@.subrange(from as int, to as int))->0;
            &&& (-exponent_bound() <= x <= exponent_bound() ==> v == x)
            &&& (x > exponent_bound() ==> v == exponent_bound())
            &&& (x < -exponent_bound() ==> v == -exponent_bound())
        }),
{
    let ghost sub = s@.subrange(from as int, to as int);
    if from == to {
        return None;
    }
    let negative = s[from] == '-';
    let start = if s[from] == '-' || s[from] == '+' { from + 1 } else { from };
    let ghost body = if sub[0] == '-' || sub[0] == '+' { sub.drop_first() } else { sub };
    proof {
        assert(sub[0] == s@[from as int]);
        assert(body =~= s@.subrange(start as int, to as int));
    }
    if start == to || !all_digits_in(s, start, to) {
        return None;
    }
    let bound: u128 = 0x40_0000_0000_0000_0000;
    let mut magnitude: u128 = 0;
    let mut saturated = false;
    let mut i = start;
    while i < to
        invariant
            start <= i <= to <= s@.len(),
            bound == exponent_bound(),
            all_digits(s@.subrange(start as int, to as int)),
            !saturated ==> magnitude == digits_value(s@.subrange(start as int, i as int)),
            !saturated ==> magnitude <= bound,
            saturated ==> digits_value(s@.subrange(start as int, i as int)) > bound,
        decreases to - i,
    {
        proof {
            lemma_digits_value_step(s@, start as int, i as int);
            assert(s@.subrange(start as int, to as int)[i - start] == s@[i as int]);
            lemma_digits_value_nonneg(s@.subrange(start as int, i as int));
        }
        let d: u128 = (s[i] as u32 - '0' as u32) as u128;
        if !saturated {
            magnitude = magnitude * 10 + d;
            if magnitude > bound {
                saturated = true;
            }
        }
        i = i + 1;
    }
    let value: i128 = if saturated { bound as i128 } else { magnitude as i128 };
    if negative {
        Some(-value)
    } else {
        Some(value)
    }
}

/// `lex_less(a[from..], b)`.
pub fn lex_less_from(a: &[char], from: usize, b: &[char]) -> (result: bool)
    requires
        from <= a@.len(),
    ensures
        result == lex_less(a@.subrange(from as int, a@.len() as int), b@),
{
    let mut i: usize = 0;
    proof {
        assert(b@.subrange(0, b@.len() as int) =~= b@);
    }
    let alen = a.len();
    while from + i < alen && i < b.len()
        invariant
            alen == a@.len(),
            from <= a@.len(),
            from + i <= a@.len(),
            i <= b@.len(),
            lex_less(a@.subrange(from as int, a@.len() as int), b@)
                == lex_less(a@.subrange(from + i, a@.len() as int), b@.subrange(i as int, b@.len() as int)),
        decreases b@.len() - i,
    {
        let x = a[from + i];
        let y = b[i];
        let ghost left = a@.subrange(from + i, a@.len() as int);
        let ghost right = b@.subrange(i as int, b@.len() as int);
        proof {
            assert(left[0] == x);
            assert(right[0] == y);
        }
        if x != y {
            return x < y;
        }
        proof {
            assert(left.drop_first() =~= a@.subrange(from + i + 1, a@.len() as int));
            assert(right.drop_first() =~= b@.subrange(i + 1, b@.len() as int));
        }
        i = i + 1;
    }
    proof {
        let left = a@.subrange(from + i, a@.len() as int);
        let right = b@.subrange(i as int, b@.len() as int);
        assert(left.len() == 0 || right.len() == 0);
    }
    from + i == a.len() && i < b.len()
}

/// `leading_zero_count(s[from..])`.
pub fn count_leading_zeros(s: &[char]) -> (k: usize)
    ensures
        k == leading_zero_count(s@),
        k <= s@.len(),
{
    let mut i: usize = 0;
    proof {
        assert(s@.subrange(0, s@.len() as int) =~= s@);
    }
    while i < s.len() && s[i] == '0'
        invariant
            i <= s@.len(),
            leading_zero_count(s@) == i + leading_zero_count(s@.subrange(i as int, s@.len() as int)),
        decreases s@.len() - i,
    {
        proof {
            let rest = s@.subrange(i as int, s@.len() as int);
            assert(rest[0] == s@[i as int]);
            assert(rest.drop_first() =~= s@.subrange(i + 1, s@.len() as int));
        }
        i = i + 1;
    }
    proof {
        let rest = s@.subrange(i as int, s@.len() as int);
        if i < s@.len() {
            assert(rest[0] == s@[i as int]);
        }
    }
    i
}

/// The characters of `s[a..b]` followed by those of `s[c..d]`.
pub fn concat_ranges(s: &[char], a: usize, b: usize, c: usize, d: usize) -> (out: Vec<char>)
    requires
        a <= b <= s@.len(),
        c <= d <= s@.len(),
    ensures
        out@ == s@.subrange(a as int, b as int) + s@.subrange(c as int, d as int),
{
    let mut out: Vec<char> = Vec::new();
    let mut i = a;
    while i < b
        invariant
            a <= i <= b <= s@.len(),
            out@ == s@.subrange(a as int, i as int),
        decreases b - i,
    {
        out.push(s[i]);
        proof {
            assert(s@.subrange(a as int, i + 1) =~= s@.subrange(a as int, i as int).push(s@[i as int]));
        }
        i = i + 1;
    }
    let mut i = c;
    while i < d
        invariant
            c <= i <= d <= s@.len(),
            a <= b <= s@.len(),
            out@ == s@.subrange(a as int, b as int) + s@.subrange(c as int, i as int),
        decreases d - i,
    {
        out.push(s[i]);
        proof {
            assert(s@.subrange(c as int, i + 1) =~= s@.subrange(c as int, i as int).push(s@[i as int]));
        }
        i = i + 1;
    }
    out
}

/// Whether `str::parse::<f64>` on this text gives a finite value.
#[verifier::rlimit(40)]
pub fn f64_text_finite(s: &[char]) -> (finite: bool)
    ensures
        finite == f64_text_is_finite(s@),
{
    let n = s.len();
    let start: usize = if n > 0 && (s[0] == '-' || s[0] == '+') { 1 } else { 0 };
    let ghost body = if s@.len() > 0 && (s@[0] == '-' || s@[0] == '+') { s@.drop_first() } else { s@ };
    proof {
        assert(body =~= s@.subrange(start as int, n as int));
    }
    let e = find_exponent_marker(s, start, n);
    proof {
        lemma_first_exponent_marker(body);
    }
    let d = find_char(s, start, e, '.');
    let ghost mantissa = body.subrange(0, e - start);
    proof {
        assert(mantissa =~= s@.subrange(start as int, e as int));
        lemma_first_index_of(mantissa, '.');
    }
    let frac_start = if d < e { d + 1 } else { e };
    let ghost split = float_split(body);
    proof {
        assert(split.0 =~= s@.subrange(start as int, d as int));
        assert(split.1 =~= s@.subrange(frac_start as int, e as int));
        assert(split.2 == e - start);
    }
    if !all_digits_in(s, start, d) || !all_digits_in(s, frac_start, e) {
        return false;
    }
    if (d - start) + (e - frac_start) == 0 {
        return false;
    }
    let exponent: i128 = if e == n {
        0
    } else {
        proof {
            assert(body.subrange(e - start + 1, body.len() as int) =~= s@.subrange(e + 1, n as int));
        }
        match clamped_exponent(s, e + 1, n) {
            None => {
                return false;
            },
            Some(v) => v,
        }
    };
    proof {
        assert(decimal_float_grammar(body));
    }
    let digits = concat_ranges(s, start, d, frac_start, e);
    proof {
        assert(digits@ =~= split.0 + split.1);
    }
    let k = count_leading_zeros(&digits);
    if k == digits.len() {
        proof {
            assert(digits@.subrange(k as int, digits@.len() as int).len() == 0);
        }
        return true;
    }
    let point: i128 = (d - start) as i128 - k as i128 + exponent;
    proof {
        let x = if e == n { 0 } else { signed_digits_value(body.subrange(e - start + 1, body.len() as int))->0 };
        let exact = (d - start) - k + x;
        assert(d - start <= 0xffff_ffff_ffff_ffff);
        assert(k <= 0xffff_ffff_ffff_ffff);
        if x > exponent_bound() {
            assert(exact > 309 && point > 309);
        } else if x < -exponent_bound() {
            assert(exact < 309 && point < 309);
        } else {
            assert(exact == point);
        }
    }
    if point < 309 {
        return true;
    }
    if point > 309 {
        return false;
    }
    let threshold = crate::text::chars_of("179769313486231580793728971405303415079934132710037826936173778980444968292764750946649017977587207096330286416692887910946555547851940402630657488671505820681908902000708383676273854845817711531764475730270069855571366959622842914819860834936475292719074168444365510704342711559699508093042880177904174497792");
    lex_less_from(&digits, k, &threshold)
}

} // verus!
