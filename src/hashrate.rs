//! The unit-suffixed number format that the pool uses for hash rates
//! (`"6.2M"`, `"340M"`, `"0"`), decoded into exact decimals.

use vstd::prelude::*;
use vstd::arithmetic::power::*;
use vstd::string::*;

use crate::error::DecodeError;

verus! {

/// A non-negative decimal number: the integer spelt by `digits`
/// (most significant first, each below ten) divided by `10^scale`.
#[derive(Debug, Clone)]
pub struct Decimal {
    pub digits: Vec<u8>,
    pub scale: usize,
}

impl Decimal {
    /// Every digit is below ten.
    pub open spec fn wf(&self) -> bool {
        forall|i: int| 0 <= i < self.digits@.len() ==> #[trigger] self.digits@[i] < 10
    }
}

impl View for Decimal {
    type V = (Seq<u8>, nat);

    open spec fn view(&self) -> (Seq<u8>, nat) {
        (self.digits@, self.scale as nat)
    }
}

/// The characters that Unicode gives the White_Space property.
pub open spec fn is_ws(c: char) -> bool {
    let u = c as u32;
    (0x9 <= u && u <= 0xd) || u == 0x20 || u == 0x85 || u == 0xa0 || u == 0x1680 || (0x2000 <= u
        && u <= 0x200a) || u == 0x2028 || u == 0x2029 || u == 0x202f || u == 0x205f || u == 0x3000
}

pub open spec fn trim_front(s: Seq<char>) -> Seq<char>
    decreases s.len(),
{
    if s.len() > 0 && is_ws(s[0]) {
        trim_front(s.drop_first())
    } else {
        s
    }
}

pub open spec fn trim_back(s: Seq<char>) -> Seq<char>
    decreases s.len(),
{
    if s.len() > 0 && is_ws(s.last()) {
        trim_back(s.drop_last())
    } else {
        s
    }
}

/// `s` without its leading and trailing white space.
pub open spec fn trimmed(s: Seq<char>) -> Seq<char> {
    trim_back(trim_front(s))
}

pub open spec fn is_digit(c: char) -> bool {
    '0' <= c && c <= '9'
}

pub open spec fn digit_of(c: char) -> u8 {
    (c as u32 - '0' as u32) as u8
}

/// The digits of `t`, in order, with every other character left out.
pub open spec fn sig_digits(t: Seq<char>) -> Seq<u8>
    decreases t.len(),
{
    if t.len() == 0 {
        seq![]
    } else if is_digit(t.last()) {
        sig_digits(t.drop_last()).push(digit_of(t.last()))
    } else {
        sig_digits(t.drop_last())
    }
}

/// How many decimal points `t` holds.
pub open spec fn point_count(t: Seq<char>) -> nat
    decreases t.len(),
{
    if t.len() == 0 {
        0
    } else if t.last() == '.' {
        point_count(t.drop_last()) + 1
    } else {
        point_count(t.drop_last())
    }
}

/// How many characters follow the decimal point of `t` (none without one).
pub open spec fn frac_len(t: Seq<char>) -> nat
    decreases t.len(),
{
    if t.len() == 0 {
        0
    } else if point_count(t.drop_last()) > 0 {
        frac_len(t.drop_last()) + 1
    } else {
        0
    }
}

/// A plain decimal literal: digits with at most one decimal point,
/// and at least one digit (`"12"`, `"6.2"`, `"5."`, `".5"`).
pub open spec fn is_decimal(t: Seq<char>) -> bool {
    &&& forall|i: int| 0 <= i < t.len() ==> is_digit(#[trigger] t[i]) || t[i] == '.'
    &&& point_count(t) <= 1
    &&& sig_digits(t).len() >= 1
}

/// The power of ten that a unit letter stands for, in either case.
pub open spec fn unit_power(c: char) -> Option<nat> {
    if c == 'K' || c == 'k' {
        Some(3)
    } else if c == 'M' || c == 'm' {
        Some(6)
    } else if c == 'G' || c == 'g' {
        Some(9)
    } else if c == 'T' || c == 't' {
        Some(12)
    } else if c == 'P' || c == 'p' {
        Some(15)
    } else if c == 'E' || c == 'e' {
        Some(18)
    } else {
        None
    }
}

pub open spec fn zeros(n: nat) -> Seq<u8> {
    Seq::new(n, |i: int| 0u8)
}

/// The decimal literal `t` multiplied by `10^k`, as digits and scale.
pub open spec fn scaled(t: Seq<char>, k: int) -> (Seq<u8>, nat) {
    if k >= frac_len(t) {
        (sig_digits(t) + zeros((k - frac_len(t)) as nat), 0)
    } else {
        (sig_digits(t), (frac_len(t) - k) as nat)
    }
}

/// An exponent mark.
pub open spec fn is_exp_mark(c: char) -> bool {
    c == 'e' || c == 'E'
}

/// `t` without a leading plus sign, if it has one.
pub open spec fn unsigned_text(t: Seq<char>) -> Seq<char> {
    if t.len() > 0 && t[0] == '+' {
        t.drop_first()
    } else {
        t
    }
}

/// `i` is the index of the first exponent mark of `u`, or its length
/// where it has none.
pub open spec fn is_exp_pos(u: Seq<char>, i: int) -> bool {
    &&& 0 <= i <= u.len()
    &&& i == u.len() || is_exp_mark(u[i])
    &&& forall|j: int| 0 <= j < i ==> !is_exp_mark(#[trigger] u[j])
}

pub open spec fn exp_pos(u: Seq<char>) -> int {
    choose|i: int| is_exp_pos(u, i)
}

/// The part of a numeric text before its exponent mark.
pub open spec fn mantissa(num: Seq<char>) -> Seq<char> {
    unsigned_text(num).take(exp_pos(unsigned_text(num)))
}

pub open spec fn has_exp(num: Seq<char>) -> bool {
    exp_pos(unsigned_text(num)) < unsigned_text(num).len()
}

/// The part of a numeric text after its exponent mark.
pub open spec fn exp_part(num: Seq<char>) -> Seq<char> {
    unsigned_text(num).skip(exp_pos(unsigned_text(num)) + 1)
}

pub open spec fn exp_negative(x: Seq<char>) -> bool {
    x.len() > 0 && x[0] == '-'
}

/// An exponent's digits, without its sign.
pub open spec fn exp_digits(x: Seq<char>) -> Seq<char> {
    if x.len() > 0 && (x[0] == '+' || x[0] == '-') {
        x.drop_first()
    } else {
        x
    }
}

pub open spec fn all_digits(d: Seq<char>) -> bool {
    d.len() >= 1 && forall|i: int| 0 <= i < d.len() ==> is_digit(#[trigger] d[i])
}

pub open spec fn exp_magnitude(x: Seq<char>) -> nat {
    digits_value(sig_digits(exp_digits(x)))
}

/// The power of ten that a numeric text's exponent stands for.
pub open spec fn exponent_of(num: Seq<char>) -> int {
    if !has_exp(num) {
        0
    } else if exp_negative(exp_part(num)) {
        -exp_magnitude(exp_part(num))
    } else {
        exp_magnitude(exp_part(num)) as int
    }
}

/// The largest exponent magnitude accepted, beyond the range of a double.
pub const MAX_EXPONENT: usize = 1000;

/// A numeric literal: an optional plus sign, a plain decimal literal, and
/// optionally an exponent mark with an optionally signed integer of at most
/// `MAX_EXPONENT`; with an exponent, the scale it gives must fit a `usize`.
pub open spec fn is_literal(num: Seq<char>) -> bool {
    &&& exists|i: int| is_exp_pos(unsigned_text(num), i)
    &&& is_decimal(mantissa(num))
    &&& has_exp(num) ==> {
        &&& all_digits(exp_digits(exp_part(num)))
        &&& exp_magnitude(exp_part(num)) <= MAX_EXPONENT
        &&& frac_len(mantissa(num)) + MAX_EXPONENT <= usize::MAX
    }
}

/// What a hash-rate text decodes to: its digits and scale, or the
/// numeric part that is not a decimal literal.
pub open spec fn hashrate_of(s: Seq<char>) -> Result<(Seq<u8>, nat), Seq<char>> {
    let t = trimmed(s);
    if t.len() == 0 || t == seq!['0'] {
        Ok((seq![0u8], 0))
    } else {
        let num = if unit_power(t.last()) is Some {
            t.drop_last()
        } else {
            t
        };
        let k: nat = match unit_power(t.last()) {
            Some(k) => k,
            None => 0,
        };
        if is_literal(num) {
            Ok(scaled(mantissa(num), k + exponent_of(num)))
        } else {
            Err(num)
        }
    }
}

/// The integer that a sequence of decimal digits spells.
pub open spec fn digits_value(d: Seq<u8>) -> nat
    decreases d.len(),
{
    if d.len() == 0 {
        0
    } else {
        digits_value(d.drop_last()) * 10 + d.last() as nat
    }
}

/// Relies on str::trim: the slice without leading and trailing
/// characters of the Unicode White_Space property.
#[verifier::external_body]
fn trim(s: &str) -> (r: &str)
    ensures
        r@ == trimmed(s@),
{
    s.trim()
}

/// Reads a plain decimal literal into its digits and the number of
/// digits after its point; `None` where `t` is not one.
pub fn parse_decimal(t: &str) -> (r: Option<(Vec<u8>, usize)>)
    ensures
        r is Some <==> is_decimal(t@),
        r matches Some((d, f)) ==> d@ == sig_digits(t@) && f as nat == frac_len(t@),
        r matches Some((d, f)) ==> forall|i: int| 0 <= i < d@.len() ==> #[trigger] d@[i] < 10,
{
    let n = t.unicode_len();
    let mut digits: Vec<u8> = Vec::new();
    let mut points: usize = 0;
    let mut frac: usize = 0;
    let mut i: usize = 0;
    while i < n
        invariant
            n == t@.len(),
            i <= n,
            digits@ == sig_digits(t@.take(i as int)),
            points as nat == point_count(t@.take(i as int)),
            points <= 1,
            frac as nat == frac_len(t@.take(i as int)),
            frac <= i,
            forall|j: int| 0 <= j < i ==> is_digit(#[trigger] t@[j]) || t@[j] == '.',
            forall|j: int| 0 <= j < digits@.len() ==> #[trigger] digits@[j] < 10,
        decreases n - i,
    {
        let c = t.get_char(i);
        assert(t@.take(i + 1).drop_last() == t@.take(i as int));
        if '0' <= c && c <= '9' {
            digits.push((c as u32 - '0' as u32) as u8);
            if points > 0 {
                frac = frac + 1;
            }
        } else if c == '.' {
            if points > 0 {
                assert(point_count(t@.take(i + 1)) == 2);
                proof {
                    lemma_point_count_prefix(t@, i as int + 1, t@.len() as int);
                    assert(t@.take(t@.len() as int) == t@);
                }
                return None;
            }
            points = 1;
        } else {
            assert(!(is_digit(t@[i as int]) || t@[i as int] == '.'));
            return None;
        }
        i = i + 1;
    }
    assert(t@.take(n as int) == t@);
    if digits.len() == 0 {
        return None;
    }
    Some((digits, frac))
}

/// A prefix holds no more decimal points than the whole.
proof fn lemma_point_count_prefix(t: Seq<char>, i: int, j: int)
    requires
        0 <= i <= j <= t.len(),
    ensures
        point_count(t.take(i)) <= point_count(t.take(j)),
    decreases j - i,
{
    if i < j {
        lemma_point_count_prefix(t, i, j - 1);
        assert(t.take(j).drop_last() == t.take(j - 1));
    }
}

/// Zero, as one zero digit.
fn zero() -> (r: Decimal)
    ensures
        r@ == (seq![0u8], 0nat),
{
    let digits = vec![0u8];
    assert(digits@ == seq![0u8]);
    Decimal { digits, scale: 0 }
}

/// The power of ten of a unit letter, `None` for any other character.
fn unit_power_of(c: char) -> (r: Option<usize>)
    ensures
        r is None <==> unit_power(c) is None,
        r matches Some(k) ==> unit_power(c) == Some(k as nat),
{
    if c == 'K' || c == 'k' {
        Some(3)
    } else if c == 'M' || c == 'm' {
        Some(6)
    } else if c == 'G' || c == 'g' {
        Some(9)
    } else if c == 'T' || c == 't' {
        Some(12)
    } else if c == 'P' || c == 'p' {
        Some(15)
    } else if c == 'E' || c == 'e' {
        Some(18)
    } else {
        None
    }
}

/// Decodes a hash-rate text such as `"6.2M"` into hashes per second.
///
/// Surrounding white space is ignored; an empty text and `"0"` are zero.
/// A final unit letter (K, M, G, T, P, E, in either case) multiplies by
/// `10^3` up to `10^18`; what precedes it must be a numeric literal (an
/// optional `+`, digits with at most one point, and optionally an exponent
/// such as `e5` or `E-3` of magnitude at most `MAX_EXPONENT`), else the
/// error carries that numeric part. A minus sign is refused: rates are
/// never negative.
pub fn decode_hashrate(s: &str) -> (r: Result<Decimal, DecodeError>)
    ensures
        r matches Ok(h) ==> h.wf(),
        match r {
            Ok(h) => hashrate_of(s@) == Ok::<(Seq<u8>, nat), Seq<char>>(h@),
            Err(e) => e matches DecodeError::InvalidNumber(text) && hashrate_of(s@) == Err::<
                (Seq<u8>, nat),
                Seq<char>,
            >(text@),
        },
{
    let t = trim(s);
    let n = t.unicode_len();
    if n == 0 {
        return Ok(zero());
    }
    if n == 1 && t.get_char(0) == '0' {
        assert(t@ == seq!['0']);
        return Ok(zero());
    }
    assert(t@ != seq!['0']);
    let last = t.get_char(n - 1);
    let unit = unit_power_of(last);
    let num: &str;
    let k: usize;
    match unit {
        Some(p) => {
            num = t.substring_char(0, n - 1);
            k = p;
        },
        None => {
            num = t;
            k = 0;
        },
    }
    assert(num@ == (if unit_power(t@.last()) is Some {
        t@.drop_last()
    } else {
        t@
    }));
    let nn = num.unicode_len();
    let u: &str = if nn > 0 && num.get_char(0) == '+' {
        num.substring_char(1, nn)
    } else {
        num
    };
    assert(u@ == unsigned_text(num@));
    let m = u.unicode_len();
    let mut i: usize = 0;
    let mut found = false;
    while i < m && !found
        invariant
            m == u@.len(),
            i <= m,
            forall|j: int| 0 <= j < i ==> !is_exp_mark(#[trigger] u@[j]),
            found ==> i < m && is_exp_mark(u@[i as int]),
        decreases m - i + (if found {
            0int
        } else {
            1int
        }),
    {
        let c = u.get_char(i);
        if c == 'e' || c == 'E' {
            found = true;
        } else {
            i = i + 1;
        }
    }
    assert(is_exp_pos(u@, i as int));
    proof {
        lemma_exp_pos_unique(u@, i as int);
    }
    let mant = u.substring_char(0, i);
    let bad = DecodeError::InvalidNumber(num.to_owned());
    let (digits, frac) = match parse_decimal(mant) {
        None => return Err(bad),
        Some(p) => p,
    };
    if !found {
        assert(exponent_of(num@) == 0);
        return Ok(shift_up(digits, frac, k));
    }
    let x = u.substring_char(i + 1, m);
    assert(x@ == exp_part(num@));
    let (neg, v) = match parse_exponent(x) {
        None => return Err(bad),
        Some(p) => p,
    };
    if frac > usize::MAX - MAX_EXPONENT {
        return Err(bad);
    }
    if !neg {
        Ok(shift_up(digits, frac, k + v))
    } else if v <= k {
        Ok(shift_up(digits, frac, k - v))
    } else {
        Ok(Decimal { digits, scale: frac + (v - k) })
    }
}

/// The power of ten that a unit suffix stands for: none for an empty one.
pub open spec fn suffix_power(suffix: Seq<char>) -> nat {
    if suffix.len() == 0 {
        0
    } else {
        match unit_power(suffix[0]) {
            Some(k) => k,
            None => 0,
        }
    }
}

/// `h`, read as `digits / 10^scale`, equals `num * 10^up / 10^down`.
pub open spec fn equals_scaled(h: (Seq<u8>, nat), num: nat, up: nat, down: nat) -> bool {
    digits_value(h.0) * pow(10, down) == num * pow(10, up) * pow(10, h.1)
}

/// Appending `m` zero digits multiplies by `10^m`.
pub proof fn lemma_append_zeros(d: Seq<u8>, m: nat)
    ensures
        digits_value(d + zeros(m)) == digits_value(d) * pow(10, m),
    decreases m,
{
    if m == 0 {
        assert(d + zeros(0) == d);
        lemma_pow0(10);
    } else {
        lemma_append_zeros(d, (m - 1) as nat);
        assert((d + zeros(m)).drop_last() == d + zeros((m - 1) as nat));
        assert((d + zeros(m)).last() == 0u8);
        assert(digits_value(d + zeros(m)) == digits_value(d + zeros((m - 1) as nat)) * 10);
        let v = digits_value(d);
        let p = pow(10, (m - 1) as nat);
        lemma_pow_adds(10, (m - 1) as nat, 1);
        lemma_pow1(10);
        assert(v * p * 10 == v * (10 * p)) by (nonlinear_arith);
    }
}

/// A text without white space at either end is its own trimmed form.
pub proof fn lemma_trim_noop(s: Seq<char>)
    requires
        s.len() > 0,
        !is_ws(s[0]),
        !is_ws(s.last()),
    ensures
        trimmed(s) == s,
{
}

/// For every plain decimal literal `n` and a suffix that is empty or one
/// unit letter in either case, decoding `n` followed by the suffix gives
/// the value of `n` times the suffix's power of ten.
pub proof fn lemma_unit_suffix_scales(n: Seq<char>, suffix: Seq<char>)
    requires
        is_decimal(n),
        suffix.len() == 0 || (suffix.len() == 1 && unit_power(suffix[0]) is Some),
    ensures
        hashrate_of(n + suffix) is Ok,
        equals_scaled(
            hashrate_of(n + suffix)->Ok_0,
            digits_value(sig_digits(n)),
            suffix_power(suffix),
            frac_len(n),
        ),
{
    let t = n + suffix;
    if n.len() == 0 {
        assert(sig_digits(n).len() == 0);
    }
    assert(t[0] == n[0]);
    assert(is_digit(n[0]) || n[0] == '.');
    if suffix.len() == 0 {
        assert(t == n);
        assert(is_digit(n[n.len() - 1]) || n[n.len() - 1] == '.');
    } else {
        assert(t.last() == suffix[0]);
    }
    lemma_trim_noop(t);
    lemma_plain_literal(n);
    let v = digits_value(sig_digits(n));
    let k = suffix_power(suffix);
    let f = frac_len(n);
    if t == seq!['0'] {
        assert(suffix.len() == 0 && n == seq!['0']);
        assert(n.drop_last() == Seq::<char>::empty());
        assert(is_digit(n.last()) && digit_of(n.last()) == 0u8);
        assert(sig_digits(n) == sig_digits(n.drop_last()).push(digit_of(n.last())));
        assert(Seq::<u8>::empty().push(0u8) =~= seq![0u8]);
        lemma_zero_value();
        assert(v == 0);
        assert(hashrate_of(t) == Ok::<(Seq<u8>, nat), Seq<char>>((seq![0u8], 0nat)));
        let pf = pow(10, f);
        let pk = pow(10, k);
        let p0 = pow(10, 0);
        assert(0 * pf == 0 && v * pk * p0 == 0) by (nonlinear_arith)
            requires
                v == 0,
        ;
        assert(equals_scaled((seq![0u8], 0nat), v, k, f));
    } else {
        if suffix.len() == 0 {
            assert(unit_power(t.last()) is None);
        } else {
            assert(t.drop_last() == n);
        }
        assert(hashrate_of(t) == Ok::<(Seq<u8>, nat), Seq<char>>(scaled(n, k as int)));
        assert(hashrate_of(t)->Ok_0 == scaled(n, k as int));
        lemma_pow_positive(10, f);
        if k >= f {
            let m = (k - f) as nat;
            lemma_append_zeros(sig_digits(n), m);
            lemma_pow_adds(10, m, f);
            assert(v * pow(10, m) * pow(10, f) == v * (pow(10, m) * pow(10, f)))
                by (nonlinear_arith);
            lemma_pow0(10);
            assert(digits_value(scaled(n, k as int).0) == v * pow(10, m));
            assert(pow(10, (m + f) as nat) == pow(10, k));
            let dv = digits_value(scaled(n, k as int).0);
            let pk = pow(10, k);
            assert(dv * pow(10, f) == v * pow(10, m) * pow(10, f));
            assert(dv * pow(10, f) == v * pk);
            let p0 = pow(10, 0);
            assert(v * pk * p0 == v * pk) by (nonlinear_arith)
                requires
                    p0 == 1,
            ;
            assert(equals_scaled(scaled(n, k as int), v, k, f));
        } else {
            let m = (f - k) as nat;
            lemma_pow_adds(10, k, m);
            assert(v * pow(10, k) * pow(10, m) == v * (pow(10, k) * pow(10, m)))
                by (nonlinear_arith);
            assert(pow(10, (k + m) as nat) == pow(10, f));
            assert(equals_scaled(scaled(n, k as int), v, k, f));
        }
    }
}

/// The character of a decimal digit.
pub open spec fn digit_char(d: nat) -> char {
    ((48 + d) as u8) as char
}

/// The one-character text of a decimal digit.
pub(crate) fn digit_text(d: u8) -> (r: &'static str)
    requires
        d < 10,
    ensures
        r@ == seq![digit_char(d as nat)],
        is_digit(digit_char(d as nat)),
        digit_of(digit_char(d as nat)) == d,
{
    proof {
        reveal_strlit("0");
        reveal_strlit("1");
        reveal_strlit("2");
        reveal_strlit("3");
        reveal_strlit("4");
        reveal_strlit("5");
        reveal_strlit("6");
        reveal_strlit("7");
        reveal_strlit("8");
        reveal_strlit("9");
    }
    if d == 0 {
        "0"
    } else if d == 1 {
        "1"
    } else if d == 2 {
        "2"
    } else if d == 3 {
        "3"
    } else if d == 4 {
        "4"
    } else if d == 5 {
        "5"
    } else if d == 6 {
        "6"
    } else if d == 7 {
        "7"
    } else if d == 8 {
        "8"
    } else {
        "9"
    }
}

/// `a` and `b`, each read as `digits / 10^scale`, are the same number.
pub open spec fn same_value(a: (Seq<u8>, nat), b: (Seq<u8>, nat)) -> bool {
    digits_value(a.0) * pow(10, b.1) == digits_value(b.0) * pow(10, a.1)
}

/// One zero digit, and no digit at all, are zero.
pub proof fn lemma_zero_value()
    ensures
        digits_value(Seq::<u8>::empty()) == 0,
        digits_value(seq![0u8]) == 0,
{
    assert(seq![0u8].drop_last() == Seq::<u8>::empty());
    assert(seq![0u8].last() == 0u8);
}

/// Leading zero digits do not change the value.
pub proof fn lemma_leading_zeros(p: nat, d: Seq<u8>)
    ensures
        digits_value(zeros(p) + d) == digits_value(d),
    decreases d.len(), p,
{
    if d.len() == 0 {
        assert(zeros(p) + d == zeros(p));
        if p > 0 {
            assert(zeros(p).drop_last() == zeros((p - 1) as nat) + d);
            lemma_leading_zeros((p - 1) as nat, d);
        }
    } else {
        assert((zeros(p) + d).drop_last() == zeros(p) + d.drop_last());
        assert((zeros(p) + d).last() == d.last());
        lemma_leading_zeros(p, d.drop_last());
    }
}

/// Formats a decimal value as a plain decimal literal, without a unit
/// letter: its digits, led by zeros where the scale asks for more digits
/// than there are, with a point before the last `scale` of them (`"6200000"`,
/// `".05"`, `"12.5"`). A value without digits is `"0"`. Decoding the text
/// gives the same number back.
#[verifier::rlimit(60)]
pub fn encode_hashrate(d: &Decimal) -> (r: String)
    requires
        d.wf(),
        d.digits@.len() + d.scale <= usize::MAX,
    ensures
        hashrate_of(r@) is Ok,
        same_value(hashrate_of(r@)->Ok_0, d@),
        d.digits@.len() == 0 ==> r@ == seq!['0'],
        d.digits@.len() > 0 ==> {
            &&& is_decimal(r@)
            &&& sig_digits(r@) == zeros(
                if d.scale > d.digits@.len() {
                    (d.scale - d.digits@.len()) as nat
                } else {
                    0nat
                },
            ) + d.digits@
            &&& point_count(r@) == (if d.scale > 0 {
                1nat
            } else {
                0nat
            })
            &&& frac_len(r@) == d.scale
        },
{
    let len = d.digits.len();
    let scale = d.scale;
    if len == 0 {
        let r = String::from_str("0");
        proof {
            reveal_strlit("0");
            lemma_zero_value();
            assert(r@ == seq!['0']);
            lemma_trim_noop(r@);
            assert(hashrate_of(r@) == Ok::<(Seq<u8>, nat), Seq<char>>((seq![0u8], 0nat)));
            assert(d.digits@ =~= Seq::<u8>::empty());
            let ps = pow(10, scale as nat);
            let p0 = pow(10, 0);
            assert(0 * ps == 0 * p0) by (nonlinear_arith);
            assert(same_value((seq![0u8], 0nat), d@));
        }
        return r;
    }
    let pad: usize = if scale > len {
        scale - len
    } else {
        0
    };
    let total: usize = pad + len;
    let start: usize = total - scale;
    let ghost ds = zeros(pad as nat) + d.digits@;
    let mut s = String::new();
    let mut i: usize = 0;
    while i < total
        invariant
            d.wf(),
            len == d.digits@.len(),
            total == pad + len,
            start == total - scale,
            ds == zeros(pad as nat) + d.digits@,
            i <= total,
            forall|j: int| 0 <= j < s@.len() ==> is_digit(#[trigger] s@[j]) || s@[j] == '.',
            sig_digits(s@) == ds.take(i as int),
            point_count(s@) == (if scale > 0 && i > start {
                1nat
            } else {
                0nat
            }),
            frac_len(s@) == (if scale > 0 && i > start {
                (i - start) as nat
            } else {
                0nat
            }),
            i > 0 ==> s@.len() > 0 && is_digit(s@.last()),
        decreases total - i,
    {
        if scale > 0 && i == start {
            let ghost before = s@;
            s.append(".");
            proof {
                reveal_strlit(".");
                assert(s@ == before.push('.'));
                assert(s@.drop_last() == before);
                assert(sig_digits(s@) == sig_digits(before));
                assert(point_count(s@) == point_count(before) + 1);
                assert(frac_len(s@) == 0);
            }
        }
        let x: u8 = if i < pad {
            0
        } else {
            d.digits[i - pad]
        };
        assert(x == ds[i as int]);
        let ghost before = s@;
        s.append(digit_text(x));
        proof {
            assert(s@ == before.push(digit_char(x as nat)));
            assert(s@.drop_last() == before);
            assert(ds.take(i + 1) == ds.take(i as int).push(x));
            assert(sig_digits(s@) == sig_digits(before).push(x));
            assert(point_count(s@) == point_count(before));
            if point_count(before) > 0 {
                assert(frac_len(s@) == frac_len(before) + 1);
            } else {
                assert(frac_len(s@) == 0);
            }
        }
        i = i + 1;
    }
    proof {
        assert(ds.take(total as int) == ds);
        let t = s@;
        assert(t.len() > 0);
        assert(is_digit(t[0]) || t[0] == '.');
        lemma_trim_noop(t);
        lemma_leading_zeros(pad as nat, d.digits@);
        assert(frac_len(t) == scale);
        if t == seq!['0'] {
            assert(t.drop_last() == Seq::<char>::empty());
            assert(point_count(Seq::<char>::empty()) == 0);
            assert(sig_digits(Seq::<char>::empty()) == Seq::<u8>::empty());
            assert(sig_digits(t) == sig_digits(t.drop_last()).push(digit_of(t.last())));
            assert(digit_of('0') == 0u8);
            assert(Seq::<u8>::empty().push(0u8) =~= seq![0u8]);
            assert(ds == seq![0u8]);
            lemma_zero_value();
            assert(scale == 0);
            lemma_pow0(10);
            assert(same_value(hashrate_of(t)->Ok_0, d@));
        } else {
            assert(unit_power(t.last()) is None);
            assert(is_decimal(t));
            lemma_plain_literal(t);
            if scale == 0 {
                assert(ds + zeros(0) == ds);
            }
            assert(hashrate_of(t) == Ok::<(Seq<u8>, nat), Seq<char>>((ds, scale as nat)));
            assert(same_value(hashrate_of(t)->Ok_0, d@));
        }
    }
    s
}

/// A digit followed by a unit letter decodes to that digit followed by
/// the letter's count of zeros.
pub proof fn lemma_digit_unit(a: char, u: char)
    requires
        is_digit(a),
        unit_power(u) is Some,
    ensures
        hashrate_of(seq![a, u]) == Ok::<(Seq<u8>, nat), Seq<char>>(
            (seq![digit_of(a)] + zeros(unit_power(u)->Some_0), 0nat),
        ),
{
    let t = seq![a, u];
    let num = seq![a];
    lemma_trim_noop(t);
    assert(t.drop_last() == num);
    assert(num.drop_last() == Seq::<char>::empty());
    assert(point_count(Seq::<char>::empty()) == 0);
    assert(sig_digits(Seq::<char>::empty()) == Seq::<u8>::empty());
    assert(point_count(num) == 0);
    assert(frac_len(num) == 0);
    assert(Seq::<u8>::empty().push(digit_of(a)) =~= seq![digit_of(a)]);
    assert(sig_digits(num) == seq![digit_of(a)]);
    assert(is_decimal(num));
    lemma_plain_literal(num);
}

/// A digit, a point, a digit and a unit letter decode to the two digits
/// followed by one zero fewer than the letter's count.
pub proof fn lemma_digit_point_digit_unit(a: char, b: char, u: char)
    requires
        is_digit(a),
        is_digit(b),
        unit_power(u) is Some,
    ensures
        hashrate_of(seq![a, '.', b, u]) == Ok::<(Seq<u8>, nat), Seq<char>>(
            (seq![digit_of(a), digit_of(b)] + zeros((unit_power(u)->Some_0 - 1) as nat), 0nat),
        ),
{
    let t = seq![a, '.', b, u];
    let num = seq![a, '.', b];
    let n2 = seq![a, '.'];
    let n1 = seq![a];
    lemma_trim_noop(t);
    assert(t.drop_last() == num);
    assert(num.drop_last() == n2);
    assert(n2.drop_last() == n1);
    assert(n1.drop_last() == Seq::<char>::empty());
    assert(point_count(Seq::<char>::empty()) == 0);
    assert(sig_digits(Seq::<char>::empty()) == Seq::<u8>::empty());
    assert(point_count(n1) == 0);
    assert(point_count(n2) == 1);
    assert(point_count(num) == 1);
    assert(frac_len(n2) == 0);
    assert(frac_len(num) == 1);
    assert(Seq::<u8>::empty().push(digit_of(a)) =~= seq![digit_of(a)]);
    assert(sig_digits(n1) == seq![digit_of(a)]);
    assert(n2.last() == '.');
    assert(sig_digits(n2) == sig_digits(n1));
    assert(seq![digit_of(a)].push(digit_of(b)) =~= seq![digit_of(a), digit_of(b)]);
    assert(sig_digits(num) == seq![digit_of(a), digit_of(b)]);
    assert forall|i: int| 0 <= i < num.len() implies is_digit(#[trigger] num[i]) || num[i] == '.' by {
    }
    assert(is_decimal(num));
    lemma_plain_literal(num);
}

/// The first exponent mark is unique.
proof fn lemma_exp_pos_unique(u: Seq<char>, i: int)
    requires
        is_exp_pos(u, i),
    ensures
        exp_pos(u) == i,
{
    let c = exp_pos(u);
    assert(is_exp_pos(u, c));
    if c < i {
        assert(!is_exp_mark(u[c]));
    } else if i < c {
        assert(!is_exp_mark(u[i]));
    }
}

/// A plain decimal literal is a numeric literal without sign or exponent.
pub proof fn lemma_plain_literal(t: Seq<char>)
    requires
        is_decimal(t),
    ensures
        is_literal(t),
        mantissa(t) == t,
        !has_exp(t),
        exponent_of(t) == 0,
{
    if t.len() > 0 {
        assert(is_digit(t[0]) || t[0] == '.');
    } else {
        assert(sig_digits(t).len() == 0);
    }
    assert(unsigned_text(t) == t);
    assert forall|j: int| 0 <= j < t.len() implies !is_exp_mark(#[trigger] t[j]) by {
        assert(is_digit(t[j]) || t[j] == '.');
    }
    assert(is_exp_pos(t, t.len() as int));
    lemma_exp_pos_unique(t, t.len() as int);
    assert(t.take(t.len() as int) == t);
}

/// Reads an exponent: an optional sign, then digits; `None` where it is
/// not one or its magnitude exceeds `MAX_EXPONENT`.
fn parse_exponent(x: &str) -> (r: Option<(bool, usize)>)
    ensures
        r is Some <==> all_digits(exp_digits(x@)) && exp_magnitude(x@) <= MAX_EXPONENT,
        r matches Some((neg, v)) ==> neg == exp_negative(x@) && v == exp_magnitude(x@),
{
    let n = x.unicode_len();
    let neg = n > 0 && x.get_char(0) == '-';
    let d: &str = if n > 0 && (x.get_char(0) == '+' || x.get_char(0) == '-') {
        x.substring_char(1, n)
    } else {
        x
    };
    assert(d@ == exp_digits(x@));
    let m = d.unicode_len();
    if m == 0 {
        return None;
    }
    let mut v: usize = 0;
    let mut i: usize = 0;
    while i < m
        invariant
            m == d@.len(),
            d@ == exp_digits(x@),
            i <= m,
            forall|j: int| 0 <= j < i ==> is_digit(#[trigger] d@[j]),
            v as nat == (if digits_value(sig_digits(d@.take(i as int))) > MAX_EXPONENT {
                (MAX_EXPONENT + 1) as nat
            } else {
                digits_value(sig_digits(d@.take(i as int)))
            }),
        decreases m - i,
    {
        let c = d.get_char(i);
        if !('0' <= c && c <= '9') {
            assert(!is_digit(d@[i as int]));
            assert(!all_digits(exp_digits(x@)));
            return None;
        }
        let ghost pre = d@.take(i as int);
        assert(d@.take(i + 1).drop_last() == pre);
        assert(sig_digits(d@.take(i + 1)) == sig_digits(pre).push(digit_of(c)));
        assert(sig_digits(pre).push(digit_of(c)).drop_last() == sig_digits(pre));
        let x10 = v * 10 + (c as u32 - '0' as u32) as usize;
        v = if x10 > MAX_EXPONENT {
            MAX_EXPONENT + 1
        } else {
            x10
        };
        i = i + 1;
    }
    assert(d@.take(m as int) == d@);
    if v > MAX_EXPONENT {
        return None;
    }
    Some((neg, v))
}

/// `digits`, holding the decimal literal of `frac` fractional digits,
/// multiplied by `10^up`.
fn shift_up(digits: Vec<u8>, frac: usize, up: usize) -> (r: Decimal)
    requires
        forall|x: int| 0 <= x < digits@.len() ==> #[trigger] digits@[x] < 10,
    ensures
        r.wf(),
        up >= frac ==> r@ == (digits@ + zeros((up - frac) as nat), 0nat),
        up < frac ==> r@ == (digits@, (frac - up) as nat),
{
    if up >= frac {
        let mut digits = digits;
        let ghost d0 = digits@;
        let mut j: usize = 0;
        while j < up - frac
            invariant
                j <= up - frac,
                digits@ == d0 + zeros(j as nat),
                forall|x: int| 0 <= x < d0.len() ==> #[trigger] d0[x] < 10,
            decreases up - frac - j,
        {
            digits.push(0u8);
            j = j + 1;
            assert(digits@ == d0 + zeros(j as nat));
        }
        assert forall|x: int| 0 <= x < digits@.len() implies #[trigger] digits@[x] < 10 by {
            if x >= d0.len() {
                assert(digits@[x] == zeros(j as nat)[x - d0.len()]);
            }
        }
        Decimal { digits, scale: 0 }
    } else {
        Decimal { digits, scale: frac - up }
    }
}

} // verus!
