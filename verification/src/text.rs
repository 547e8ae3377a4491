use vstd::prelude::*;

verus! {

// ---------------------------------------------------------------------------
// Decimal numerals, specified.
// ---------------------------------------------------------------------------

/// The numeral value of an ASCII decimal digit, or -1 for any other character.
pub open spec fn digit_of(c: char) -> int {
    if c == '0' {
        0
    } else if c == '1' {
        1
    } else if c == '2' {
        2
    } else if c == '3' {
        3
    } else if c == '4' {
        4
    } else if c == '5' {
        5
    } else if c == '6' {
        6
    } else if c == '7' {
        7
    } else if c == '8' {
        8
    } else if c == '9' {
        9
    } else {
        -1
    }
}

pub open spec fn is_digit(c: char) -> bool {
    digit_of(c) >= 0
}

pub open spec fn all_digits(s: Seq<char>) -> bool {
    forall|i: int| 0 <= i < s.len() ==> is_digit(s[i])
}

/// 10 to the power `n`.
pub open spec fn pow10(n: nat) -> nat
    decreases n,
{
    if n == 0 {
        1
    } else {
        10 * pow10((n - 1) as nat)
    }
}

/// The value of a digit string read as a decimal numeral (leading zeros
/// allowed; junk characters contribute their -1 marker and never arise under
/// `all_digits`).
pub open spec fn digits_val(s: Seq<char>) -> int
    decreases s.len(),
{
    if s.len() == 0 {
        0
    } else {
        digit_of(s[0]) * pow10((s.len() - 1) as nat) + digits_val(s.drop_first())
    }
}

/// The digit character of `n`, for `n < 10`.
pub open spec fn digit_char(n: nat) -> char {
    if n == 0 {
        '0'
    } else if n == 1 {
        '1'
    } else if n == 2 {
        '2'
    } else if n == 3 {
        '3'
    } else if n == 4 {
        '4'
    } else if n == 5 {
        '5'
    } else if n == 6 {
        '6'
    } else if n == 7 {
        '7'
    } else if n == 8 {
        '8'
    } else {
        '9'
    }
}

/// The canonical decimal numeral of `n`: no sign, no leading zeros.
pub open spec fn dec_digits(n: nat) -> Seq<char>
    decreases n,
{
    if n < 10 {
        seq![digit_char(n)]
    } else {
        dec_digits(n / 10).push(digit_char(n % 10))
    }
}

/// The canonical decimal text of a signed integer.
pub open spec fn int_text(i: int) -> Seq<char> {
    if i >= 0 {
        dec_digits(i as nat)
    } else {
        seq!['-'] + dec_digits((-i) as nat)
    }
}

/// Shape of an optionally-signed decimal numeral: an optional leading minus
/// followed by at least one digit (leading zeros allowed).
pub open spec fn int_shape(s: Seq<char>) -> bool {
    if s.len() > 0 && s[0] == '-' {
        s.len() >= 2 && all_digits(s.drop_first())
    } else {
        s.len() >= 1 && all_digits(s)
    }
}

/// The signed value of a text of `int_shape`.
pub open spec fn int_val(s: Seq<char>) -> int {
    if s.len() > 0 && s[0] == '-' {
        -digits_val(s.drop_first())
    } else {
        digits_val(s)
    }
}

/// The texts accepted by `parse_i64`: well-shaped and within the i64 range.
pub open spec fn is_i64_text(s: Seq<char>) -> bool {
    &&& int_shape(s)
    &&& i64::MIN <= int_val(s) <= i64::MAX
}

// ---------------------------------------------------------------------------
// Lemmas about decimal numerals.
// ---------------------------------------------------------------------------

pub proof fn lemma_pow10_mono(a: nat, b: nat)
    requires
        a <= b,
    ensures
        pow10(a) <= pow10(b),
    decreases b,
{
    if a < b {
        lemma_pow10_mono(a, (b - 1) as nat);
        assert(pow10(b) == 10 * pow10((b - 1) as nat));
    }
}

/// Appending a digit multiplies the value by ten and adds the digit.
pub proof fn lemma_digits_val_push(s: Seq<char>, c: char)
    ensures
        digits_val(s.push(c)) == digits_val(s) * 10 + digit_of(c),
    decreases s.len(),
{
    if s.len() == 0 {
        assert(s.push(c)[0] == c);
        assert(s.push(c).drop_first() =~= Seq::<char>::empty());
        assert(pow10(0) == 1);
        assert(digits_val(s.push(c)) == digit_of(c) * 1 + digits_val(s.push(c).drop_first()));
    } else {
        assert(s.push(c).drop_first() =~= s.drop_first().push(c));
        lemma_digits_val_push(s.drop_first(), c);
        let d0 = digit_of(s[0]);
        let p = pow10((s.len() - 1) as nat);
        assert(pow10(s.len() as nat) == 10 * p);
        assert(s.push(c)[0] == s[0]);
        assert(digits_val(s.push(c)) == d0 * (10 * p) + digits_val(s.drop_first()) * 10 + digit_of(
            c,
        ));
        assert(d0 * (10 * p) + digits_val(s.drop_first()) * 10 == (d0 * p + digits_val(
            s.drop_first(),
        )) * 10) by (nonlinear_arith);
    }
}

/// A digit string's value is non-negative and below ten to its length.
pub proof fn lemma_digits_val_bounds(s: Seq<char>)
    requires
        all_digits(s),
    ensures
        0 <= digits_val(s) < pow10(s.len() as nat),
    decreases s.len(),
{
    if s.len() > 0 {
        lemma_digits_val_bounds(s.drop_first());
        let d0 = digit_of(s[0]);
        let p = pow10((s.len() - 1) as nat);
        assert(p >= 1) by {
            lemma_pow10_mono(0, (s.len() - 1) as nat);
        }
        assert(0 <= d0 <= 9);
        assert(d0 * p <= 9 * p) by (nonlinear_arith)
            requires
                0 <= d0 <= 9,
                p >= 1,
        ;
        assert(d0 * p >= 0) by (nonlinear_arith)
            requires
                d0 >= 0,
                p >= 1,
        ;
        assert(pow10(s.len() as nat) == 10 * p);
    }
}

/// A digit string that does not start with '0' has a value of at least ten to
/// one less than its length.
pub proof fn lemma_digits_val_first_nonzero(s: Seq<char>)
    requires
        all_digits(s),
        s.len() >= 1,
        s[0] != '0',
    ensures
        digits_val(s) >= pow10((s.len() - 1) as nat),
{
    let d0 = digit_of(s[0]);
    let p = pow10((s.len() - 1) as nat);
    assert(d0 >= 1);
    lemma_digits_val_bounds(s.drop_first());
    assert(d0 * p >= p) by (nonlinear_arith)
        requires
            d0 >= 1,
            p >= 0,
    ;
}

/// Leading zeros do not change a numeral's value.
pub proof fn lemma_digits_val_leading_zeros(s: Seq<char>, k: int)
    requires
        0 <= k <= s.len(),
        forall|i: int| 0 <= i < k ==> s[i] == '0',
    ensures
        digits_val(s) == digits_val(s.subrange(k, s.len() as int)),
    decreases k,
{
    if k == 0 {
        assert(s.subrange(0, s.len() as int) =~= s);
    } else {
        assert(digits_val(s) == digits_val(s.drop_first()));
        assert(s.drop_first().subrange(k - 1, s.drop_first().len() as int) =~= s.subrange(
            k,
            s.len() as int,
        ));
        lemma_digits_val_leading_zeros(s.drop_first(), k - 1);
    }
}

/// The canonical numeral of `n` is made of digits, is non-empty, and reads
/// back as `n`.
pub proof fn lemma_dec_digits(n: nat)
    ensures
        all_digits(dec_digits(n)),
        dec_digits(n).len() >= 1,
        digits_val(dec_digits(n)) == n,
    decreases n,
{
    if n < 10 {
        assert(dec_digits(n) =~= seq![digit_char(n)]);
        assert(digit_of(digit_char(n)) == n);
        assert(digits_val(seq![digit_char(n)]) == n) by {
            assert(seq![digit_char(n)].drop_first() =~= Seq::<char>::empty());
            assert(pow10(0) == 1);
            assert(seq![digit_char(n)][0] == digit_char(n));
            assert(digits_val(seq![digit_char(n)]) == digit_of(digit_char(n)) * 1 + digits_val(
                seq![digit_char(n)].drop_first(),
            ));
        }
    } else {
        lemma_dec_digits(n / 10);
        lemma_digits_val_push(dec_digits(n / 10), digit_char(n % 10));
        assert(digit_of(digit_char(n % 10)) == n % 10);
        assert(digits_val(dec_digits(n)) == (n / 10) * 10 + n % 10);
        assert((n / 10) * 10 + n % 10 == n) by (nonlinear_arith);
        assert forall|i: int| 0 <= i < dec_digits(n).len() implies is_digit(
            dec_digits(n)[i],
        ) by {
            if i < dec_digits(n / 10).len() {
                assert(dec_digits(n)[i] == dec_digits(n / 10)[i]);
            } else {
                assert(dec_digits(n)[i] == digit_char(n % 10));
            }
        }
    }
}

/// The canonical text of any i64 value parses back to that value.
pub proof fn lemma_int_text_parses(v: int)
    requires
        i64::MIN <= v <= i64::MAX,
    ensures
        is_i64_text(int_text(v)),
        int_val(int_text(v)) == v,
{
    if v >= 0 {
        lemma_dec_digits(v as nat);
        assert(is_digit(int_text(v)[0]));
        assert(int_text(v)[0] != '-');
    } else {
        lemma_dec_digits((-v) as nat);
        let s = int_text(v);
        assert(s[0] == '-');
        assert(s.drop_first() =~= dec_digits((-v) as nat));
    }
}

// ---------------------------------------------------------------------------
// Executable rendering.
// ---------------------------------------------------------------------------

/// The one-character string of a decimal digit.
fn digit_str(d: u64) -> (r: &'static str)
    requires
        d < 10,
    ensures
        r@ =~= seq![digit_char(d as nat)],
{
    proof {
        reveal_strlit("0");
        reveal_strlit("1");
        reveal_strlit("2");
        reveal_strlit("3");
        reveal_strlit("4");
        reveal_strlit("5");
        reveal_strlit("6");
        reveal_strlit("7");
        reveal_strlit("8");
        reveal_strlit("9");
    }
    match d {
        0 => "0",
        1 => "1",
        2 => "2",
        3 => "3",
        4 => "4",
        5 => "5",
        6 => "6",
        7 => "7",
        8 => "8",
        _ => "9",
    }
}

/// The canonical decimal text of an unsigned integer.
pub fn u64_text(n: u64) -> (r: String)
    ensures
        r@ == dec_digits(n as nat),
    decreases n,
{
    if n < 10 {
        String::from_str(digit_str(n))
    } else {
        proof {
            assert(n / 10 < n) by (nonlinear_arith)
                requires
                    n >= 10,
            ;
        }
        let mut s = u64_text(n / 10);
        s.append(digit_str(n % 10));
        proof {
            assert(dec_digits((n / 10) as nat).push(digit_char((n % 10) as nat)) =~= dec_digits(
                (n / 10) as nat,
            ) + seq![digit_char((n % 10) as nat)]);
        }
        s
    }
}

/// The canonical decimal text of a signed integer.
pub fn i64_text(v: i64) -> (r: String)
    ensures
        r@ == int_text(v as int),
{
    if v >= 0 {
        u64_text(v as u64)
    } else {
        let m: u64 = (-(v as i128)) as u64;
        proof {
            reveal_strlit("-");
        }
        let mut s = String::from_str("-");
        let tail = u64_text(m);
        s.append(tail.as_str());
        proof {
            assert("-"@ =~= seq!['-']);
        }
        s
    }
}

// ---------------------------------------------------------------------------
// Executable parsing.
// ---------------------------------------------------------------------------

/// The numeral value of a digit character, if it is one.
fn digit_lookup(c: char) -> (r: Option<u64>)
    ensures
        r is Some <==> is_digit(c),
        r is Some ==> r->0 as int == digit_of(c) && r->0 < 10,
{
    match c {
        '0' => Some(0),
        '1' => Some(1),
        '2' => Some(2),
        '3' => Some(3),
        '4' => Some(4),
        '5' => Some(5),
        '6' => Some(6),
        '7' => Some(7),
        '8' => Some(8),
        '9' => Some(9),
        _ => None,
    }
}

/// Parses an optionally-signed decimal numeral into an i64.
///
/// Returns `Some` exactly on texts of `is_i64_text`: an optional minus, then
/// one or more digits (leading zeros allowed), whose value fits in an i64.
#[verifier::loop_isolation(false)]
pub fn parse_i64(s: &str) -> (r: Option<i64>)
    ensures
        r is Some <==> is_i64_text(s@),
        r is Some ==> r->0 as int == int_val(s@),
{
    let n = s.unicode_len();
    let neg = n > 0 && s.get_char(0) == '-';
    let start: usize = if neg {
        1
    } else {
        0
    };
    if start >= n {
        return None;
    }
    // Skip leading zeros of the digit part.
    let mut z = start;
    while z < n && s.get_char(z) == '0'
        invariant
            start <= z <= n,
            n == s@.len(),
            forall|i: int| start <= i < z ==> s@[i] == '0',
        decreases n - z,
    {
        z += 1;
    }
    proof {
        lemma_digits_val_leading_zeros(s@.subrange(start as int, n as int), z - start);
        assert(s@.subrange(start as int, n as int).subrange(
            z - start,
            (n - start) as int,
        ) =~= s@.subrange(z as int, n as int));
    }
    if z == n {
        // The digit part is all zeros (it is non-empty since start < n).
        proof {
            assert(s@.subrange(z as int, n as int) =~= Seq::<char>::empty());
            lemma_int_shape_holds(s@, neg, start as int);
        }
        return Some(0);
    }
    if n - z > 19 {
        // Too many significant digits: either a malformed text, or a value
        // of magnitude at least 10^19, which is outside the i64 range.
        proof {
            lemma_reject_long(s@, neg, start as int, z as int);
        }
        return None;
    }
    let mut acc: u64 = 0;
    let mut j = z;
    while j < n
        invariant
            z <= j <= n,
            n == s@.len(),
            n - z <= 19,
            z < n,
            s@[z as int] != '0',
            forall|i: int| z <= i < j ==> is_digit(s@[i]),
            acc as int == digits_val(s@.subrange(z as int, j as int)),
            (acc as int) < pow10((j - z) as nat),
        decreases n - j,
    {
        let c = s.get_char(j);
        let d = match digit_lookup(c) {
            Some(d) => d,
            None => {
                // A non-digit inside the digit part: malformed.
                proof {
                    lemma_shape_fails(s@, neg, start as int, j as int);
                }
                return None;
            },
        };
        proof {
            lemma_pow10_mono((j - z + 1) as nat, 19);
            lemma_pow10_19();
            assert((acc as int) * 10 + 9 < pow10((j - z + 1) as nat)) by (nonlinear_arith)
                requires
                    (acc as int) < pow10((j - z) as nat),
                    pow10((j - z + 1) as nat) == 10 * pow10((j - z) as nat),
            ;
            lemma_digits_val_push(s@.subrange(z as int, j as int), s@[j as int]);
            assert(s@.subrange(z as int, j + 1).drop_last() =~= s@.subrange(z as int, j as int));
            assert(s@.subrange(z as int, j + 1) =~= s@.subrange(z as int, j as int).push(
                s@[j as int],
            ));
        }
        acc = acc * 10 + d;
        j += 1;
    }
    proof {
        assert(s@.subrange(z as int, n as int) =~= s@.subrange(z as int, j as int));
        lemma_int_shape_holds(s@, neg, start as int);
    }
    if neg {
        if acc > 9223372036854775808u64 {
            return None;
        }
        if acc == 9223372036854775808u64 {
            return Some(i64::MIN);
        }
        Some(-(acc as i64))
    } else {
        if acc > 9223372036854775807u64 {
            return None;
        }
        Some(acc as i64)
    }
}

// ---------------------------------------------------------------------------
// Decimal fraction texts.
// ---------------------------------------------------------------------------

/// Whether position `k` splits `t` into a valid integer part and (when `k` is
/// inside `t`) a '.' followed by a valid fraction part.
pub open spec fn is_frac_split(t: Seq<char>, k: int) -> bool {
    if k == t.len() {
        t.len() >= 1 && all_digits(t)
    } else {
        &&& 0 <= k < t.len()
        &&& t[k] == '.'
        &&& k >= 1
        &&& all_digits(t.subrange(0, k))
        &&& t.len() - k - 1 >= 1
        &&& all_digits(t.subrange(k + 1, t.len() as int))
    }
}

/// One or more digits, optionally followed by '.' and one or more digits.
pub open spec fn float_body(t: Seq<char>) -> bool {
    exists|k: int| 0 <= k <= t.len() && is_frac_split(t, k)
}

/// The texts accepted as a floating-point rendering: an optional minus, one
/// or more digits, and an optional '.' followed by one or more digits.
pub open spec fn is_float_text(s: Seq<char>) -> bool {
    if s.len() > 0 && s[0] == '-' {
        float_body(s.drop_first())
    } else {
        float_body(s)
    }
}

/// Whether every character of `s` in `[a, b)` is a decimal digit.
#[verifier::loop_isolation(false)]
fn all_digits_range(s: &str, a: usize, b: usize) -> (r: bool)
    requires
        a <= b <= s@.len(),
    ensures
        r == forall|i: int| a <= i < b ==> is_digit(s@[i]),
{
    let mut j = a;
    while j < b
        invariant
            a <= j <= b,
            forall|i: int| a <= i < j ==> is_digit(s@[i]),
        decreases b - j,
    {
        let c = s.get_char(j);
        if digit_lookup(c).is_none() {
            return false;
        }
        j += 1;
    }
    true
}

/// Decides `is_float_text`.
#[verifier::loop_isolation(false)]
pub fn float_text_ok(s: &str) -> (r: bool)
    ensures
        r == is_float_text(s@),
{
    let n = s.unicode_len();
    let neg = n > 0 && s.get_char(0) == '-';
    let start: usize = if neg {
        1
    } else {
        0
    };
    let ghost t: Seq<char> = if neg {
        s@.drop_first()
    } else {
        s@
    };
    proof {
        assert(t.len() == n - start);
        assert(forall|i: int| 0 <= i < t.len() ==> t[i] == s@[start + i]);
    }
    // Find the first '.' at or after the digit part's start.
    let mut k = start;
    while k < n && s.get_char(k) != '.'
        invariant
            start <= k <= n,
            forall|i: int| start <= i < k ==> s@[i] != '.',
        decreases n - k,
    {
        k += 1;
    }
    let int_part_ok = k > start && all_digits_range(s, start, k);
    proof {
        assert(forall|i: int| 0 <= i < k - start ==> t[i] == s@[start + i]);
    }
    if k == n {
        // No dot: the whole digit part must be digits. No split below the
        // length can witness `float_body`, since `t` holds no '.'.
        proof {
            if int_part_ok {
                assert(t =~= t.subrange(0, t.len() as int));
                assert(is_frac_split(t, t.len() as int));
            } else {
                assert forall|kk: int| 0 <= kk <= t.len() implies !is_frac_split(t, kk) by {
                    if kk < t.len() {
                        assert(t[kk] == s@[start + kk]);
                    } else if is_frac_split(t, kk) {
                        assert(t.len() >= 1);
                        assert(k > start);
                        assert forall|i: int| start <= i < k implies is_digit(s@[i]) by {
                            assert(t[i - start] == s@[i]);
                            assert(is_digit(t[i - start]));
                        }
                        assert(int_part_ok);
                        assert(false);
                    }
                }
            }
        }
        return int_part_ok;
    }
    let frac_ok = int_part_ok && k + 1 < n && all_digits_range(s, k + 1, n);
    proof {
        let kt = k - start;
        assert(t[kt] == '.');
        assert(t.subrange(0, kt) =~= s@.subrange(start as int, k as int));
        assert(forall|i: int| start <= i < k ==> t.subrange(0, kt)[i - start] == s@[i]);
        assert(t.subrange(kt + 1, t.len() as int) =~= s@.subrange(k + 1, n as int));
        assert(forall|i: int|
            k + 1 <= i < n ==> t.subrange(kt + 1, t.len() as int)[i - k - 1] == s@[i]);
        if frac_ok {
            assert(forall|i: int| 0 <= i < kt ==> is_digit(t.subrange(0, kt)[i]));
            assert(forall|i: int|
                0 <= i < t.len() - kt - 1 ==> #[trigger] is_digit(
                    t.subrange(kt + 1, t.len() as int)[i],
                ));
            assert(is_frac_split(t, kt));
        } else {
            // The first dot is the only candidate split: any earlier split
            // lacks a dot, any later one would put this dot among digits.
            assert forall|kk: int| 0 <= kk <= t.len() implies !is_frac_split(t, kk) by {
                if kk < kt {
                    if 0 <= kk {
                        assert(t[kk] == s@[start + kk]);
                    }
                } else if kk == kt {
                    if is_frac_split(t, kt) {
                        assert(kt >= 1);
                        assert(forall|i: int| 0 <= i < kt ==> is_digit(t.subrange(0, kt)[i]));
                        assert(forall|i: int| start <= i < k ==> is_digit(s@[i]));
                        assert(t.len() - kt - 1 >= 1);
                        assert(forall|i: int|
                            0 <= i < t.len() - kt - 1 ==> #[trigger] is_digit(
                                t.subrange(kt + 1, t.len() as int)[i],
                            ));
                        assert(forall|i: int| k + 1 <= i < n ==> is_digit(s@[i]));
                        assert(false);
                    }
                } else if kk < t.len() {
                    if is_frac_split(t, kk) {
                        assert(is_digit(t.subrange(0, kk)[kt]));
                        assert(t.subrange(0, kk)[kt] == t[kt]);
                        assert(false);
                    }
                } else {
                    if is_frac_split(t, kk) {
                        assert(is_digit(t[kt]));
                        assert(false);
                    }
                }
            }
        }
    }
    frac_ok
}

proof fn lemma_pow10_19()
    ensures
        pow10(19) == 10000000000000000000,
        pow10(20) == 100000000000000000000,
{
    reveal_with_fuel(pow10, 21);
}

/// If every character of the digit part is a digit, the text has `int_shape`,
/// and its value is that of the digit part.
proof fn lemma_int_shape_holds(s: Seq<char>, neg: bool, start: int)
    requires
        neg <==> (s.len() > 0 && s[0] == '-'),
        start == if neg {
            1int
        } else {
            0int
        },
        start < s.len(),
        forall|i: int| start <= i < s.len() ==> is_digit(s[i]),
    ensures
        int_shape(s),
        int_val(s) == if neg {
            -digits_val(s.subrange(start, s.len() as int))
        } else {
            digits_val(s.subrange(start, s.len() as int))
        },
{
    if neg {
        assert(s.drop_first() =~= s.subrange(1, s.len() as int));
    } else {
        assert(s =~= s.subrange(0, s.len() as int));
        assert(s[0] != '-');
    }
}

/// A non-digit inside the digit part makes the text malformed.
proof fn lemma_shape_fails(s: Seq<char>, neg: bool, start: int, j: int)
    requires
        neg <==> (s.len() > 0 && s[0] == '-'),
        start == if neg {
            1int
        } else {
            0int
        },
        start <= j < s.len(),
        !is_digit(s[j]),
    ensures
        !int_shape(s),
{
    if neg {
        assert(s.drop_first()[j - 1] == s[j]);
    }
}

/// More than nineteen significant digits put the value outside the i64 range
/// (and a malformed text is rejected anyway).
proof fn lemma_reject_long(s: Seq<char>, neg: bool, start: int, z: int)
    requires
        neg <==> (s.len() > 0 && s[0] == '-'),
        start == if neg {
            1int
        } else {
            0int
        },
        start <= z < s.len(),
        forall|i: int| start <= i < z ==> s[i] == '0',
        s[z] != '0',
        s.len() - z > 19,
        digits_val(s.subrange(start, s.len() as int)) == digits_val(s.subrange(z, s.len() as int)),
    ensures
        !is_i64_text(s),
{
    if int_shape(s) {
        let tail = s.subrange(z, s.len() as int);
        assert forall|i: int| 0 <= i < tail.len() implies is_digit(tail[i]) by {
            assert(tail[i] == s[z + i]);
            if neg {
                assert(s.drop_first()[z + i - 1] == s[z + i]);
            }
        }
        assert(tail[0] == s[z]);
        lemma_digits_val_first_nonzero(tail);
        lemma_pow10_mono(19, (tail.len() - 1) as nat);
        lemma_pow10_19();
        if neg {
            assert(int_val(s) == -digits_val(tail)) by {
                assert(s.drop_first() =~= s.subrange(1, s.len() as int));
            }
        } else {
            assert(s[0] != '-');
            assert(int_val(s) == digits_val(tail)) by {
                assert(s =~= s.subrange(0, s.len() as int));
            }
        }
    }
}

} // verus!
