//! Verified string-to-value parsing: the semantics of reading annotation
//! text as booleans, characters, integers of every supported width, byte
//! strings, and floating-point text (kept as validated text).

use vstd::prelude::*;

use crate::classify::IntTy;

verus! {

/// Whether `c` is a decimal digit.
pub open spec fn is_digit(c: char) -> bool {
    '0' <= c && c <= '9'
}

/// The value of a decimal digit.
pub open spec fn digit_val(c: char) -> int {
    c as int - '0' as int
}

/// Whether every character of `s` is a decimal digit.
pub open spec fn all_digits(s: Seq<char>) -> bool {
    forall|i: int| 0 <= i < s.len() ==> is_digit(s[i])
}

/// The value of a digit string, most significant digit first.
pub open spec fn digits_val(s: Seq<char>) -> int
    decreases s.len(),
{
    if s.len() == 0 {
        0
    } else {
        digits_val(s.drop_last()) * 10 + digit_val(s.last())
    }
}

/// A digit string's value is never negative.
pub proof fn lemma_digits_val_nonneg(s: Seq<char>)
    requires
        all_digits(s),
    ensures
        digits_val(s) >= 0,
    decreases s.len(),
{
    if s.len() > 0 {
        assert(all_digits(s.drop_last()));
        lemma_digits_val_nonneg(s.drop_last());
    }
}

/// Extending a digit string multiplies its value by ten and adds the new
/// digit.
pub proof fn lemma_digits_val_step(s: Seq<char>, i: int)
    requires
        0 <= i < s.len(),
    ensures
        digits_val(s.subrange(0, i + 1)) == digits_val(s.subrange(0, i)) * 10 + digit_val(s[i]),
{
    let t = s.subrange(0, i + 1);
    assert(t.drop_last() =~= s.subrange(0, i));
    assert(t.last() == s[i]);
}

/// A digit string's value only grows as digits are appended.
pub proof fn lemma_digits_val_grows(s: Seq<char>, i: int)
    requires
        all_digits(s),
        0 <= i <= s.len(),
    ensures
        digits_val(s) >= digits_val(s.subrange(0, i)),
    decreases s.len() - i,
{
    if i == s.len() {
        assert(s.subrange(0, i) =~= s);
    } else {
        lemma_digits_val_step(s, i);
        assert(all_digits(s.subrange(0, i)));
        lemma_digits_val_nonneg(s.subrange(0, i));
        lemma_digits_val_grows(s, i + 1);
    }
}

/// What an unsigned decimal parse of `s` yields: the digits' value, if
/// `s` is one or more digits and nothing else.
pub open spec fn spec_parse_uint_text(s: Seq<char>) -> Option<int> {
    if s.len() > 0 && all_digits(s) {
        Some(digits_val(s))
    } else {
        None
    }
}

/// What a decimal parse of `s` yields before any range check: an optional
/// leading `+` is always accepted, a leading `-` only for signed kinds.
pub open spec fn spec_parse_int_text(s: Seq<char>, signed: bool) -> Option<int> {
    if s.len() == 0 {
        None
    } else if s[0] == '+' {
        spec_parse_uint_text(s.drop_first())
    } else if s[0] == '-' && signed {
        match spec_parse_uint_text(s.drop_first()) {
            Some(v) => Some(-v),
            None => None,
        }
    } else {
        spec_parse_uint_text(s)
    }
}

/// Whether an integer kind is signed.
pub open spec fn spec_is_signed(ty: IntTy) -> bool {
    match ty {
        IntTy::I8 | IntTy::I16 | IntTy::I32 | IntTy::I64 | IntTy::Isize => true,
        _ => false,
    }
}

/// The smallest value of an integer kind.
pub open spec fn spec_int_min(ty: IntTy) -> int {
    match ty {
        IntTy::U8 | IntTy::U16 | IntTy::U32 | IntTy::U64 | IntTy::Usize => 0,
        IntTy::I8 => i8::MIN as int,
        IntTy::I16 => i16::MIN as int,
        IntTy::I32 => i32::MIN as int,
        IntTy::I64 => i64::MIN as int,
        IntTy::Isize => isize::MIN as int,
    }
}

/// The largest value of an integer kind.
pub open spec fn spec_int_max(ty: IntTy) -> int {
    match ty {
        IntTy::U8 => u8::MAX as int,
        IntTy::U16 => u16::MAX as int,
        IntTy::U32 => u32::MAX as int,
        IntTy::U64 => u64::MAX as int,
        IntTy::Usize => usize::MAX as int,
        IntTy::I8 => i8::MAX as int,
        IntTy::I16 => i16::MAX as int,
        IntTy::I32 => i32::MAX as int,
        IntTy::I64 => i64::MAX as int,
        IntTy::Isize => isize::MAX as int,
    }
}

/// What parsing `s` as an integer of kind `ty` yields: the decimal value
/// if the text is well-formed and the value fits, and nothing otherwise.
pub open spec fn spec_parse_int(s: Seq<char>, ty: IntTy) -> Option<int> {
    match spec_parse_int_text(s, spec_is_signed(ty)) {
        Some(v) => if spec_int_min(ty) <= v <= spec_int_max(ty) {
            Some(v)
        } else {
            None
        },
        None => None,
    }
}

/// Whether an integer kind is signed (executable form).
pub fn is_signed(ty: IntTy) -> (r: bool)
    ensures
        r == spec_is_signed(ty),
{
    match ty {
        IntTy::I8 | IntTy::I16 | IntTy::I32 | IntTy::I64 | IntTy::Isize => true,
        _ => false,
    }
}

/// The bounds of an integer kind.
fn int_bounds(ty: IntTy) -> (r: (i128, i128))
    ensures
        r.0 as int == spec_int_min(ty),
        r.1 as int == spec_int_max(ty),
{
    match ty {
        IntTy::U8 => (0, u8::MAX as i128),
        IntTy::I8 => (i8::MIN as i128, i8::MAX as i128),
        IntTy::U16 => (0, u16::MAX as i128),
        IntTy::I16 => (i16::MIN as i128, i16::MAX as i128),
        IntTy::U32 => (0, u32::MAX as i128),
        IntTy::I32 => (i32::MIN as i128, i32::MAX as i128),
        IntTy::U64 => (0, u64::MAX as i128),
        IntTy::I64 => (i64::MIN as i128, i64::MAX as i128),
        IntTy::Usize => (0, usize::MAX as i128),
        IntTy::Isize => (isize::MIN as i128, isize::MAX as i128),
    }
}

/// Parses `s` as an integer of kind `ty`, exactly as the kind's own
/// decimal parser would: optional sign, one or more digits, value within
/// the kind's range.
#[verifier::loop_isolation(false)]
pub fn parse_int_text(s: &str, ty: IntTy) -> (r: Result<i128, ()>)
    ensures
        match r {
            Ok(v) => spec_parse_int(s@, ty) == Some(v as int),
            Err(_) => spec_parse_int(s@, ty) is None,
        },
{
    let n = s.unicode_len();
    let signed = is_signed(ty);
    let (min, max) = int_bounds(ty);
    if n == 0 {
        return Err(());
    }
    let first = s.get_char(0);
    let neg = first == '-' && signed;
    let start: usize = if first == '+' || neg {
        1
    } else {
        0
    };
    // The magnitude bound: a digit value above it cannot be in range.
    let bound: i128 = if neg {
        -min
    } else {
        max
    };
    proof {
        assert(min <= 0 && 0 <= max);
        assert(bound >= 0);
    }
    let ghost body = s@.subrange(start as int, n as int);
    proof {
        if start == 1 {
            assert(body =~= s@.drop_first());
        } else {
            assert(body =~= s@);
        }
    }
    if n == start {
        return Err(());
    }
    let mut acc: i128 = 0;
    let mut i: usize = start;
    while i < n
        invariant
            start <= i <= n,
            all_digits(s@.subrange(start as int, i as int)),
            acc as int == digits_val(s@.subrange(start as int, i as int)),
            0 <= acc <= bound,
        decreases n - i,
    {
        let c = s.get_char(i);
        if c < '0' || c > '9' {
            proof {
                assert(!is_digit(body[i - start]));
                assert(!all_digits(body));
            }
            return Err(());
        }
        let d: i128 = (c as u32 - '0' as u32) as i128;
        proof {
            assert(0 <= d < 10);
            assert(s@.subrange(start as int, i as int) == body.subrange(0, i - start));
            lemma_digits_val_step(body, i - start);
            assert(s@.subrange(start as int, i + 1 as int) == body.subrange(0, i - start + 1)) by {
                assert(s@.subrange(start as int, i + 1 as int) =~= body.subrange(
                    0,
                    i - start + 1,
                ));
            }
        }
        acc = acc * 10 + d;
        i += 1;
        if acc > bound {
            // Every continuation of this prefix is out of range.
            proof {
                if all_digits(body) {
                    lemma_digits_val_grows(body, i - start);
                    assert(digits_val(body) > bound);
                }
            }
            return Err(());
        }
    }
    proof {
        assert(s@.subrange(start as int, n as int) == body);
        assert(all_digits(body));
        assert(acc as int == digits_val(body));
    }
    if neg {
        Ok(-acc)
    } else {
        Ok(acc)
    }
}

/// The modulus of an integer kind: one more than its largest unsigned
/// value of the same width.
pub open spec fn spec_int_modulus(ty: IntTy) -> int {
    match ty {
        IntTy::U8 | IntTy::I8 => 0x100,
        IntTy::U16 | IntTy::I16 => 0x1_0000,
        IntTy::U32 | IntTy::I32 => 0x1_0000_0000,
        IntTy::U64 | IntTy::I64 => 0x1_0000_0000_0000_0000,
        IntTy::Usize | IntTy::Isize => usize::MAX as int + 1,
    }
}

/// What converting the native integer literal `v` to kind `ty` yields:
/// the value is reduced to the kind's width, two's complement for signed
/// kinds.
pub open spec fn spec_cast_int(v: u64, ty: IntTy) -> int {
    let m = spec_int_modulus(ty);
    let r = v as int % m;
    if spec_is_signed(ty) && r >= m / 2 {
        r - m
    } else {
        r
    }
}

/// Converts the native integer literal `v` to kind `ty`.
pub fn cast_int(v: u64, ty: IntTy) -> (r: i128)
    ensures
        r as int == spec_cast_int(v, ty),
{
    let m: u128 = match ty {
        IntTy::U8 | IntTy::I8 => 0x100,
        IntTy::U16 | IntTy::I16 => 0x1_0000,
        IntTy::U32 | IntTy::I32 => 0x1_0000_0000,
        IntTy::U64 | IntTy::I64 => 0x1_0000_0000_0000_0000,
        IntTy::Usize | IntTy::Isize => usize::MAX as u128 + 1,
    };
    proof {
        assert(m as int == spec_int_modulus(ty));
        assert(m >= 2);
    }
    let rem: u128 = (v as u128) % m;
    let signed = is_signed(ty);
    if signed && rem >= m / 2 {
        (rem as i128) - (m as i128)
    } else {
        rem as i128
    }
}

/// What parsing `s` as a boolean yields.
pub open spec fn spec_parse_bool(s: Seq<char>) -> Option<bool> {
    if s == "true"@ {
        Some(true)
    } else if s == "false"@ {
        Some(false)
    } else {
        None
    }
}

/// Parses `s` as a boolean: exactly `true` or `false`.
pub fn parse_bool_text(s: &str) -> (r: Result<bool, ()>)
    ensures
        match r {
            Ok(v) => spec_parse_bool(s@) == Some(v),
            Err(_) => spec_parse_bool(s@) is None,
        },
{
    if crate::ast::str_eq(s, "true") {
        Ok(true)
    } else if crate::ast::str_eq(s, "false") {
        Ok(false)
    } else {
        Err(())
    }
}

/// What parsing `s` as a character yields: its only character, if it has
/// exactly one.
pub open spec fn spec_parse_char(s: Seq<char>) -> Option<char> {
    if s.len() == 1 {
        Some(s[0])
    } else {
        None
    }
}

/// Parses `s` as a character: the text must be exactly one character.
pub fn parse_char_text(s: &str) -> (r: Result<char, ()>)
    ensures
        match r {
            Ok(v) => spec_parse_char(s@) == Some(v),
            Err(_) => spec_parse_char(s@) is None,
        },
{
    if s.unicode_len() != 1 {
        return Err(());
    }
    Ok(s.get_char(0))
}

/// The bytes of an all-ASCII character sequence.
pub open spec fn spec_ascii_bytes(s: Seq<char>) -> Seq<u8> {
    Seq::new(s.len(), |i: int| s[i] as u8)
}

/// What reading `s` as a byte string yields: its bytes, if it is pure
/// ASCII.
pub open spec fn spec_parse_byte_str(s: Seq<char>) -> Option<Seq<u8>> {
    if vstd::utf8::is_ascii_chars(s) {
        Some(spec_ascii_bytes(s))
    } else {
        None
    }
}

/// Reads `s` as a byte string: the text must be pure ASCII.
pub fn parse_byte_str_text(s: &str) -> (r: Result<Vec<u8>, ()>)
    ensures
        match r {
            Ok(v) => spec_parse_byte_str(s@) == Some(v@),
            Err(_) => spec_parse_byte_str(s@) is None,
        },
{
    broadcast use vstd::string::is_ascii_spec_bytes;

    if !s.is_ascii() {
        return Err(());
    }
    let v = s.as_bytes_vec();
    proof {
        assert(v@ =~= spec_ascii_bytes(s@));
    }
    Ok(v)
}

/// The lowercase form of an ASCII letter; other characters are unchanged.
pub open spec fn spec_lower_char(c: char) -> char {
    if 'A' <= c && c <= 'Z' {
        ((c as u8) + 32) as char
    } else {
        c
    }
}

/// Whether `s` spells `t` up to ASCII case, where `t` is lowercase.
pub open spec fn spec_eq_ci(s: Seq<char>, t: Seq<char>) -> bool {
    s.len() == t.len() && forall|i: int| 0 <= i < s.len() ==> spec_lower_char(s[i]) == t[i]
}

/// Whether `s` is one of the special floating-point words, up to case.
pub open spec fn spec_special_float_word(s: Seq<char>) -> bool {
    spec_eq_ci(s, "inf"@) || spec_eq_ci(s, "infinity"@) || spec_eq_ci(s, "nan"@)
}

/// Whether `s` is a valid mantissa: digits with at most one point, and at
/// least one digit.
pub open spec fn spec_valid_mantissa(s: Seq<char>) -> bool {
    &&& s.len() > 0
    &&& forall|i: int| 0 <= i < s.len() ==> (is_digit(s[i]) || s[i] == '.')
    &&& exists|i: int| 0 <= i < s.len() && is_digit(s[i])
    &&& forall|i: int, j: int| 0 <= i < j < s.len() ==> !(s[i] == '.' && s[j] == '.')
}

/// Whether `s` is a valid exponent body: an optional sign and one or more
/// digits.
pub open spec fn spec_valid_exponent(s: Seq<char>) -> bool {
    let body = if s.len() > 0 && (s[0] == '+' || s[0] == '-') {
        s.drop_first()
    } else {
        s
    };
    body.len() > 0 && all_digits(body)
}

/// Whether `c` introduces an exponent.
pub open spec fn is_exp_char(c: char) -> bool {
    c == 'e' || c == 'E'
}

/// Whether `s` is a valid decimal number, with an optional exponent.
pub open spec fn spec_valid_number(s: Seq<char>) -> bool {
    ||| (spec_valid_mantissa(s) && (forall|i: int| 0 <= i < s.len() ==> !is_exp_char(s[i])))
    ||| (exists|k: int|
        0 <= k < s.len() && #[trigger] is_exp_char(s[k]) && spec_valid_mantissa(s.subrange(0, k))
            && spec_valid_exponent(s.subrange(k + 1, s.len() as int)))
}

/// Whether `s` is text a floating-point parser accepts: an optional sign,
/// then a special word or a decimal number.
pub open spec fn spec_valid_float_text(s: Seq<char>) -> bool {
    let body = if s.len() > 0 && (s[0] == '+' || s[0] == '-') {
        s.drop_first()
    } else {
        s
    };
    spec_special_float_word(body) || spec_valid_number(body)
}

/// Compares the characters of `s` from `start` with the lowercase word
/// `t`, up to ASCII case.
#[verifier::loop_isolation(false)]
fn eq_ci_from(s: &str, start: usize, t: &str) -> (r: bool)
    requires
        start <= s@.len(),
    ensures
        r == spec_eq_ci(s@.subrange(start as int, s@.len() as int), t@),
{
    let n = s.unicode_len();
    let m = t.unicode_len();
    let ghost body = s@.subrange(start as int, n as int);
    if n - start != m {
        return false;
    }
    let mut i: usize = 0;
    while i < m
        invariant
            0 <= i <= m,
            forall|j: int| 0 <= j < i ==> spec_lower_char(body[j]) == t@[j],
        decreases m - i,
    {
        let c = s.get_char(start + i);
        let lc: char = if c >= 'A' && c <= 'Z' {
            (((c as u32) as u8) + 32) as char
        } else {
            c
        };
        proof {
            assert(lc == spec_lower_char(body[i as int]));
        }
        if lc != t.get_char(i) {
            return false;
        }
        i += 1;
    }
    true
}

/// Checks whether `s` would be accepted by a floating-point parser.
#[verifier::loop_isolation(false)]
pub fn check_float_text(s: &str) -> (r: bool)
    ensures
        r == spec_valid_float_text(s@),
{
    let n = s.unicode_len();
    let start: usize = if n > 0 {
        let first = s.get_char(0);
        if first == '+' || first == '-' {
            1
        } else {
            0
        }
    } else {
        0
    };
    let ghost body = s@.subrange(start as int, n as int);
    proof {
        if start == 1 {
            assert(body =~= s@.drop_first());
        } else {
            assert(body =~= s@);
        }
    }
    if eq_ci_from(s, start, "inf") || eq_ci_from(s, start, "infinity") || eq_ci_from(
        s,
        start,
        "nan",
    ) {
        return true;
    }
    // Split at the first exponent marker, if any.
    let k = find_exp(s, start, n);
    let has_exp = k < n;
    let ghost mant = body.subrange(0, k - start);
    let mantissa_ok = check_mantissa(s, start, k);
    proof {
        assert(mant =~= s@.subrange(start as int, k as int));
    }
    if !mantissa_ok {
        proof {
            if !has_exp {
                assert(mant =~= body);
            }
            assert forall|kk: int|
                0 <= kk < body.len() && #[trigger] is_exp_char(body[kk]) implies !(
            spec_valid_mantissa(body.subrange(0, kk)) && spec_valid_exponent(
                body.subrange(kk + 1, body.len() as int),
            )) by {
                if kk < k - start {
                    assert(!is_exp_char(body[kk]));
                } else if kk > k - start {
                    assert(body.subrange(0, kk)[k - start] == body[k - start]);
                    assert(is_exp_char(body[k - start]));
                    assert(!(is_digit(body[k - start]) || body[k - start] == '.'));
                    assert(!spec_valid_mantissa(body.subrange(0, kk)));
                } else {
                    assert(body.subrange(0, kk) =~= mant);
                    assert(mant =~= s@.subrange(start as int, k as int));
                }
            }
            if spec_valid_mantissa(body) {
                assert(!is_exp_char(body[k - start]));
                assert(false);
            }
        }
        return false;
    }
    if !has_exp {
        proof {
            assert(mant =~= body);
        }
        return true;
    }
    let exp_ok = check_exponent(s, k + 1, n);
    proof {
        if exp_ok {
            assert(is_exp_char(body[k - start]));
            assert(mant =~= s@.subrange(start as int, k as int));
            assert(spec_valid_mantissa(body.subrange(0, k - start)));
            assert(body.subrange(k - start + 1, body.len() as int) =~= s@.subrange(
                k + 1,
                n as int,
            ));
            assert(spec_valid_exponent(body.subrange(k - start + 1, body.len() as int)));
        } else {
            assert forall|kk: int|
                0 <= kk < body.len() && #[trigger] is_exp_char(body[kk]) implies !(
            spec_valid_mantissa(body.subrange(0, kk)) && spec_valid_exponent(
                body.subrange(kk + 1, body.len() as int),
            )) by {
                if kk < k - start {
                    assert(!is_exp_char(body[kk]));
                } else if kk > k - start {
                    assert(body.subrange(0, kk)[k - start] == body[k - start]);
                    assert(is_exp_char(body.subrange(0, kk)[k - start]));
                    assert(!spec_valid_mantissa(body.subrange(0, kk)));
                } else {
                    assert(body.subrange(kk + 1, body.len() as int) =~= s@.subrange(
                        k + 1,
                        n as int,
                    ));
                }
            }
            assert(is_exp_char(body[k - start]));
            assert(!(spec_valid_mantissa(body) && (forall|i: int|
                0 <= i < body.len() ==> !is_exp_char(body[i]))));
        }
    }
    exp_ok
}

/// The index of the first exponent marker in `s[start..n)`, or `n`.
#[verifier::loop_isolation(false)]
fn find_exp(s: &str, start: usize, n: usize) -> (k: usize)
    requires
        start <= n <= s@.len(),
    ensures
        start <= k <= n,
        forall|j: int| start <= j < k ==> !is_exp_char(s@[j]),
        k < n ==> is_exp_char(s@[k as int]),
{
    let mut k: usize = start;
    while k < n
        invariant
            start <= k <= n,
            forall|j: int| start <= j < k ==> !is_exp_char(s@[j]),
        decreases n - k,
    {
        let c = s.get_char(k);
        if c == 'e' || c == 'E' {
            return k;
        }
        k += 1;
    }
    k
}

/// Checks the mantissa range `s[from..to)`: digits with at most one
/// point, and at least one digit.
#[verifier::loop_isolation(false)]
fn check_mantissa(s: &str, from: usize, to: usize) -> (r: bool)
    requires
        from <= to <= s@.len(),
    ensures
        r == spec_valid_mantissa(s@.subrange(from as int, to as int)),
{
    let ghost part = s@.subrange(from as int, to as int);
    if from == to {
        return false;
    }
    let mut i: usize = from;
    let mut seen_digit = false;
    let mut seen_dot = false;
    while i < to
        invariant
            from <= i <= to,
            forall|j: int| 0 <= j < i - from ==> (is_digit(part[j]) || part[j] == '.'),
            seen_digit == exists|j: int| 0 <= j < i - from && is_digit(part[j]),
            seen_dot == exists|j: int| 0 <= j < i - from && part[j] == '.',
            forall|j1: int, j2: int|
                0 <= j1 < j2 < i - from ==> !(part[j1] == '.' && part[j2] == '.'),
        decreases to - i,
    {
        let c = s.get_char(i);
        if c >= '0' && c <= '9' {
            proof {
                assert(is_digit(part[i - from]));
            }
            seen_digit = true;
        } else if c == '.' {
            if seen_dot {
                proof {
                    let j1 = choose|j: int| 0 <= j < i - from && part[j] == '.';
                    assert(part[j1] == '.' && part[i - from] == '.');
                }
                return false;
            }
            seen_dot = true;
        } else {
            proof {
                assert(!(is_digit(part[i - from]) || part[i - from] == '.'));
            }
            return false;
        }
        i += 1;
    }
    seen_digit
}

/// Checks the exponent range `s[from..to)`: an optional sign and one or
/// more digits.
#[verifier::loop_isolation(false)]
fn check_exponent(s: &str, from: usize, to: usize) -> (r: bool)
    requires
        from <= to <= s@.len(),
    ensures
        r == spec_valid_exponent(s@.subrange(from as int, to as int)),
{
    let ghost part = s@.subrange(from as int, to as int);
    if from == to {
        return false;
    }
    let first = s.get_char(from);
    let dstart: usize = if first == '+' || first == '-' {
        from + 1
    } else {
        from
    };
    let ghost dpart = s@.subrange(dstart as int, to as int);
    proof {
        if dstart > from {
            assert(dpart =~= part.drop_first());
        } else {
            assert(dpart =~= part);
        }
    }
    if dstart == to {
        return false;
    }
    let mut i: usize = dstart;
    while i < to
        invariant
            dstart <= i <= to,
            forall|j: int| 0 <= j < i - dstart ==> is_digit(dpart[j]),
        decreases to - i,
    {
        let c = s.get_char(i);
        if c < '0' || c > '9' {
            proof {
                assert(!is_digit(dpart[i - dstart]));
            }
            return false;
        }
        i += 1;
    }
    proof {
        assert(all_digits(dpart));
    }
    true
}

} // verus!
