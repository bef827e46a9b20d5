//! Rendering and parsing of the JSON bodies on the wire.
//!
//! Success bodies have the shape `{"count":<int64>}`; error bodies have the
//! shape `{"error":"<message>"}` with the message JSON-escaped. The parser
//! accepts exactly the JSON objects `{"count": <int64>}` (with optional JSON
//! whitespace around the tokens) and rejects everything else.

use vstd::prelude::*;

verus! {

/// The decimal digits of `n`, most significant first, as ASCII bytes.
pub open spec fn dec_digits(n: nat) -> Seq<u8>
    decreases n,
{
    if n < 10 {
        seq![(n + 0x30) as u8]
    } else {
        dec_digits(n / 10).push((n % 10 + 0x30) as u8)
    }
}

/// The decimal rendering of `v` as ASCII bytes, with a leading `-` when negative.
pub open spec fn int_digits(v: int) -> Seq<u8> {
    if v < 0 {
        seq![('-' as u8)] + dec_digits((-v) as nat)
    } else {
        dec_digits(v as nat)
    }
}

/// The exact bytes of a success body: `{"count":` then the digits, then `}`.
pub open spec fn count_body_bytes(v: int) -> Seq<u8> {
    seq![
        ('{' as u8),
        ('"' as u8),
        ('c' as u8),
        ('o' as u8),
        ('u' as u8),
        ('n' as u8),
        ('t' as u8),
        ('"' as u8),
        (':' as u8),
    ] + int_digits(v) + seq![('}' as u8)]
}

/// The lowercase hex digit for a value below sixteen.
pub open spec fn hex_digit(n: u8) -> u8 {
    if n < 10 {
        (n + 0x30) as u8
    } else {
        (n - 10 + 0x61) as u8
    }
}

/// How one byte of a message appears inside a JSON string literal: quote and
/// backslash are escaped, control bytes become `\u00xx`, all else is itself.
pub open spec fn escape_byte(b: u8) -> Seq<u8> {
    if b == ('"' as u8) || b == ('\\' as u8) {
        seq![('\\' as u8), b]
    } else if b < 0x20 {
        seq![('\\' as u8), ('u' as u8), ('0' as u8), ('0' as u8), hex_digit(b / 16), hex_digit(b % 16)]
    } else {
        seq![b]
    }
}

/// The JSON escaping of a whole message.
pub open spec fn escape_bytes(m: Seq<u8>) -> Seq<u8>
    decreases m.len(),
{
    if m.len() == 0 {
        seq![]
    } else {
        escape_bytes(m.drop_last()) + escape_byte(m.last())
    }
}

/// The exact bytes of an error body: `{"error":"` then the escaped message, then `"}`.
pub open spec fn error_body_bytes(m: Seq<u8>) -> Seq<u8> {
    seq![
        ('{' as u8),
        ('"' as u8),
        ('e' as u8),
        ('r' as u8),
        ('r' as u8),
        ('o' as u8),
        ('r' as u8),
        ('"' as u8),
        (':' as u8),
        ('"' as u8),
    ] + escape_bytes(m) + seq![('"' as u8), ('}' as u8)]
}

/// Appends the decimal digits of `n` to `out`.
fn push_u64_digits(out: &mut Vec<u8>, n: u64)
    ensures
        final(out)@ == old(out)@ + dec_digits(n as nat),
    decreases n,
{
    if n >= 10 {
        push_u64_digits(out, n / 10);
        out.push((n % 10) as u8 + 0x30);
        proof {
            assert(out@ =~= old(out)@ + dec_digits(n as nat));
        }
    } else {
        out.push(n as u8 + 0x30);
        proof {
            assert(out@ =~= old(out)@ + dec_digits(n as nat));
        }
    }
}

/// Appends the decimal rendering of `v` to `out`.
fn push_i64_digits(out: &mut Vec<u8>, v: i64)
    ensures
        final(out)@ == old(out)@ + int_digits(v as int),
{
    if v < 0 {
        out.push('-' as u8);
        let m: u64 = ((-(v + 1)) as u64) + 1;
        assert(m as nat == (-(v as int)) as nat);
        push_u64_digits(out, m);
        proof {
            assert(out@ =~= old(out)@ + int_digits(v as int));
        }
    } else {
        push_u64_digits(out, v as u64);
    }
}

/// Renders the success body `{"count":<value>}`.
pub fn render_count_body(value: i64) -> (r: Vec<u8>)
    ensures
        r@ == count_body_bytes(value as int),
{
    let mut out: Vec<u8> = Vec::new();
    out.push('{' as u8);
    out.push('"' as u8);
    out.push('c' as u8);
    out.push('o' as u8);
    out.push('u' as u8);
    out.push('n' as u8);
    out.push('t' as u8);
    out.push('"' as u8);
    out.push(':' as u8);
    push_i64_digits(&mut out, value);
    out.push('}' as u8);
    proof {
        assert(out@ =~= count_body_bytes(value as int));
    }
    out
}

/// Renders the error body `{"error":"<message>"}`, escaping the message.
pub fn render_error_body(message: &[u8]) -> (r: Vec<u8>)
    ensures
        r@ == error_body_bytes(message@),
{
    let mut out: Vec<u8> = Vec::new();
    out.push('{' as u8);
    out.push('"' as u8);
    out.push('e' as u8);
    out.push('r' as u8);
    out.push('r' as u8);
    out.push('o' as u8);
    out.push('r' as u8);
    out.push('"' as u8);
    out.push(':' as u8);
    out.push('"' as u8);
    let ghost head: Seq<u8> = out@;
    let mut k: usize = 0;
    while k < message.len()
        invariant
            k <= message@.len(),
            out@ == head + escape_bytes(message@.take(k as int)),
        decreases message@.len() - k,
    {
        let b = message[k];
        if b == ('"' as u8) || b == ('\\' as u8) {
            out.push('\\' as u8);
            out.push(b);
        } else if b < 0x20 {
            out.push('\\' as u8);
            out.push('u' as u8);
            out.push('0' as u8);
            out.push('0' as u8);
            out.push(hex_digit_exec(b / 16));
            out.push(hex_digit_exec(b % 16));
        } else {
            out.push(b);
        }
        proof {
            assert(message@.take(k + 1 as int).drop_last() =~= message@.take(k as int));
            assert(message@.take(k + 1 as int).last() == message@[k as int]);
            assert(out@ =~= head + escape_bytes(message@.take(k + 1 as int)));
        }
        k = k + 1;
    }
    out.push('"' as u8);
    out.push('}' as u8);
    proof {
        assert(message@.take(message@.len() as int) =~= message@);
        assert(out@ =~= error_body_bytes(message@));
    }
    out
}

/// True of the four JSON whitespace bytes: space, tab, line feed, carriage return.
pub open spec fn is_ws(b: u8) -> bool {
    b == 0x20 || b == 0x09 || b == 0x0a || b == 0x0d
}

/// True of the ASCII decimal digits.
pub open spec fn is_digit(b: u8) -> bool {
    0x30 <= b && b <= 0x39
}

/// The index of the first byte at or after `i` that is not JSON whitespace.
pub open spec fn next_token(s: Seq<u8>, i: int) -> int
    decreases s.len() - i when 0 <= i <= s.len()
{
    if i < s.len() && is_ws(s[i]) {
        next_token(s, i + 1)
    } else {
        i
    }
}

/// The index just past the run of decimal digits that starts at `i`.
pub open spec fn digits_end(s: Seq<u8>, i: int) -> int
    decreases s.len() - i when 0 <= i <= s.len()
{
    if i < s.len() && is_digit(s[i]) {
        digits_end(s, i + 1)
    } else {
        i
    }
}

/// The value of the digit run `s[i..j)` read as a decimal number.
pub open spec fn digits_value(s: Seq<u8>, i: int, j: int) -> int
    decreases j - i when i <= j
{
    if j <= i {
        0
    } else {
        digits_value(s, i, j - 1) * 10 + (s[j - 1] - 0x30)
    }
}

/// The member key as it must appear on the wire: `"count"` with its quotes.
pub open spec fn key_token() -> Seq<u8> {
    seq![('"' as u8), ('c' as u8), ('o' as u8), ('u' as u8), ('n' as u8), ('t' as u8), ('"' as u8)]
}

/// Ten to the `k`-th power.
pub open spec fn pow10(k: nat) -> int
    decreases k,
{
    if k == 0 {
        1
    } else {
        10 * pow10((k - 1) as nat)
    }
}

/// The meaning of a request body: `Some(v)` exactly when the body is the JSON
/// object `{"count": v}` — optional JSON whitespace around the four tokens, a
/// decimal integer with no leading zero (an optional leading `-`, and `-0` for
/// zero), and `v` within the signed 64-bit range — and `None` otherwise.
pub open spec fn count_body_int(s: Seq<u8>) -> Option<int> {
    let i0 = next_token(s, 0);
    if !(i0 < s.len() && s[i0] == ('{' as u8)) {
        None
    } else {
        let i1 = next_token(s, i0 + 1);
        if !(i1 + 7 <= s.len() && s.subrange(i1, i1 + 7) == key_token()) {
            None
        } else {
            let i2 = next_token(s, i1 + 7);
            if !(i2 < s.len() && s[i2] == (':' as u8)) {
                None
            } else {
                let i3 = next_token(s, i2 + 1);
                let neg = i3 < s.len() && s[i3] == ('-' as u8);
                let ds = if neg {
                    i3 + 1
                } else {
                    i3
                };
                let de = digits_end(s, ds);
                if !(ds < de && (s[ds] != ('0' as u8) || de == ds + 1)) {
                    None
                } else {
                    let v = if neg {
                        -digits_value(s, ds, de)
                    } else {
                        digits_value(s, ds, de)
                    };
                    let i4 = next_token(s, de);
                    if i4 < s.len() && s[i4] == ('}' as u8) && next_token(s, i4 + 1) == s.len()
                        && -0x8000000000000000 <= v && v <= 0x7fffffffffffffff {
                        Some(v)
                    } else {
                        None
                    }
                }
            }
        }
    }
}

/// The bytes between `i` and `digits_end(s, i)` are all digits, and the run
/// stops either at the end of `s` or at a non-digit.
proof fn lemma_digits_end(s: Seq<u8>, i: int)
    requires
        0 <= i <= s.len(),
    ensures
        i <= digits_end(s, i) <= s.len(),
        forall|m: int| i <= m < digits_end(s, i) ==> is_digit(s[m]),
        digits_end(s, i) < s.len() ==> !is_digit(s[digits_end(s, i)]),
    decreases s.len() - i,
{
    if i < s.len() && is_digit(s[i]) {
        lemma_digits_end(s, i + 1);
    }
}

/// A digit run that does not start with `0` has a value of at least ten to
/// the power of one less than its length.
proof fn lemma_digits_value_lower(s: Seq<u8>, i: int, j: int)
    requires
        i < j,
        forall|m: int| i <= m < j ==> is_digit(s[m]),
        s[i] != ('0' as u8),
    ensures
        digits_value(s, i, j) >= pow10((j - i - 1) as nat),
    decreases j - i,
{
    if j - i > 1 {
        lemma_digits_value_lower(s, i, j - 1);
        assert(is_digit(s[j - 1]));
        assert(digits_value(s, i, j) == digits_value(s, i, j - 1) * 10 + (s[j - 1] - 0x30));
        assert(pow10((j - i - 1) as nat) == 10 * pow10((j - i - 2) as nat));
        assert(digits_value(s, i, j - 1) * 10 >= pow10((j - i - 2) as nat) * 10) by (nonlinear_arith)
            requires
                digits_value(s, i, j - 1) >= pow10((j - i - 2) as nat),
        ;
    } else {
        assert(digits_value(s, i, j) == digits_value(s, i, i) * 10 + (s[i] - 0x30));
        assert(s[i] - 0x30 >= 1);
        assert(pow10(0) == 1);
    }
}

/// Powers of ten do not decrease.
proof fn lemma_pow10_mono(a: nat, b: nat)
    requires
        a <= b,
    ensures
        pow10(a) <= pow10(b),
    decreases b,
{
    if a < b {
        lemma_pow10_mono(a, (b - 1) as nat);
        lemma_pow10_positive((b - 1) as nat);
    }
}

/// Powers of ten are positive.
proof fn lemma_pow10_positive(k: nat)
    ensures
        pow10(k) >= 1,
    decreases k,
{
    if k > 0 {
        lemma_pow10_positive((k - 1) as nat);
    }
}

/// The nineteenth power of ten, spelled out.
proof fn lemma_pow10_19()
    ensures
        pow10(19) == 10_000_000_000_000_000_000,
{
    reveal_with_fuel(pow10, 21);
    assert(pow10(19) == 10_000_000_000_000_000_000);
}

/// Every byte of a decimal rendering is a digit, there is at least one, and
/// only the rendering of zero starts with the digit zero.
proof fn lemma_dec_digits_shape(n: nat)
    ensures
        dec_digits(n).len() >= 1,
        forall|i: int| 0 <= i < dec_digits(n).len() ==> is_digit(#[trigger] dec_digits(n)[i]),
        n >= 1 ==> dec_digits(n)[0] != 0x30,
        n == 0 ==> dec_digits(n) =~= seq![0x30u8],
    decreases n,
{
    if n >= 10 {
        lemma_dec_digits_shape(n / 10);
    }
}

/// Reading back a decimal rendering that sits at `i` inside `s` gives the
/// rendered number.
proof fn lemma_digits_value_of_dec(s: Seq<u8>, i: int, n: nat)
    requires
        0 <= i,
        i + dec_digits(n).len() <= s.len(),
        s.subrange(i, i + dec_digits(n).len() as int) == dec_digits(n),
    ensures
        digits_value(s, i, i + dec_digits(n).len() as int) == n,
    decreases n,
{
    let d = dec_digits(n);
    let j = i + d.len() as int;
    assert(s[j - 1] == d[d.len() - 1]);
    if n < 10 {
        assert(digits_value(s, i, j) == digits_value(s, i, i) * 10 + (s[j - 1] - 0x30));
    } else {
        let dh = dec_digits(n / 10);
        assert(d == dh.push((n % 10 + 0x30) as u8));
        assert(s.subrange(i, j - 1) =~= dh) by {
            assert forall|k: int| 0 <= k < dh.len() implies s.subrange(i, j - 1)[k] == dh[k] by {
                assert(s.subrange(i, j - 1)[k] == s[i + k]);
                assert(s[i + k] == s.subrange(i, j)[k]);
                assert(d[k] == dh[k]);
            }
        }
        lemma_digits_value_of_dec(s, i, n / 10);
        assert(s[j - 1] == (n % 10 + 0x30) as u8);
        assert(digits_value(s, i, j) == digits_value(s, i, j - 1) * 10 + (s[j - 1] - 0x30));
        assert(n == (n / 10) * 10 + n % 10) by {
            vstd::arithmetic::div_mod::lemma_fundamental_div_mod(n as int, 10);
        }
    }
}

/// A run of digits that stops at the end of `s` or at a non-digit is exactly
/// what `digits_end` spans.
proof fn lemma_digits_end_region(s: Seq<u8>, i: int, j: int)
    requires
        0 <= i <= j <= s.len(),
        forall|m: int| i <= m < j ==> is_digit(s[m]),
        j == s.len() || !is_digit(s[j]),
    ensures
        digits_end(s, i) == j,
    decreases j - i,
{
    if i < j {
        lemma_digits_end_region(s, i + 1, j);
    }
}

/// Round trip between the renderer and the parser: a rendered success body
/// parses back to exactly the rendered value.
pub proof fn lemma_count_body_round_trip(v: int)
    requires
        -0x8000000000000000 <= v <= 0x7fffffffffffffff,
    ensures
        count_body_int(count_body_bytes(v)) == Some(v),
{
    let s = count_body_bytes(v);
    let digs = int_digits(v);
    let m: nat = if v < 0 {
        (-v) as nat
    } else {
        v as nat
    };
    lemma_dec_digits_shape(m);
    let ds: int = if v < 0 {
        10
    } else {
        9
    };
    let de: int = ds + dec_digits(m).len() as int;
    assert(s.len() == de + 1);
    assert(s[0] == ('{' as u8));
    assert(next_token(s, 0) == 0);
    assert(next_token(s, 1) == 1);
    assert(s.subrange(1, 8) =~= key_token());
    assert(s[8] == (':' as u8));
    assert(next_token(s, 8) == 8);
    if v < 0 {
        assert(s[9] == ('-' as u8));
        assert(!is_ws(s[9]));
        assert(next_token(s, 9) == 9);
    } else {
        assert(s[9] == dec_digits(m)[0]);
        assert(is_digit(s[9]));
        assert(next_token(s, 9) == 9);
        assert(s[9] != ('-' as u8));
    }
    assert(s.subrange(ds, de) =~= dec_digits(m));
    assert forall|k: int| ds <= k < de implies is_digit(s[k]) by {
        assert(s[k] == s.subrange(ds, de)[k - ds]);
    }
    assert(s[de] == ('}' as u8));
    assert(!is_digit(s[de]));
    lemma_digits_end_region(s, ds, de);
    assert(s[ds] == dec_digits(m)[0]);
    if m == 0 {
        assert(de == ds + 1);
    } else {
        assert(s[ds] != 0x30);
    }
    lemma_digits_value_of_dec(s, ds, m);
    assert(digits_value(s, ds, de) == m);
    assert(next_token(s, de) == de);
    assert(next_token(s, de + 1) == s.len());
}

/// Returns the index of the first byte at or after `start` that is not JSON
/// whitespace.
fn skip_ws(s: &[u8], start: usize) -> (r: usize)
    requires
        start <= s@.len(),
    ensures
        r as int == next_token(s@, start as int),
        start <= r <= s@.len(),
        r < s@.len() ==> !is_ws(s@[r as int]),
{
    let mut i: usize = start;
    while i < s.len() && ws_byte(s[i])
        invariant
            start <= i <= s@.len(),
            next_token(s@, start as int) == next_token(s@, i as int),
        decreases s@.len() - i,
    {
        i = i + 1;
    }
    i
}

/// True of the four JSON whitespace bytes.
fn ws_byte(b: u8) -> (r: bool)
    ensures
        r == is_ws(b),
{
    b == 0x20 || b == 0x09 || b == 0x0a || b == 0x0d
}

/// True of the ASCII decimal digits.
fn digit_byte(b: u8) -> (r: bool)
    ensures
        r == is_digit(b),
{
    0x30 <= b && b <= 0x39
}

/// Returns the index just past the run of decimal digits that starts at `start`.
fn skip_digits(s: &[u8], start: usize) -> (r: usize)
    requires
        start <= s@.len(),
    ensures
        r as int == digits_end(s@, start as int),
        start <= r <= s@.len(),
{
    let mut i: usize = start;
    while i < s.len() && digit_byte(s[i])
        invariant
            start <= i <= s@.len(),
            digits_end(s@, start as int) == digits_end(s@, i as int),
        decreases s@.len() - i,
    {
        i = i + 1;
    }
    i
}

/// Parses a request body. Returns `Some(v)` exactly when the body is the
/// JSON object `{"count": v}` with `v` a decimal integer in the signed
/// 64-bit range, as [`count_body_int`] states, and `None` otherwise.
pub fn parse_count_body(body: &[u8]) -> (r: Option<i64>)
    ensures
        match r {
            Some(v) => count_body_int(body@) == Some(v as int),
            None => count_body_int(body@) is None,
        },
{
    let n: usize = body.len();
    let i0: usize = skip_ws(body, 0);
    if !(i0 < n && body[i0] == ('{' as u8)) {
        return None;
    }
    let i1: usize = skip_ws(body, i0 + 1);
    if n - i1 < 7 {
        return None;
    }
    let key_ok = body[i1] == ('"' as u8) && body[i1 + 1] == ('c' as u8) && body[i1 + 2] == ('o' as u8)
        && body[i1 + 3] == ('u' as u8) && body[i1 + 4] == ('n' as u8) && body[i1 + 5] == ('t' as u8)
        && body[i1 + 6] == ('"' as u8);
    proof {
        let sub = body@.subrange(i1 as int, i1 as int + 7);
        if key_ok {
            assert(sub =~= key_token());
        } else {
            assert(sub != key_token()) by {
                if sub == key_token() {
                    assert(sub[0] == ('"' as u8) && sub[1] == ('c' as u8) && sub[2] == ('o' as u8)
                        && sub[3] == ('u' as u8) && sub[4] == ('n' as u8) && sub[5] == ('t' as u8)
                        && sub[6] == ('"' as u8));
                }
            }
        }
    }
    if !key_ok {
        return None;
    }
    let i2: usize = skip_ws(body, i1 + 7);
    if !(i2 < n && body[i2] == (':' as u8)) {
        return None;
    }
    let i3: usize = skip_ws(body, i2 + 1);
    let neg = i3 < n && body[i3] == ('-' as u8);
    let ds: usize = if neg {
        i3 + 1
    } else {
        i3
    };
    let de: usize = skip_digits(body, ds);
    proof {
        lemma_digits_end(body@, ds as int);
    }
    if de == ds {
        return None;
    }
    if body[ds] == ('0' as u8) && de > ds + 1 {
        return None;
    }
    if de - ds > 19 {
        // Too many digits without a leading zero: the value lies outside the
        // signed 64-bit range, so the body is rejected.
        proof {
            lemma_digits_value_lower(body@, ds as int, de as int);
            lemma_pow10_mono(19, (de - ds - 1) as nat);
            lemma_pow10_19();
        }
        return None;
    }
    let mut acc: u64 = 0;
    let mut k: usize = ds;
    while k < de
        invariant
            ds <= k <= de,
            de - ds <= 19,
            de as int == digits_end(body@, ds as int),
            de <= body@.len(),
            forall|m: int| ds <= m < de ==> is_digit(body@[m]),
            acc as int == digits_value(body@, ds as int, k as int),
            acc < pow10((k - ds) as nat),
        decreases de - k,
    {
        let d: u8 = body[k] - 0x30;
        proof {
            lemma_pow10_mono((k - ds) as nat, 18);
            lemma_pow10_19();
            assert(pow10(19) == 10 * pow10(18));
        }
        acc = acc * 10 + (d as u64);
        k = k + 1;
    }
    let value: i64 = if neg {
        if acc > 0x8000000000000000u64 {
            proof {
                lemma_pow10_19();
            }
            return None;
        }
        if acc == 0x8000000000000000u64 {
            i64::MIN
        } else {
            -(acc as i64)
        }
    } else {
        if acc > 0x7fffffffffffffffu64 {
            return None;
        }
        acc as i64
    };
    let i4: usize = skip_ws(body, de);
    if !(i4 < n && body[i4] == ('}' as u8)) {
        return None;
    }
    let i5: usize = skip_ws(body, i4 + 1);
    if i5 != n {
        return None;
    }
    Some(value)
}

/// The lowercase hex digit for a value below sixteen.
fn hex_digit_exec(n: u8) -> (r: u8)
    requires
        n < 16,
    ensures
        r == hex_digit(n),
{
    if n < 10 {
        n + 0x30
    } else {
        n - 10 + 0x61
    }
}

} // verus!
