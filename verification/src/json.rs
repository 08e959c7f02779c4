//! Canonical JSON encoding shared by the five artifact payloads and the
//! counter file: objects with the fields in declared order and no spaces,
//! numbers in plain decimal, strings with `\"`, `\\` and `\u00..` escapes
//! only. The printers state exactly which bytes they produce; the parsers
//! return exactly what the spec-level parse functions yield, and parsing a
//! printed value gives the value back.

use vstd::prelude::*;

use crate::text::{dec_of, digit_byte, fmt_u64, hex_digit_lower};

verus! {

// ---------------------------------------------------------------------------
// Spec-level printers
// ---------------------------------------------------------------------------
/// The bytes of the JSON literal `true` / `false`.
pub open spec fn json_bool(b: bool) -> Seq<u8> {
    if b {
        seq![116u8, 114u8, 117u8, 101u8]
    } else {
        seq![102u8, 97u8, 108u8, 115u8, 101u8]
    }
}

/// The bytes of the JSON literal `null`.
pub open spec fn json_null() -> Seq<u8> {
    seq![110u8, 117u8, 108u8, 108u8]
}

/// The escape sequence for one byte inside a JSON string: quote and backslash
/// get a backslash escape, control bytes a `\u00..` escape, everything else
/// stands as itself.
pub open spec fn esc_byte(b: u8) -> Seq<u8> {
    if b == 34 {
        seq![92u8, 34u8]
    } else if b == 92 {
        seq![92u8, 92u8]
    } else if b < 32 {
        seq![92u8, 117u8, 48u8, 48u8, hex_digit_lower((b / 16) as nat), hex_digit_lower(
            (b % 16) as nat,
        )]
    } else {
        seq![b]
    }
}

/// The escaped form of a byte sequence inside a JSON string.
pub open spec fn esc_bytes(s: Seq<u8>) -> Seq<u8>
    decreases s.len(),
{
    if s.len() == 0 {
        Seq::empty()
    } else {
        esc_byte(s[0]) + esc_bytes(s.drop_first())
    }
}

/// The bytes of a JSON string: quote, escaped contents, quote.
pub open spec fn json_string(s: Seq<u8>) -> Seq<u8> {
    seq![34u8] + esc_bytes(s) + seq![34u8]
}

/// The bytes of an optional number: `null` or its decimal digits.
pub open spec fn json_opt_u64(o: Option<u64>) -> Seq<u8> {
    match o {
        Option::None => json_null(),
        Option::Some(n) => dec_of(n as nat),
    }
}

/// The comma-separated decimal renderings of a byte sequence.
pub open spec fn json_u8_items(s: Seq<u8>) -> Seq<u8>
    decreases s.len(),
{
    if s.len() == 0 {
        Seq::empty()
    } else if s.len() == 1 {
        dec_of(s[0] as nat)
    } else {
        dec_of(s[0] as nat) + seq![44u8] + json_u8_items(s.drop_first())
    }
}

/// The bytes of a JSON array of numbers for a byte sequence.
pub open spec fn json_u8_array(s: Seq<u8>) -> Seq<u8> {
    seq![91u8] + json_u8_items(s) + seq![93u8]
}

// ---------------------------------------------------------------------------
// Exec printers: each appends exactly the spec printer's bytes
// ---------------------------------------------------------------------------
/// Appends one byte.
pub fn emit_byte(out: &mut Vec<u8>, b: u8)
    ensures
        final(out)@ == old(out)@ + seq![b],
{
    out.push(b);
    proof {
        assert(out@ =~= old(out)@ + seq![b]);
    }
}

/// Appends the decimal rendering of `n`.
pub fn emit_u64(out: &mut Vec<u8>, n: u64)
    ensures
        final(out)@ == old(out)@ + dec_of(n as nat),
{
    let digits = fmt_u64(n);
    out.extend_from_slice(digits.as_slice());
}

/// Appends `true` or `false`.
pub fn emit_bool(out: &mut Vec<u8>, b: bool)
    ensures
        final(out)@ == old(out)@ + json_bool(b),
{
    if b {
        out.push(116);
        out.push(114);
        out.push(117);
        out.push(101);
    } else {
        out.push(102);
        out.push(97);
        out.push(108);
        out.push(115);
        out.push(101);
    }
    proof {
        assert(out@ =~= old(out)@ + json_bool(b));
    }
}

/// Appends `null` or the decimal rendering of the value.
pub fn emit_opt_u64(out: &mut Vec<u8>, o: &Option<u64>)
    ensures
        final(out)@ == old(out)@ + json_opt_u64(*o),
{
    match o {
        Option::None => {
            out.push(110);
            out.push(117);
            out.push(108);
            out.push(108);
            proof {
                assert(out@ =~= old(out)@ + json_null());
            }
        },
        Option::Some(n) => {
            emit_u64(out, *n);
        },
    }
}

/// `esc_bytes` of one more byte appends that byte's escape.
proof fn lemma_esc_bytes_take_step(s: Seq<u8>, i: int)
    requires
        0 <= i < s.len(),
    ensures
        esc_bytes(s.take(i + 1)) == esc_bytes(s.take(i)) + esc_byte(s[i]),
    decreases i,
{
    if i == 0 {
        assert(s.take(1).drop_first() =~= Seq::<u8>::empty());
        assert(s.take(0) =~= Seq::<u8>::empty());
        assert(esc_bytes(s.take(1)) =~= esc_bytes(s.take(0)) + esc_byte(s[0]));
    } else {
        let t = s.drop_first();
        assert(s.take(i + 1).drop_first() =~= t.take(i));
        assert(s.take(i).drop_first() =~= t.take(i - 1));
        assert(s.take(i + 1)[0] == s[0]);
        assert(s.take(i)[0] == s[0]);
        lemma_esc_bytes_take_step(t, i - 1);
        assert(t.take(i - 1 + 1) =~= t.take(i));
        assert(t[i - 1] == s[i]);
        assert(esc_bytes(s.take(i + 1)) =~= esc_bytes(s.take(i)) + esc_byte(s[i]));
    }
}

/// Appends a JSON string literal holding the bytes `s` (escaped as
/// `json_string` states).
pub fn emit_json_string(out: &mut Vec<u8>, s: &[u8])
    ensures
        final(out)@ == old(out)@ + json_string(s@),
{
    out.push(34);
    let ghost base = out@;
    let mut i: usize = 0;
    while i < s.len()
        invariant
            i <= s@.len(),
            out@ == base + esc_bytes(s@.take(i as int)),
        decreases s@.len() - i,
    {
        let b = s[i];
        if b == 34 {
            out.push(92);
            out.push(34);
        } else if b == 92 {
            out.push(92);
            out.push(92);
        } else if b < 32 {
            out.push(92);
            out.push(117);
            out.push(48);
            out.push(48);
            if b / 16 < 10 {
                out.push(48 + b / 16);
            } else {
                out.push(87 + b / 16);
            }
            if b % 16 < 10 {
                out.push(48 + b % 16);
            } else {
                out.push(87 + b % 16);
            }
        } else {
            out.push(b);
        }
        proof {
            lemma_esc_bytes_take_step(s@, i as int);
            assert(out@ =~= base + esc_bytes(s@.take(i + 1)));
        }
        i = i + 1;
    }
    out.push(34);
    proof {
        assert(s@.take(s@.len() as int) =~= s@);
        assert(out@ =~= old(out)@ + json_string(s@));
    }
}

/// `json_u8_items` of one more byte appends a comma (when needed) and the
/// byte's digits.
proof fn lemma_u8_items_take_step(s: Seq<u8>, i: int)
    requires
        0 <= i < s.len(),
    ensures
        i == 0 ==> json_u8_items(s.take(1)) == dec_of(s[0] as nat),
        i > 0 ==> json_u8_items(s.take(i + 1)) == json_u8_items(s.take(i)) + seq![44u8] + dec_of(
            s[i] as nat,
        ),
    decreases i,
{
    if i == 0 {
        assert(s.take(1)[0] == s[0]);
        assert(s.take(1).len() == 1);
    } else {
        let t = s.drop_first();
        assert(s.take(i + 1).drop_first() =~= t.take(i));
        assert(s.take(i).drop_first() =~= t.take(i - 1));
        assert(s.take(i + 1)[0] == s[0]);
        assert(s.take(i)[0] == s[0]);
        lemma_u8_items_take_step(t, i - 1);
        assert(t.take(i - 1 + 1) =~= t.take(i));
        assert(t[i - 1] == s[i]);
        if i == 1 {
            assert(json_u8_items(s.take(2)) =~= dec_of(s[0] as nat) + seq![44u8] + json_u8_items(
                t.take(1),
            ));
            assert(json_u8_items(s.take(1)) =~= dec_of(s[0] as nat));
            assert(json_u8_items(s.take(i + 1)) =~= json_u8_items(s.take(i)) + seq![44u8] + dec_of(
                s[i] as nat,
            ));
        } else {
            assert(json_u8_items(s.take(i + 1)) =~= dec_of(s[0] as nat) + seq![44u8]
                + json_u8_items(t.take(i)));
            assert(json_u8_items(s.take(i)) =~= dec_of(s[0] as nat) + seq![44u8] + json_u8_items(
                t.take(i - 1),
            ));
            assert(json_u8_items(s.take(i + 1)) =~= json_u8_items(s.take(i)) + seq![44u8] + dec_of(
                s[i] as nat,
            ));
        }
    }
}

/// Appends a JSON array of the byte values in `s`.
pub fn emit_u8_array(out: &mut Vec<u8>, s: &[u8])
    ensures
        final(out)@ == old(out)@ + json_u8_array(s@),
{
    out.push(91);
    let ghost base = out@;
    let mut i: usize = 0;
    while i < s.len()
        invariant
            i <= s@.len(),
            out@ == base + json_u8_items(s@.take(i as int)),
        decreases s@.len() - i,
    {
        if i > 0 {
            out.push(44);
        }
        emit_u64(out, s[i] as u64);
        proof {
            lemma_u8_items_take_step(s@, i as int);
            if i == 0 {
                assert(json_u8_items(s@.take(0)) =~= Seq::<u8>::empty());
                assert(out@ =~= base + json_u8_items(s@.take(1)));
            } else {
                assert(out@ =~= base + json_u8_items(s@.take(i + 1)));
            }
        }
        i = i + 1;
    }
    out.push(93);
    proof {
        assert(s@.take(s@.len() as int) =~= s@);
        assert(out@ =~= old(out)@ + json_u8_array(s@));
    }
}

// ---------------------------------------------------------------------------
// Spec-level parsers
// ---------------------------------------------------------------------------
/// Whether `b` is an ASCII decimal digit.
pub open spec fn is_digit(b: u8) -> bool {
    48 <= b <= 57
}

/// The position of the first non-digit byte at or after `i`.
pub open spec fn digits_end(s: Seq<u8>, i: int) -> int
    decreases s.len() - i,
{
    if 0 <= i < s.len() && is_digit(s[i]) {
        digits_end(s, i + 1)
    } else {
        i
    }
}

/// The value of the digit run `s[i..j]`, read left to right.
pub open spec fn digits_val(s: Seq<u8>, i: int, j: int) -> nat
    decreases j - i,
{
    if i < j {
        digits_val(s, i, j - 1) * 10 + (s[j - 1] - 48) as nat
    } else {
        0
    }
}

/// Parses a canonical decimal `u64` at `i`: at least one digit, no leading
/// zero, value within `u64`. Yields the value and the next position.
pub open spec fn parse_u64_at(s: Seq<u8>, i: int) -> Option<(u64, int)> {
    let j = digits_end(s, i);
    if j == i {
        Option::None
    } else if s[i] == 48 && j > i + 1 {
        Option::None
    } else if digits_val(s, i, j) > u64::MAX {
        Option::None
    } else {
        Option::Some((digits_val(s, i, j) as u64, j))
    }
}

/// Parses the exact byte sequence `lit` at `i`; yields the next position.
pub open spec fn parse_lit_at(s: Seq<u8>, i: int, lit: Seq<u8>) -> Option<int> {
    if 0 <= i && i + lit.len() <= s.len() && s.subrange(i, i + lit.len() as int) == lit {
        Option::Some(i + lit.len() as int)
    } else {
        Option::None
    }
}

/// Parses `true` or `false` at `i`.
pub open spec fn parse_bool_at(s: Seq<u8>, i: int) -> Option<(bool, int)> {
    match parse_lit_at(s, i, json_bool(true)) {
        Option::Some(j) => Option::Some((true, j)),
        Option::None => match parse_lit_at(s, i, json_bool(false)) {
            Option::Some(j) => Option::Some((false, j)),
            Option::None => Option::None,
        },
    }
}

/// Parses `null` or a canonical `u64` at `i`.
pub open spec fn parse_opt_u64_at(s: Seq<u8>, i: int) -> Option<(Option<u64>, int)> {
    match parse_lit_at(s, i, json_null()) {
        Option::Some(j) => Option::Some((Option::None, j)),
        Option::None => match parse_u64_at(s, i) {
            Option::Some((n, j)) => Option::Some((Option::Some(n), j)),
            Option::None => Option::None,
        },
    }
}

/// Prepends `p` to the parsed bytes of a string-body result.
pub open spec fn prepend_bytes(p: Seq<u8>, o: Option<(Seq<u8>, int)>) -> Option<(Seq<u8>, int)> {
    match o {
        Option::Some((r, j)) => Option::Some((p + r, j)),
        Option::None => Option::None,
    }
}

/// Parses the body of a JSON string from `i` up to and over the closing
/// quote, undoing the escapes that `esc_byte` introduces and refusing raw
/// control bytes and unknown escapes.
pub open spec fn parse_str_body(s: Seq<u8>, i: int) -> Option<(Seq<u8>, int)>
    decreases s.len() - i,
{
    if !(0 <= i < s.len()) {
        Option::None
    } else if s[i] == 34 {
        Option::Some((Seq::empty(), i + 1))
    } else if s[i] == 92 {
        if i + 1 < s.len() && (s[i + 1] == 34 || s[i + 1] == 92) {
            prepend_bytes(seq![s[i + 1]], parse_str_body(s, i + 2))
        } else if i + 5 < s.len() && s[i + 1] == 117 && s[i + 2] == 48 && s[i + 3] == 48
            && is_hex_lower(s[i + 4]) && is_hex_lower(s[i + 5]) && hex_val(s[i + 4]) * 16 + hex_val(
            s[i + 5],
        ) < 32 {
            prepend_bytes(
                seq![(hex_val(s[i + 4]) * 16 + hex_val(s[i + 5])) as u8],
                parse_str_body(s, i + 6),
            )
        } else {
            Option::None
        }
    } else if s[i] < 32 {
        Option::None
    } else {
        prepend_bytes(seq![s[i]], parse_str_body(s, i + 1))
    }
}

/// Whether `b` is a lowercase hexadecimal digit.
pub open spec fn is_hex_lower(b: u8) -> bool {
    (48 <= b <= 57) || (97 <= b <= 102)
}

/// The nibble value of a lowercase hexadecimal digit.
pub open spec fn hex_val(b: u8) -> nat {
    if 48 <= b <= 57 {
        (b - 48) as nat
    } else if 97 <= b <= 102 {
        (b - 87) as nat
    } else {
        0
    }
}

/// Parses a complete JSON string (both quotes) at `i`.
pub open spec fn parse_string_at(s: Seq<u8>, i: int) -> Option<(Seq<u8>, int)> {
    if 0 <= i < s.len() && s[i] == 34 {
        parse_str_body(s, i + 1)
    } else {
        Option::None
    }
}

/// Parses the remainder of a byte array after its first element: either the
/// closing bracket or a comma and another element.
pub open spec fn parse_u8_items_rest(s: Seq<u8>, i: int) -> Option<(Seq<u8>, int)>
    decreases s.len() - i,
{
    if !(0 <= i < s.len()) {
        Option::None
    } else if s[i] == 93 {
        Option::Some((Seq::empty(), i + 1))
    } else if s[i] == 44 {
        match parse_u64_at(s, i + 1) {
            Option::Some((n, j)) => {
                if n <= 255 && j > i + 1 && j <= s.len() {
                    prepend_bytes(seq![n as u8], parse_u8_items_rest(s, j))
                } else {
                    Option::None
                }
            },
            Option::None => Option::None,
        }
    } else {
        Option::None
    }
}

/// Parses a JSON array of byte values at `i`.
pub open spec fn parse_u8_array_at(s: Seq<u8>, i: int) -> Option<(Seq<u8>, int)> {
    if !(0 <= i < s.len() && s[i] == 91) {
        Option::None
    } else if i + 1 < s.len() && s[i + 1] == 93 {
        Option::Some((Seq::empty(), i + 2))
    } else {
        match parse_u64_at(s, i + 1) {
            Option::Some((n, j)) => {
                if n <= 255 {
                    prepend_bytes(seq![n as u8], parse_u8_items_rest(s, j))
                } else {
                    Option::None
                }
            },
            Option::None => Option::None,
        }
    }
}

// ---------------------------------------------------------------------------
// Exec parsers: each returns exactly what the spec parser yields
// ---------------------------------------------------------------------------
/// The value of a longer digit run is at least the value of its prefix run.
proof fn lemma_digits_val_monotone(s: Seq<u8>, i: int, j: int, k: int)
    requires
        i <= j <= k,
    ensures
        digits_val(s, i, j) <= digits_val(s, i, k),
    decreases k - j,
{
    if j < k {
        lemma_digits_val_monotone(s, i, j, k - 1);
        assert(digits_val(s, i, k) == digits_val(s, i, k - 1) * 10 + (s[k - 1] - 48) as nat);
        assert(digits_val(s, i, k - 1) * 10 >= digits_val(s, i, k - 1)) by (nonlinear_arith);
    }
}

/// Between `i` and `digits_end(s, i)` every byte is a digit, and the end does
/// not move when computed from an intermediate position.
proof fn lemma_digits_end_props(s: Seq<u8>, i: int)
    requires
        0 <= i <= s.len(),
    ensures
        i <= digits_end(s, i) <= s.len(),
        forall|k: int| i <= k < digits_end(s, i) ==> is_digit(s[k]),
        digits_end(s, i) < s.len() ==> !is_digit(s[digits_end(s, i)]),
    decreases s.len() - i,
{
    if i < s.len() && is_digit(s[i]) {
        lemma_digits_end_props(s, i + 1);
    }
}

/// `digits_end` from an inner digit position agrees with the outer run.
proof fn lemma_digits_end_mid(s: Seq<u8>, i: int, k: int)
    requires
        0 <= i <= k <= s.len(),
        forall|m: int| i <= m < k ==> is_digit(s[m]),
    ensures
        digits_end(s, i) == digits_end(s, k),
    decreases k - i,
{
    if i < k {
        assert(is_digit(s[i]));
        lemma_digits_end_mid(s, i + 1, k);
    }
}

/// Parses a canonical decimal `u64`; returns exactly `parse_u64_at`.
pub fn parse_u64(s: &[u8], i: usize) -> (r: Option<(u64, usize)>)
    requires
        i <= s@.len(),
    ensures
        r matches Some((n, j)) ==> parse_u64_at(s@, i as int) == Some((n, j as int)) && i < j
            <= s@.len(),
        r is None ==> parse_u64_at(s@, i as int) is None,
{
    proof {
        lemma_digits_end_props(s@, i as int);
    }
    let ghost e = digits_end(s@, i as int);
    if i >= s.len() || !(48 <= s[i] && s[i] <= 57) {
        return None;
    }
    let first = s[i];
    let mut j: usize = i;
    let mut val: u64 = 0;
    let mut overflow: bool = false;
    while j < s.len() && 48 <= s[j] && s[j] <= 57
        invariant
            i <= j <= s@.len(),
            e == digits_end(s@, i as int),
            j <= e,
            forall|m: int| i <= m < j ==> is_digit(s@[m]),
            !overflow ==> val == digits_val(s@, i as int, j as int),
            overflow ==> digits_val(s@, i as int, j as int) > u64::MAX,
            j < e ==> is_digit(s@[j as int]),
        decreases s@.len() - j,
    {
        let d = s[j] - 48;
        proof {
            assert(digits_val(s@, i as int, j + 1) == digits_val(s@, i as int, j as int) * 10 + (
            s@[j as int] - 48) as nat);
        }
        if overflow {
            proof {
                lemma_digits_val_monotone(s@, i as int, j as int, j + 1);
                assert(digits_val(s@, i as int, j as int) * 10 >= digits_val(
                    s@,
                    i as int,
                    j as int,
                )) by (nonlinear_arith);
            }
        } else {
            if val > 1844674407370955161u64 || (val == 1844674407370955161u64 && d > 5) {
                overflow = true;
                proof {
                    assert(digits_val(s@, i as int, j + 1) > u64::MAX) by (nonlinear_arith)
                        requires
                            digits_val(s@, i as int, j + 1) == digits_val(s@, i as int, j as int)
                                * 10 + (s@[j as int] - 48) as nat,
                            digits_val(s@, i as int, j as int) == val,
                            (s@[j as int] - 48) as nat == d as nat,
                            val > 1844674407370955161u64 || (val == 1844674407370955161u64 && d
                                > 5),
                            d <= 9,
                    ;
                }
            } else {
                val = val * 10 + (d as u64);
            }
        }
        proof {
            assert(j + 1 <= e) by {
                lemma_digits_end_props(s@, i as int);
                if j + 1 > e {
                    assert(j as int >= e);
                }
            }
            if j + 1 < e {
                lemma_digits_end_props(s@, i as int);
            }
        }
        j = j + 1;
    }
    proof {
        assert(j as int == e) by {
            lemma_digits_end_props(s@, i as int);
            if (j as int) < e {
                assert(is_digit(s@[j as int]));
            }
        }
    }
    if overflow {
        return None;
    }
    if first == 48 && j > i + 1 {
        return None;
    }
    Some((val, j))
}

/// Parses an exact literal; returns exactly `parse_lit_at`.
pub fn parse_lit(s: &[u8], i: usize, lit: &[u8]) -> (r: Option<usize>)
    requires
        i <= s@.len(),
    ensures
        r matches Some(j) ==> parse_lit_at(s@, i as int, lit@) == Some(j as int) && i <= j
            <= s@.len() && j == i + lit@.len(),
        r is None ==> parse_lit_at(s@, i as int, lit@) is None,
{
    if s.len() - i < lit.len() {
        return None;
    }
    let mut k: usize = 0;
    while k < lit.len()
        invariant
            k <= lit@.len(),
            i + lit@.len() <= s@.len(),
            s@.len() <= usize::MAX,
            forall|m: int| 0 <= m < k ==> s@[i + m] == lit@[m],
        decreases lit@.len() - k,
    {
        if s[i + k] != lit[k] {
            proof {
                assert(s@.subrange(i as int, i + lit@.len() as int)[k as int] != lit@[k as int]);
            }
            return None;
        }
        k = k + 1;
    }
    proof {
        assert(s@.subrange(i as int, i + lit@.len() as int) =~= lit@);
    }
    Some(i + lit.len())
}

/// Parses `true` or `false`; returns exactly `parse_bool_at`.
pub fn parse_bool(s: &[u8], i: usize) -> (r: Option<(bool, usize)>)
    requires
        i <= s@.len(),
    ensures
        r matches Some((b, j)) ==> parse_bool_at(s@, i as int) == Some((b, j as int)) && i < j
            <= s@.len(),
        r is None ==> parse_bool_at(s@, i as int) is None,
{
    let t: [u8; 4] = [116, 114, 117, 101];
    let f: [u8; 5] = [102, 97, 108, 115, 101];
    proof {
        assert(t@ =~= json_bool(true));
        assert(f@ =~= json_bool(false));
    }
    match parse_lit(s, i, t.as_slice()) {
        Some(j) => Some((true, j)),
        None => {
            match parse_lit(s, i, f.as_slice()) {
                Some(j) => Some((false, j)),
                None => None,
            }
        },
    }
}

/// Parses `null` or a number; returns exactly `parse_opt_u64_at`.
pub fn parse_opt_u64(s: &[u8], i: usize) -> (r: Option<(Option<u64>, usize)>)
    requires
        i <= s@.len(),
    ensures
        r matches Some((o, j)) ==> parse_opt_u64_at(s@, i as int) == Some((o, j as int)) && i < j
            <= s@.len(),
        r is None ==> parse_opt_u64_at(s@, i as int) is None,
{
    let nl: [u8; 4] = [110, 117, 108, 108];
    proof {
        assert(nl@ =~= json_null());
    }
    match parse_lit(s, i, nl.as_slice()) {
        Some(j) => Some((None, j)),
        None => {
            match parse_u64(s, i) {
                Some((n, j)) => Some((Some(n), j)),
                None => None,
            }
        },
    }
}

/// Composing prefix prepends is concatenation.
proof fn lemma_prepend_compose(a: Seq<u8>, b: Seq<u8>, o: Option<(Seq<u8>, int)>)
    ensures
        prepend_bytes(a, prepend_bytes(b, o)) == prepend_bytes(a + b, o),
{
    match o {
        Option::Some((r, j)) => {
            assert(a + (b + r) =~= (a + b) + r);
        },
        Option::None => {},
    }
}

/// Parses a complete JSON string; returns exactly `parse_string_at`, with the
/// contents as plain bytes.
pub fn parse_string(s: &[u8], i: usize) -> (r: Option<(Vec<u8>, usize)>)
    requires
        i <= s@.len(),
    ensures
        r matches Some((v, j)) ==> parse_string_at(s@, i as int) == Some((v@, j as int)) && i < j
            <= s@.len(),
        r is None ==> parse_string_at(s@, i as int) is None,
{
    if i >= s.len() || s[i] != 34 {
        return None;
    }
    let mut out: Vec<u8> = Vec::new();
    let mut cur: usize = i + 1;
    loop
        invariant
            i + 1 <= cur <= s@.len(),
            parse_str_body(s@, i + 1) == prepend_bytes(out@, parse_str_body(s@, cur as int)),
        ensures
            parse_str_body(s@, i + 1) == prepend_bytes(out@, parse_str_body(s@, cur as int)),
            cur < s@.len() ==> s@[cur as int] == 34 && parse_str_body(s@, cur as int) == Some(
                (Seq::<u8>::empty(), cur + 1),
            ),
            cur >= s@.len() ==> parse_str_body(s@, cur as int) is None,
        decreases s@.len() - cur,
    {
        if cur >= s.len() {
            break ;
        }
        let b = s[cur];
        if b == 34 {
            break ;
        } else if b == 92 {
            if s.len() - cur > 1 && (s[cur + 1] == 34 || s[cur + 1] == 92) {
                proof {
                    lemma_prepend_compose(out@, seq![s@[cur + 1]], parse_str_body(s@, cur + 2));
                    assert(out@ + seq![s@[cur + 1]] =~= out@.push(s@[cur + 1]));
                }
                out.push(s[cur + 1]);
                cur = cur + 2;
            } else if s.len() - cur > 5 && s[cur + 1] == 117 && s[cur + 2] == 48 && s[cur + 3]
                == 48 && is_hex_lower_ex(s[cur + 4]) && is_hex_lower_ex(s[cur + 5]) && hex_val_ex(
                s[cur + 4],
            ) * 16 + hex_val_ex(s[cur + 5]) < 32 {
                let v = hex_val_ex(s[cur + 4]) * 16 + hex_val_ex(s[cur + 5]);
                proof {
                    lemma_prepend_compose(out@, seq![v], parse_str_body(s@, cur + 6));
                    assert(out@ + seq![v] =~= out@.push(v));
                }
                out.push(v);
                cur = cur + 6;
            } else {
                return None;
            }
        } else if b < 32 {
            return None;
        } else {
            proof {
                lemma_prepend_compose(out@, seq![b], parse_str_body(s@, cur + 1));
                assert(out@ + seq![b] =~= out@.push(b));
            }
            out.push(b);
            cur = cur + 1;
        }
    }
    if cur < s.len() {
        proof {
            assert(parse_str_body(s@, cur as int) == Some((Seq::<u8>::empty(), cur + 1)));
            assert(out@ + Seq::<u8>::empty() =~= out@);
        }
        Some((out, cur + 1))
    } else {
        None
    }
}

/// Whether `b` is a lowercase hexadecimal digit; equals `is_hex_lower`.
fn is_hex_lower_ex(b: u8) -> (r: bool)
    ensures
        r == is_hex_lower(b),
{
    (48 <= b && b <= 57) || (97 <= b && b <= 102)
}

/// The nibble value of a lowercase hexadecimal digit; equals `hex_val`.
fn hex_val_ex(b: u8) -> (r: u8)
    requires
        is_hex_lower(b),
    ensures
        r as nat == hex_val(b),
        r < 16,
{
    if 48 <= b && b <= 57 {
        b - 48
    } else {
        b - 87
    }
}

/// Parses a JSON array of byte values; returns exactly `parse_u8_array_at`.
pub fn parse_u8_array(s: &[u8], i: usize) -> (r: Option<(Vec<u8>, usize)>)
    requires
        i <= s@.len(),
    ensures
        r matches Some((v, j)) ==> parse_u8_array_at(s@, i as int) == Some((v@, j as int)) && i < j
            <= s@.len(),
        r is None ==> parse_u8_array_at(s@, i as int) is None,
{
    if i >= s.len() || s[i] != 91 {
        return None;
    }
    if i + 1 < s.len() && s[i + 1] == 93 {
        return Some((Vec::new(), i + 2));
    }
    let mut out: Vec<u8> = Vec::new();
    let mut cur: usize = 0;
    match parse_u64(s, i + 1) {
        Some((n, j)) => {
            if n <= 255 {
                out.push(n as u8);
                cur = j;
                proof {
                    assert(out@ =~= seq![n as u8]);
                }
            } else {
                return None;
            }
        },
        None => {
            return None;
        },
    }
    loop
        invariant
            i + 1 < cur <= s@.len(),
            parse_u8_array_at(s@, i as int) == prepend_bytes(
                out@,
                parse_u8_items_rest(s@, cur as int),
            ),
        ensures
            parse_u8_array_at(s@, i as int) == prepend_bytes(
                out@,
                parse_u8_items_rest(s@, cur as int),
            ),
            cur < s@.len() ==> s@[cur as int] == 93 && parse_u8_items_rest(s@, cur as int) == Some(
                (Seq::<u8>::empty(), cur + 1),
            ),
            cur >= s@.len() ==> parse_u8_items_rest(s@, cur as int) is None,
        decreases s@.len() - cur,
    {
        if cur >= s.len() {
            break ;
        }
        let b = s[cur];
        if b == 93 {
            break ;
        } else if b == 44 {
            match parse_u64(s, cur + 1) {
                Some((n, j)) => {
                    if n <= 255 {
                        proof {
                            lemma_prepend_compose(
                                out@,
                                seq![n as u8],
                                parse_u8_items_rest(s@, j as int),
                            );
                            assert(out@ + seq![n as u8] =~= out@.push(n as u8));
                        }
                        out.push(n as u8);
                        cur = j;
                    } else {
                        return None;
                    }
                },
                None => {
                    return None;
                },
            }
        } else {
            return None;
        }
    }
    if cur < s.len() {
        proof {
            assert(out@ + Seq::<u8>::empty() =~= out@);
        }
        Some((out, cur + 1))
    } else {
        None
    }
}

// ---------------------------------------------------------------------------
// Exactness lemmas: parsing a printed value yields the value back
// ---------------------------------------------------------------------------
/// When `w` stands at `i` in `s`, the byte at offset `k` is `w[k]`.
pub proof fn lemma_seq_prefix_index(s: Seq<u8>, i: int, w: Seq<u8>, k: int)
    requires
        0 <= i,
        0 <= k < w.len(),
        i + w.len() <= s.len(),
        s.subrange(i, i + w.len() as int) == w,
    ensures
        s[i + k] == w[k],
{
    assert(s.subrange(i, i + w.len() as int)[k] == w[k]);
}

/// When `w` stands at `i` in `s`, any part of `w` stands at its offset.
pub proof fn lemma_seq_prefix_sub(s: Seq<u8>, i: int, w: Seq<u8>, a: int, b: int)
    requires
        0 <= i,
        0 <= a <= b <= w.len(),
        i + w.len() <= s.len(),
        s.subrange(i, i + w.len() as int) == w,
    ensures
        s.subrange(i + a, i + b) == w.subrange(a, b),
{
    assert forall|k: int| 0 <= k < b - a implies s.subrange(i + a, i + b)[k] == w.subrange(a, b)[k] by {
        lemma_seq_prefix_index(s, i, w, a + k);
    }
    assert(s.subrange(i + a, i + b) =~= w.subrange(a, b));
}

/// A literal standing at `i` parses to the position after it.
pub proof fn lemma_parse_lit_exact(s: Seq<u8>, i: int, lit: Seq<u8>)
    requires
        0 <= i,
        i + lit.len() <= s.len(),
        s.subrange(i, i + lit.len() as int) == lit,
    ensures
        parse_lit_at(s, i, lit) == Some(i + lit.len() as int),
{
}

/// Every byte of `dec_of(n)` is a digit, the rendering is nonempty, and it
/// starts with `0` only for zero itself.
pub proof fn lemma_dec_of_props(n: nat)
    ensures
        dec_of(n).len() >= 1,
        forall|k: int| 0 <= k < dec_of(n).len() ==> is_digit(#[trigger] dec_of(n)[k]),
        dec_of(n)[0] == 48 <==> n == 0,
        n == 0 ==> dec_of(n).len() == 1,
    decreases n,
{
    if n >= 10 {
        lemma_dec_of_props(n / 10);
        assert(n / 10 > 0);
        assert(dec_of(n) == dec_of(n / 10).push(digit_byte(n % 10)));
        assert(dec_of(n)[0] == dec_of(n / 10)[0]);
        assert forall|k: int| 0 <= k < dec_of(n).len() implies is_digit(#[trigger] dec_of(n)[k]) by {
            if k < dec_of(n / 10).len() {
                assert(dec_of(n)[k] == dec_of(n / 10)[k]);
            } else {
                assert(dec_of(n)[k] == digit_byte(n % 10));
            }
        }
    }
}

/// A digit run that spells `dec_of(n)` has value `n`.
pub proof fn lemma_digits_val_of_dec(s: Seq<u8>, i: int, n: nat)
    requires
        0 <= i,
        i + dec_of(n).len() <= s.len(),
        s.subrange(i, i + dec_of(n).len() as int) == dec_of(n),
    ensures
        digits_val(s, i, i + dec_of(n).len() as int) == n,
    decreases n,
{
    let d = dec_of(n);
    let l = d.len() as int;
    if n < 10 {
        lemma_seq_prefix_index(s, i, d, 0);
        assert(s[i] == digit_byte(n));
        assert(digits_val(s, i, i + 1) == digits_val(s, i, i) * 10 + (s[i + 1 - 1] - 48) as nat);
        assert(digits_val(s, i, i + 1) == n);
    } else {
        let dp = dec_of(n / 10);
        let lp = dp.len() as int;
        assert(d == dp.push(digit_byte(n % 10)));
        assert(l == lp + 1);
        lemma_seq_prefix_sub(s, i, d, 0, lp);
        assert(d.subrange(0, lp) =~= dp);
        lemma_digits_val_of_dec(s, i, n / 10);
        lemma_seq_prefix_index(s, i, d, l - 1);
        assert(s[i + (l - 1)] == digit_byte(n % 10));
        assert(digits_val(s, i, i + l) == digits_val(s, i, i + l - 1) * 10 + (s[i + l - 1]
            - 48) as nat);
        assert((s[i + l - 1] - 48) as nat == n % 10);
        assert(digits_val(s, i, i + l) == (n / 10) * 10 + n % 10);
        assert((n / 10) * 10 + n % 10 == n) by (nonlinear_arith);
    }
}

/// The digit run starting at `i` ends exactly at `j` when `[i, j)` are digits
/// and `j` is not.
pub proof fn lemma_digits_end_exact(s: Seq<u8>, i: int, j: int)
    requires
        0 <= i <= j <= s.len(),
        forall|m: int| i <= m < j ==> is_digit(#[trigger] s[m]),
        j < s.len() ==> !is_digit(s[j]),
    ensures
        digits_end(s, i) == j,
    decreases j - i,
{
    if i < j {
        assert(is_digit(s[i]));
        lemma_digits_end_exact(s, i + 1, j);
    }
}

/// A canonical decimal rendering standing at `i`, not followed by another
/// digit, parses to its value.
pub proof fn lemma_parse_u64_exact(s: Seq<u8>, i: int, n: u64)
    requires
        0 <= i,
        i + dec_of(n as nat).len() <= s.len(),
        s.subrange(i, i + dec_of(n as nat).len() as int) == dec_of(n as nat),
        i + dec_of(n as nat).len() < s.len() ==> !is_digit(s[i + dec_of(n as nat).len() as int]),
    ensures
        parse_u64_at(s, i) == Some((n, i + dec_of(n as nat).len() as int)),
{
    let d = dec_of(n as nat);
    let l = d.len() as int;
    lemma_dec_of_props(n as nat);
    assert forall|m: int| i <= m < i + l implies is_digit(#[trigger] s[m]) by {
        lemma_seq_prefix_index(s, i, d, m - i);
    }
    lemma_digits_end_exact(s, i, i + l);
    lemma_digits_val_of_dec(s, i, n as nat);
    lemma_seq_prefix_index(s, i, d, 0);
    assert(s[i] == d[0]);
    if s[i] == 48 {
        assert(n == 0);
        assert(l == 1);
    }
}

/// A `null` or decimal rendering of an optional value, not followed by a
/// digit, parses back to the value.
pub proof fn lemma_parse_opt_u64_exact(s: Seq<u8>, i: int, o: Option<u64>)
    requires
        0 <= i,
        i + json_opt_u64(o).len() <= s.len(),
        s.subrange(i, i + json_opt_u64(o).len() as int) == json_opt_u64(o),
        i + json_opt_u64(o).len() < s.len() ==> !is_digit(s[i + json_opt_u64(o).len() as int]),
    ensures
        parse_opt_u64_at(s, i) == Some((o, i + json_opt_u64(o).len() as int)),
{
    match o {
        Option::None => {
            lemma_parse_lit_exact(s, i, json_null());
        },
        Option::Some(n) => {
            lemma_dec_of_props(n as nat);
            lemma_seq_prefix_index(s, i, json_opt_u64(o), 0);
            assert(s[i] == dec_of(n as nat)[0]);
            assert(is_digit(s[i]));
            assert(parse_lit_at(s, i, json_null()) is None) by {
                if i + 4 <= s.len() && s.subrange(i, i + 4) == json_null() {
                    assert(s.subrange(i, i + 4)[0] == 110);
                }
            }
            lemma_parse_u64_exact(s, i, n);
        },
    }
}

/// A `true` or `false` literal standing at `i` parses back to the value.
pub proof fn lemma_parse_bool_exact(s: Seq<u8>, i: int, b: bool)
    requires
        0 <= i,
        i + json_bool(b).len() <= s.len(),
        s.subrange(i, i + json_bool(b).len() as int) == json_bool(b),
    ensures
        parse_bool_at(s, i) == Some((b, i + json_bool(b).len() as int)),
{
    if b {
        lemma_parse_lit_exact(s, i, json_bool(true));
    } else {
        assert(parse_lit_at(s, i, json_bool(true)) is None) by {
            lemma_seq_prefix_index(s, i, json_bool(false), 0);
            assert(s[i] == 102);
            if i + 4 <= s.len() && s.subrange(i, i + 4) == json_bool(true) {
                assert(s.subrange(i, i + 4)[0] == 116);
            }
        }
        lemma_parse_lit_exact(s, i, json_bool(false));
    }
}

/// The nibble digits that the escaper writes read back as the nibble.
proof fn lemma_hex_digit_lower_val(x: nat)
    requires
        x < 16,
    ensures
        is_hex_lower(hex_digit_lower(x)),
        hex_val(hex_digit_lower(x)) == x,
{
}

/// A string body (escaped contents and closing quote) standing at `i` parses
/// back to the contents.
proof fn lemma_parse_str_body_exact(s: Seq<u8>, i: int, b: Seq<u8>)
    requires
        0 <= i,
        i + esc_bytes(b).len() + 1 <= s.len(),
        s.subrange(i, i + esc_bytes(b).len() + 1) == esc_bytes(b) + seq![34u8],
    ensures
        parse_str_body(s, i) == Some((b, i + esc_bytes(b).len() + 1)),
    decreases b.len(),
{
    let whole = esc_bytes(b) + seq![34u8];
    let l = esc_bytes(b).len() as int;
    if b.len() == 0 {
        lemma_seq_prefix_index(s, i, whole, 0);
        assert(s[i] == 34);
    } else {
        let b0 = b[0];
        let rest = b.drop_first();
        let e0 = esc_byte(b0);
        assert(esc_bytes(b) == e0 + esc_bytes(rest));
        let el = e0.len() as int;
        assert forall|k: int| 0 <= k < el implies s[i + k] == e0[k] by {
            lemma_seq_prefix_index(s, i, whole, k);
            assert(whole[k] == e0[k]);
        }
        assert(s.subrange(i + el, i + el + esc_bytes(rest).len() + 1) =~= esc_bytes(rest)
            + seq![34u8]) by {
            lemma_seq_prefix_sub(s, i, whole, el, l + 1);
            assert(whole.subrange(el, l + 1) =~= esc_bytes(rest) + seq![34u8]);
        }
        lemma_parse_str_body_exact(s, i + el, rest);
        if b0 == 34 || b0 == 92 {
            assert(s[i] == 92 && s[i + 1] == b0);
            assert(parse_str_body(s, i) == prepend_bytes(seq![s[i + 1]], parse_str_body(s, i + 2)));
            assert(seq![b0] + rest =~= b);
        } else if b0 < 32 {
            assert(s[i] == 92 && s[i + 1] == 117 && s[i + 2] == 48 && s[i + 3] == 48);
            assert(s[i + 4] == hex_digit_lower((b0 / 16) as nat));
            assert(s[i + 5] == hex_digit_lower((b0 % 16) as nat));
            lemma_hex_digit_lower_val((b0 / 16) as nat);
            lemma_hex_digit_lower_val((b0 % 16) as nat);
            assert(hex_val(s[i + 4]) * 16 + hex_val(s[i + 5]) == b0) by {
                assert((b0 / 16) * 16 + b0 % 16 == b0) by (nonlinear_arith);
            }
            assert(!(s[i + 1] == 34 || s[i + 1] == 92));
            assert(parse_str_body(s, i) == prepend_bytes(
                seq![(hex_val(s[i + 4]) * 16 + hex_val(s[i + 5])) as u8],
                parse_str_body(s, i + 6),
            ));
            assert(seq![b0] + rest =~= b);
        } else {
            assert(s[i + 0] == e0[0]);
            assert(s[i] == b0);
            assert(s[i] != 34 && s[i] != 92 && !(s[i] < 32));
            assert(parse_str_body(s, i) == prepend_bytes(seq![s[i]], parse_str_body(s, i + 1)));
            assert(seq![b0] + rest =~= b);
        }
    }
}

/// A complete JSON string standing at `i` parses back to its contents.
pub proof fn lemma_parse_string_exact(s: Seq<u8>, i: int, b: Seq<u8>)
    requires
        0 <= i,
        i + json_string(b).len() <= s.len(),
        s.subrange(i, i + json_string(b).len() as int) == json_string(b),
    ensures
        parse_string_at(s, i) == Some((b, i + json_string(b).len() as int)),
{
    let jl = json_string(b).len() as int;
    lemma_seq_prefix_index(s, i, json_string(b), 0);
    assert(s[i] == 34);
    assert(s.subrange(i + 1, i + 1 + esc_bytes(b).len() + 1) =~= esc_bytes(b) + seq![34u8]) by {
        lemma_seq_prefix_sub(s, i, json_string(b), 1, jl);
        assert(json_string(b).subrange(1, jl) =~= esc_bytes(b) + seq![34u8]);
    }
    lemma_parse_str_body_exact(s, i + 1, b);
}

/// The tail of a byte array rendering: for each remaining element a comma and
/// its digits, then the closing bracket.
pub open spec fn json_u8_tail(b: Seq<u8>) -> Seq<u8>
    decreases b.len(),
{
    if b.len() == 0 {
        seq![93u8]
    } else {
        seq![44u8] + dec_of(b[0] as nat) + json_u8_tail(b.drop_first())
    }
}

/// The item list followed by the closing bracket equals the first element's
/// digits followed by the tail.
proof fn lemma_items_tail(b: Seq<u8>)
    requires
        b.len() > 0,
    ensures
        json_u8_items(b) + seq![93u8] == dec_of(b[0] as nat) + json_u8_tail(b.drop_first()),
    decreases b.len(),
{
    if b.len() == 1 {
        assert(json_u8_items(b) + seq![93u8] =~= dec_of(b[0] as nat) + json_u8_tail(
            b.drop_first(),
        ));
    } else {
        let t = b.drop_first();
        lemma_items_tail(t);
        assert(json_u8_items(b) == dec_of(b[0] as nat) + seq![44u8] + json_u8_items(t));
        assert(json_u8_items(b) + seq![93u8] =~= dec_of(b[0] as nat) + (seq![44u8] + (
        json_u8_items(t) + seq![93u8])));
        assert(dec_of(b[0] as nat) + (seq![44u8] + (dec_of(t[0] as nat) + json_u8_tail(
            t.drop_first(),
        ))) =~= dec_of(b[0] as nat) + json_u8_tail(t));
    }
}

/// An array rendering is the opening bracket, the first element's digits, and
/// the tail.
pub proof fn lemma_u8_array_split(b: Seq<u8>)
    requires
        b.len() > 0,
    ensures
        json_u8_array(b) == seq![91u8] + dec_of(b[0] as nat) + json_u8_tail(b.drop_first()),
{
    lemma_items_tail(b);
    assert(json_u8_array(b) =~= seq![91u8] + (json_u8_items(b) + seq![93u8]));
    assert(seq![91u8] + (dec_of(b[0] as nat) + json_u8_tail(b.drop_first())) =~= seq![91u8]
        + dec_of(b[0] as nat) + json_u8_tail(b.drop_first()));
}

/// An array tail standing at `i` parses back to the remaining elements.
proof fn lemma_parse_u8_items_rest_exact(s: Seq<u8>, i: int, b: Seq<u8>)
    requires
        0 <= i,
        i + json_u8_tail(b).len() <= s.len(),
        s.subrange(i, i + json_u8_tail(b).len() as int) == json_u8_tail(b),
    ensures
        parse_u8_items_rest(s, i) == Some((b, i + json_u8_tail(b).len() as int)),
    decreases b.len(),
{
    let whole = json_u8_tail(b);
    let l = whole.len() as int;
    if b.len() == 0 {
        lemma_seq_prefix_index(s, i, whole, 0);
        assert(s[i] == 93);
    } else {
        let b0 = b[0];
        let rest = b.drop_first();
        let d = dec_of(b0 as nat);
        let dl = d.len() as int;
        lemma_dec_of_props(b0 as nat);
        assert(whole == seq![44u8] + d + json_u8_tail(rest));
        lemma_seq_prefix_index(s, i, whole, 0);
        assert(s[i] == 44);
        assert(s.subrange(i + 1, i + 1 + dl) =~= d) by {
            lemma_seq_prefix_sub(s, i, whole, 1, 1 + dl);
            assert(whole.subrange(1, 1 + dl) =~= d);
        }
        assert(json_u8_tail(rest).len() >= 1);
        assert(i + 1 + dl < s.len());
        assert(!is_digit(s[i + 1 + dl])) by {
            lemma_seq_prefix_index(s, i, whole, 1 + dl);
            assert(whole[1 + dl] == json_u8_tail(rest)[0]);
            if rest.len() > 0 {
                assert(json_u8_tail(rest)[0] == 44);
            }
        }
        lemma_parse_u64_exact(s, i + 1, b0 as u64);
        let j = i + 1 + dl;
        assert(s.subrange(j, j + json_u8_tail(rest).len() as int) =~= json_u8_tail(rest)) by {
            lemma_seq_prefix_sub(s, i, whole, 1 + dl, l);
            assert(whole.subrange(1 + dl, l) =~= json_u8_tail(rest));
        }
        lemma_parse_u8_items_rest_exact(s, j, rest);
        assert(parse_u8_items_rest(s, i) == prepend_bytes(seq![b0], parse_u8_items_rest(s, j)));
        assert(seq![b0] + rest =~= b);
    }
}

/// A byte-array rendering standing at `i` parses back to the bytes.
pub proof fn lemma_parse_u8_array_exact(s: Seq<u8>, i: int, b: Seq<u8>)
    requires
        0 <= i,
        i + json_u8_array(b).len() <= s.len(),
        s.subrange(i, i + json_u8_array(b).len() as int) == json_u8_array(b),
    ensures
        parse_u8_array_at(s, i) == Some((b, i + json_u8_array(b).len() as int)),
{
    let whole = json_u8_array(b);
    let l = whole.len() as int;
    lemma_seq_prefix_index(s, i, whole, 0);
    assert(s[i] == 91);
    if b.len() == 0 {
        assert(whole =~= seq![91u8, 93u8]);
        lemma_seq_prefix_index(s, i, whole, 1);
        assert(s[i + 1] == 93);
    } else {
        lemma_u8_array_split(b);
        let b0 = b[0];
        let rest = b.drop_first();
        let d = dec_of(b0 as nat);
        let dl = d.len() as int;
        lemma_dec_of_props(b0 as nat);
        lemma_seq_prefix_index(s, i, whole, 1);
        assert(whole[1] == d[0]);
        assert(s[i + 1] == d[0]);
        assert(is_digit(d[0]));
        assert(s[i + 1] != 93);
        assert(s.subrange(i + 1, i + 1 + dl) =~= d) by {
            lemma_seq_prefix_sub(s, i, whole, 1, 1 + dl);
            assert(whole.subrange(1, 1 + dl) =~= d);
        }
        assert(json_u8_tail(rest).len() >= 1);
        assert(i + 1 + dl < s.len());
        assert(!is_digit(s[i + 1 + dl])) by {
            lemma_seq_prefix_index(s, i, whole, 1 + dl);
            assert(whole[1 + dl] == json_u8_tail(rest)[0]);
            if rest.len() > 0 {
                assert(json_u8_tail(rest)[0] == 44);
            }
        }
        lemma_parse_u64_exact(s, i + 1, b0 as u64);
        let j = i + 1 + dl;
        assert(s.subrange(j, j + json_u8_tail(rest).len() as int) =~= json_u8_tail(rest)) by {
            lemma_seq_prefix_sub(s, i, whole, 1 + dl, l);
            assert(whole.subrange(1 + dl, l) =~= json_u8_tail(rest));
        }
        lemma_parse_u8_items_rest_exact(s, j, rest);
        assert(parse_u8_array_at(s, i) == prepend_bytes(seq![b0], parse_u8_items_rest(s, j)));
        assert(seq![b0] + rest =~= b);
    }
}

/// The bytes of an object key: the quoted name and the colon.
pub open spec fn jkey(name: Seq<char>) -> Seq<u8> {
    json_string(vstd::utf8::encode_utf8(name)) + seq![58u8]
}

/// Appends an object key (quoted name and colon).
pub fn emit_key(out: &mut Vec<u8>, name: &str)
    ensures
        final(out)@ == old(out)@ + jkey(name@),
{
    emit_json_string(out, name.as_bytes());
    out.push(58);
    proof {
        assert(out@ =~= old(out)@ + jkey(name@));
    }
}

/// Where each of five concatenated parts stands inside the whole.
pub proof fn lemma_concat5_parts(w: Seq<u8>, a: Seq<u8>, b: Seq<u8>, c: Seq<u8>, d: Seq<u8>, e: Seq<u8>)
    requires
        w == a + b + c + d + e,
    ensures
        w.len() == a.len() + b.len() + c.len() + d.len() + e.len(),
        w.subrange(0, a.len() as int) == a,
        w.subrange(a.len() as int, (a.len() + b.len()) as int) == b,
        w.subrange((a.len() + b.len()) as int, (a.len() + b.len() + c.len()) as int) == c,
        w.subrange(
            (a.len() + b.len() + c.len()) as int,
            (a.len() + b.len() + c.len() + d.len()) as int,
        ) == d,
        w.subrange((a.len() + b.len() + c.len() + d.len()) as int, w.len() as int) == e,
{
    assert(w.subrange(0, a.len() as int) =~= a);
    assert(w.subrange(a.len() as int, (a.len() + b.len()) as int) =~= b);
    assert(w.subrange((a.len() + b.len()) as int, (a.len() + b.len() + c.len()) as int) =~= c);
    assert(w.subrange(
        (a.len() + b.len() + c.len()) as int,
        (a.len() + b.len() + c.len() + d.len()) as int,
    ) =~= d);
    assert(w.subrange((a.len() + b.len() + c.len() + d.len()) as int, w.len() as int) =~= e);
}

/// Where each of nine concatenated parts stands inside the whole. Unused
/// positions may be empty sequences.
pub proof fn lemma_concat9_parts(
    w: Seq<u8>,
    a: Seq<u8>,
    b: Seq<u8>,
    c: Seq<u8>,
    d: Seq<u8>,
    e: Seq<u8>,
    f: Seq<u8>,
    g: Seq<u8>,
    h: Seq<u8>,
    i: Seq<u8>,
)
    requires
        w == a + b + c + d + e + f + g + h + i,
    ensures
        w.len() == a.len() + b.len() + c.len() + d.len() + e.len() + f.len() + g.len() + h.len()
            + i.len(),
        w.subrange(0, a.len() as int) == a,
        w.subrange(a.len() as int, (a.len() + b.len()) as int) == b,
        w.subrange((a.len() + b.len()) as int, (a.len() + b.len() + c.len()) as int) == c,
        w.subrange(
            (a.len() + b.len() + c.len()) as int,
            (a.len() + b.len() + c.len() + d.len()) as int,
        ) == d,
        w.subrange(
            (a.len() + b.len() + c.len() + d.len()) as int,
            (a.len() + b.len() + c.len() + d.len() + e.len()) as int,
        ) == e,
        w.subrange(
            (a.len() + b.len() + c.len() + d.len() + e.len()) as int,
            (a.len() + b.len() + c.len() + d.len() + e.len() + f.len()) as int,
        ) == f,
        w.subrange(
            (a.len() + b.len() + c.len() + d.len() + e.len() + f.len()) as int,
            (a.len() + b.len() + c.len() + d.len() + e.len() + f.len() + g.len()) as int,
        ) == g,
        w.subrange(
            (a.len() + b.len() + c.len() + d.len() + e.len() + f.len() + g.len()) as int,
            (a.len() + b.len() + c.len() + d.len() + e.len() + f.len() + g.len() + h.len()) as int,
        ) == h,
        w.subrange(
            (a.len() + b.len() + c.len() + d.len() + e.len() + f.len() + g.len() + h.len()) as int,
            w.len() as int,
        ) == i,
{
    assert(w.subrange(0, a.len() as int) =~= a);
    assert(w.subrange(a.len() as int, (a.len() + b.len()) as int) =~= b);
    assert(w.subrange((a.len() + b.len()) as int, (a.len() + b.len() + c.len()) as int) =~= c);
    assert(w.subrange(
        (a.len() + b.len() + c.len()) as int,
        (a.len() + b.len() + c.len() + d.len()) as int,
    ) =~= d);
    assert(w.subrange(
        (a.len() + b.len() + c.len() + d.len()) as int,
        (a.len() + b.len() + c.len() + d.len() + e.len()) as int,
    ) =~= e);
    assert(w.subrange(
        (a.len() + b.len() + c.len() + d.len() + e.len()) as int,
        (a.len() + b.len() + c.len() + d.len() + e.len() + f.len()) as int,
    ) =~= f);
    assert(w.subrange(
        (a.len() + b.len() + c.len() + d.len() + e.len() + f.len()) as int,
        (a.len() + b.len() + c.len() + d.len() + e.len() + f.len() + g.len()) as int,
    ) =~= g);
    assert(w.subrange(
        (a.len() + b.len() + c.len() + d.len() + e.len() + f.len() + g.len()) as int,
        (a.len() + b.len() + c.len() + d.len() + e.len() + f.len() + g.len() + h.len()) as int,
    ) =~= h);
    assert(w.subrange(
        (a.len() + b.len() + c.len() + d.len() + e.len() + f.len() + g.len() + h.len()) as int,
        w.len() as int,
    ) =~= i);
}

/// A key literal followed by a quoted string, standing at `p` and ending at
/// `e`, parses as the literal then the string contents.
pub proof fn lemma_obj_string_field(w: Seq<u8>, p: int, lit: Seq<u8>, v: Seq<u8>, e: int)
    requires
        0 <= p,
        e == p + lit.len() + json_string(v).len(),
        e <= w.len(),
        w.subrange(p, e) == lit + json_string(v),
    ensures
        parse_lit_at(w, p, lit) == Some(p + lit.len() as int),
        parse_string_at(w, p + lit.len()) == Some((v, e)),
{
    let part = lit + json_string(v);
    lemma_seq_prefix_sub(w, p, part, 0, lit.len() as int);
    assert(part.subrange(0, lit.len() as int) =~= lit);
    lemma_parse_lit_exact(w, p, lit);
    lemma_seq_prefix_sub(w, p, part, lit.len() as int, part.len() as int);
    assert(part.subrange(lit.len() as int, part.len() as int) =~= json_string(v));
    lemma_parse_string_exact(w, p + lit.len(), v);
}

/// A key literal followed by value bytes, standing at `p` and ending at `e`,
/// parses as the literal, and the value bytes stand right after it.
pub proof fn lemma_obj_value_field(w: Seq<u8>, p: int, lit: Seq<u8>, v: Seq<u8>, e: int)
    requires
        0 <= p,
        e == p + lit.len() + v.len(),
        e <= w.len(),
        w.subrange(p, e) == lit + v,
    ensures
        parse_lit_at(w, p, lit) == Some(p + lit.len() as int),
        w.subrange(p + lit.len() as int, e) == v,
{
    let part = lit + v;
    lemma_seq_prefix_sub(w, p, part, 0, lit.len() as int);
    assert(part.subrange(0, lit.len() as int) =~= lit);
    lemma_parse_lit_exact(w, p, lit);
    lemma_seq_prefix_sub(w, p, part, lit.len() as int, part.len() as int);
    assert(part.subrange(lit.len() as int, part.len() as int) =~= v);
}

/// A byte escapes to at most six bytes inside a JSON string.
pub proof fn lemma_esc_bytes_len(s: Seq<u8>)
    ensures
        esc_bytes(s).len() <= 6 * s.len(),
    decreases s.len(),
{
    if s.len() > 0 {
        lemma_esc_bytes_len(s.drop_first());
    }
}

} // verus!
