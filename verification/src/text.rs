//! Byte-level text helpers shared by the classifier, the JSON codec and the
//! artifact container: decimal and hexadecimal rendering with exact
//! specifications, ASCII trimming, and thin trusted shims for the two `std`
//! string operations the library needs.

use vstd::prelude::*;

verus! {

/// Relies on `String::push`: appends exactly one character to the string.
#[verifier::external_body]
pub fn push_char(s: &mut String, c: char)
    ensures
        final(s)@ == old(s)@.push(c),
{
    s.push(c)
}

/// Relies on `String::from_utf8`: succeeds exactly on valid UTF-8 input and
/// then decodes it, as documented for `std::string::String::from_utf8`.
#[verifier::external_body]
pub fn string_from_utf8(v: Vec<u8>) -> (r: Option<String>)
    ensures
        r matches Some(s) ==> s@ == vstd::utf8::decode_utf8(v@) && vstd::utf8::valid_utf8(v@),
        r is None ==> !vstd::utf8::valid_utf8(v@),
{
    match String::from_utf8(v) {
        Ok(s) => Some(s),
        Err(_) => None,
    }
}

/// The ASCII code of the decimal digit `n`.
pub open spec fn digit_byte(n: nat) -> u8
    recommends
        n < 10,
{
    (48 + n) as u8
}

/// The ASCII decimal rendering of `n`, without leading zeros.
pub open spec fn dec_of(n: nat) -> Seq<u8>
    decreases n,
{
    if n < 10 {
        seq![digit_byte(n)]
    } else {
        dec_of(n / 10).push(digit_byte(n % 10))
    }
}

/// Renders `n` in decimal ASCII; the result is exactly `dec_of(n)`.
pub fn fmt_u64(n: u64) -> (r: Vec<u8>)
    ensures
        r@ == dec_of(n as nat),
    decreases n,
{
    if n < 10 {
        let mut v: Vec<u8> = Vec::new();
        v.push(48 + (n as u8));
        v
    } else {
        let mut v = fmt_u64(n / 10);
        v.push(48 + ((n % 10) as u8));
        v
    }
}

/// The lowercase hexadecimal digit for the nibble `n`.
pub open spec fn hex_digit_lower(n: nat) -> u8
    recommends
        n < 16,
{
    if n < 10 {
        (48 + n) as u8
    } else {
        (87 + n) as u8  // 87 + 10 = 97 = 'a'
    }
}

/// The uppercase hexadecimal digit for the nibble `n`.
pub open spec fn hex_digit_upper(n: nat) -> u8
    recommends
        n < 16,
{
    if n < 10 {
        (48 + n) as u8
    } else {
        (55 + n) as u8  // 55 + 10 = 65 = 'A'
    }
}

/// The two lowercase hexadecimal digits of the byte `b`.
pub open spec fn hex_byte_lower(b: u8) -> Seq<u8> {
    seq![hex_digit_lower((b / 16) as nat), hex_digit_lower((b % 16) as nat)]
}

/// The lowercase hexadecimal rendering of a byte sequence: two digits per
/// byte, in order.
pub open spec fn hex_of(s: Seq<u8>) -> Seq<u8>
    decreases s.len(),
{
    if s.len() == 0 {
        Seq::empty()
    } else {
        hex_byte_lower(s[0]) + hex_of(s.drop_first())
    }
}

/// Renders a byte slice in lowercase hexadecimal; the result is exactly
/// `hex_of` of the input.
pub fn hex_encode(data: &[u8]) -> (r: Vec<u8>)
    ensures
        r@ == hex_of(data@),
{
    let mut out: Vec<u8> = Vec::new();
    let mut i: usize = 0;
    while i < data.len()
        invariant
            i <= data@.len(),
            out@ == hex_of(data@.take(i as int)),
        decreases data@.len() - i,
    {
        let b = data[i];
        if b / 16 < 10 {
            out.push(48 + b / 16);
        } else {
            out.push(87 + b / 16);
        }
        if b % 16 < 10 {
            out.push(48 + b % 16);
        } else {
            out.push(87 + b % 16);
        }
        proof {
            lemma_hex_of_take_step(data@, i as int);
        }
        i = i + 1;
    }
    proof {
        assert(data@.take(data@.len() as int) =~= data@);
    }
    out
}

/// `hex_of` of one more byte extends the rendering by that byte's two digits.
proof fn lemma_hex_of_take_step(s: Seq<u8>, i: int)
    requires
        0 <= i < s.len(),
    ensures
        hex_of(s.take(i + 1)) == hex_of(s.take(i)) + hex_byte_lower(s[i]),
    decreases i,
{
    if i == 0 {
        assert(s.take(1).drop_first() =~= Seq::<u8>::empty());
        assert(hex_of(s.take(1)) =~= hex_byte_lower(s[0]) + hex_of(Seq::<u8>::empty()));
        assert(hex_of(Seq::<u8>::empty()) =~= Seq::<u8>::empty());
        assert(s.take(0) =~= Seq::<u8>::empty());
        assert(hex_of(s.take(1)) =~= hex_of(s.take(0)) + hex_byte_lower(s[0]));
    } else {
        let t = s.drop_first();
        assert(s.take(i + 1).drop_first() =~= t.take(i));
        assert(s.take(i).drop_first() =~= t.take(i - 1));
        assert(s.take(i + 1)[0] == s[0]);
        assert(s.take(i)[0] == s[0]);
        lemma_hex_of_take_step(t, i - 1);
        assert(hex_of(s.take(i + 1)) =~= hex_byte_lower(s[0]) + hex_of(t.take(i)));
        assert(hex_of(s.take(i)) =~= hex_byte_lower(s[0]) + hex_of(t.take(i - 1)));
        assert(t.take(i - 1 + 1) =~= t.take(i));
        assert(t[i - 1] == s[i]);
        assert(hex_of(s.take(i + 1)) =~= hex_of(s.take(i)) + hex_byte_lower(s[i]));
    }
}

/// True of the ASCII whitespace bytes that surrounding-whitespace trimming
/// removes.
pub open spec fn is_ascii_ws(b: u8) -> bool {
    b == 32 || b == 9 || b == 10 || b == 13
}

/// The sequence with leading ASCII whitespace removed.
pub open spec fn trim_front(s: Seq<u8>) -> Seq<u8>
    decreases s.len(),
{
    if s.len() > 0 && is_ascii_ws(s[0]) {
        trim_front(s.drop_first())
    } else {
        s
    }
}

/// The sequence with trailing ASCII whitespace removed.
pub open spec fn trim_back(s: Seq<u8>) -> Seq<u8>
    decreases s.len(),
{
    if s.len() > 0 && is_ascii_ws(s[s.len() - 1]) {
        trim_back(s.drop_last())
    } else {
        s
    }
}

/// The sequence with both leading and trailing ASCII whitespace removed.
pub open spec fn trim_bytes(s: Seq<u8>) -> Seq<u8> {
    trim_back(trim_front(s))
}

/// Removes leading and trailing ASCII whitespace; the result is exactly
/// `trim_bytes` of the input.
pub fn trim_ascii(data: &Vec<u8>) -> (r: Vec<u8>)
    ensures
        r@ == trim_bytes(data@),
{
    let ghost all = data@;
    proof {
        assert(all.skip(0) =~= all);
    }
    let mut start: usize = 0;
    while start < data.len() && is_ws_byte(data[start])
        invariant
            start <= all.len(),
            all == data@,
            trim_front(all) == trim_front(all.skip(start as int)),
        decreases all.len() - start,
    {
        proof {
            assert(all.skip(start as int).drop_first() =~= all.skip(start as int + 1));
        }
        start = start + 1;
    }
    let ghost mid = all.skip(start as int);
    proof {
        assert(mid.take(data@.len() - start as int) =~= mid);
        lemma_trim_front_no_ws_head(mid);
    }
    let mut end: usize = data.len();
    while end > start && is_ws_byte(data[end - 1])
        invariant
            start <= end <= all.len(),
            all == data@,
            mid == all.skip(start as int),
            trim_back(mid) == trim_back(mid.take(end - start as int)),
        decreases end,
    {
        proof {
            let cur = mid.take(end - start as int);
            assert(cur[cur.len() - 1] == all[end - 1]);
            assert(cur.drop_last() =~= mid.take(end - 1 - start as int));
        }
        end = end - 1;
    }
    proof {
        let fin = mid.take(end - start as int);
        if end > start {
            assert(fin[fin.len() - 1] == all[end - 1]);
        }
        lemma_trim_back_no_ws_tail(fin);
    }
    let mut out: Vec<u8> = Vec::new();
    let mut i: usize = start;
    while i < end
        invariant
            start <= i <= end <= all.len(),
            all == data@,
            out@ == all.subrange(start as int, i as int),
        decreases end - i,
    {
        out.push(data[i]);
        proof {
            assert(all.subrange(start as int, i + 1) =~= all.subrange(start as int, i as int).push(
                all[i as int],
            ));
        }
        i = i + 1;
    }
    proof {
        assert(out@ =~= mid.take(end - start as int));
    }
    out
}

/// A sequence that does not start with whitespace is unchanged by front
/// trimming.
proof fn lemma_trim_front_no_ws_head(s: Seq<u8>)
    requires
        s.len() > 0 ==> !is_ascii_ws(s[0]),
    ensures
        trim_front(s) == s,
{
}

/// A sequence that does not end with whitespace is unchanged by back trimming.
proof fn lemma_trim_back_no_ws_tail(s: Seq<u8>)
    requires
        s.len() > 0 ==> !is_ascii_ws(s[s.len() - 1]),
    ensures
        trim_back(s) == s,
{
}

/// Whether `b` is an ASCII whitespace byte; equals `is_ascii_ws`.
pub fn is_ws_byte(b: u8) -> (r: bool)
    ensures
        r == is_ascii_ws(b),
{
    b == 32 || b == 9 || b == 10 || b == 13
}

/// Builds the string whose characters are the given ASCII bytes; its UTF-8
/// encoding is exactly the input.
pub fn ascii_to_string(v: &Vec<u8>) -> (r: String)
    requires
        forall|i: int| 0 <= i < v@.len() ==> v@[i] < 128,
    ensures
        r@.len() == v@.len(),
        forall|i: int| 0 <= i < v@.len() ==> r@[i] == v@[i] as char,
        vstd::utf8::encode_utf8(r@) == v@,
{
    let mut s = String::new();
    let mut i: usize = 0;
    while i < v.len()
        invariant
            i <= v@.len(),
            forall|j: int| 0 <= j < v@.len() ==> v@[j] < 128,
            s@.len() == i,
            forall|j: int| 0 <= j < i ==> s@[j] == v@[j] as char,
        decreases v@.len() - i,
    {
        push_char(&mut s, v[i] as char);
        i = i + 1;
    }
    proof {
        assert(vstd::utf8::is_ascii_chars(s@)) by {
            assert forall|j: int| 0 <= j < s@.len() implies '\0' <= #[trigger] s@[j]
                <= '\u{7f}' by {
                assert(s@[j] == v@[j] as char);
                assert(v@[j] < 128);
            }
        }
        vstd::utf8::is_ascii_chars_encode_utf8(s@);
        assert(vstd::utf8::encode_utf8(s@) =~= v@);
    }
    s
}

/// Whether two byte slices hold the same bytes.
pub fn bytes_eq(a: &[u8], b: &[u8]) -> (r: bool)
    ensures
        r == (a@ == b@),
{
    if a.len() != b.len() {
        return false;
    }
    let mut i: usize = 0;
    while i < a.len()
        invariant
            i <= a@.len(),
            a@.len() == b@.len(),
            forall|j: int| 0 <= j < i ==> a@[j] == b@[j],
        decreases a@.len() - i,
    {
        if a[i] != b[i] {
            return false;
        }
        i = i + 1;
    }
    proof {
        assert(a@ =~= b@);
    }
    true
}

/// Front trimming keeps every byte inside the printable range.
proof fn lemma_trim_front_range(s: Seq<u8>)
    requires
        forall|i: int| 0 <= i < s.len() ==> 32 <= #[trigger] s[i] < 127,
    ensures
        forall|i: int| 0 <= i < trim_front(s).len() ==> 32 <= #[trigger] trim_front(s)[i] < 127,
    decreases s.len(),
{
    if s.len() > 0 && is_ascii_ws(s[0]) {
        assert(forall|i: int|
            0 <= i < s.drop_first().len() ==> 32 <= #[trigger] s.drop_first()[i] < 127);
        lemma_trim_front_range(s.drop_first());
        assert(trim_front(s) == trim_front(s.drop_first()));
    }
}

/// Back trimming keeps every byte inside the printable range.
proof fn lemma_trim_back_range(s: Seq<u8>)
    requires
        forall|i: int| 0 <= i < s.len() ==> 32 <= #[trigger] s[i] < 127,
    ensures
        forall|i: int| 0 <= i < trim_back(s).len() ==> 32 <= #[trigger] trim_back(s)[i] < 127,
    decreases s.len(),
{
    if s.len() > 0 && is_ascii_ws(s[s.len() - 1]) {
        assert(forall|i: int|
            0 <= i < s.drop_last().len() ==> 32 <= #[trigger] s.drop_last()[i] < 127);
        lemma_trim_back_range(s.drop_last());
        assert(trim_back(s) == trim_back(s.drop_last()));
    }
}

/// Trimming keeps every byte inside the printable range.
pub proof fn lemma_trim_preserves_range(s: Seq<u8>)
    requires
        forall|i: int| 0 <= i < s.len() ==> 32 <= #[trigger] s[i] < 127,
    ensures
        forall|i: int| 0 <= i < trim_bytes(s).len() ==> 32 <= #[trigger] trim_bytes(s)[i] < 127,
{
    lemma_trim_front_range(s);
    lemma_trim_back_range(trim_front(s));
}

/// A sequence whose first and last bytes are not whitespace is unchanged by
/// trimming.
pub proof fn lemma_trim_no_ws_ends(s: Seq<u8>)
    requires
        s.len() > 0,
        !is_ascii_ws(s[0]),
        !is_ascii_ws(s[s.len() - 1]),
    ensures
        trim_bytes(s) == s,
{
    lemma_trim_front_no_ws_head(s);
    lemma_trim_back_no_ws_tail(s);
}

/// Ten to the power `k`.
pub open spec fn ten_pow(k: nat) -> nat
    decreases k,
{
    if k == 0 {
        1
    } else {
        10 * ten_pow((k - 1) as nat)
    }
}

/// A number below `ten_pow(k)` renders in at most `k` digits.
proof fn lemma_dec_of_len_pow(n: nat, k: nat)
    requires
        k >= 1,
        n < ten_pow(k),
    ensures
        dec_of(n).len() <= k,
    decreases k,
{
    if n >= 10 {
        assert(ten_pow(k) == 10 * ten_pow((k - 1) as nat));
        assert(n / 10 < ten_pow((k - 1) as nat)) by (nonlinear_arith)
            requires
                n < 10 * ten_pow((k - 1) as nat),
        ;
        assert(ten_pow((k - 1) as nat) > 1) by {
            if k == 1 {
                assert(ten_pow(0nat) == 1);
                assert(n < 10);
            }
        }
        lemma_dec_of_len_pow(n / 10, (k - 1) as nat);
    }
}

/// Any `u64` value renders in at most twenty digits.
pub proof fn lemma_dec_of_len(n: nat)
    requires
        n <= u64::MAX,
    ensures
        dec_of(n).len() <= 20,
{
    assert(ten_pow(0) == 1);
    assert(ten_pow(1) == 10 * ten_pow(0));
    assert(ten_pow(2) == 10 * ten_pow(1));
    assert(ten_pow(3) == 10 * ten_pow(2));
    assert(ten_pow(4) == 10 * ten_pow(3));
    assert(ten_pow(5) == 10 * ten_pow(4));
    assert(ten_pow(6) == 10 * ten_pow(5));
    assert(ten_pow(7) == 10 * ten_pow(6));
    assert(ten_pow(8) == 10 * ten_pow(7));
    assert(ten_pow(9) == 10 * ten_pow(8));
    assert(ten_pow(10) == 10 * ten_pow(9));
    assert(ten_pow(11) == 10 * ten_pow(10));
    assert(ten_pow(12) == 10 * ten_pow(11));
    assert(ten_pow(13) == 10 * ten_pow(12));
    assert(ten_pow(14) == 10 * ten_pow(13));
    assert(ten_pow(15) == 10 * ten_pow(14));
    assert(ten_pow(16) == 10 * ten_pow(15));
    assert(ten_pow(17) == 10 * ten_pow(16));
    assert(ten_pow(18) == 10 * ten_pow(17));
    assert(ten_pow(19) == 10 * ten_pow(18));
    assert(ten_pow(20) == 10 * ten_pow(19));
    assert(ten_pow(20) > u64::MAX);
    lemma_dec_of_len_pow(n, 20);
}

/// A character sequence encodes to at most four bytes per character.
pub proof fn lemma_encode_utf8_len(chars: Seq<char>)
    ensures
        vstd::utf8::encode_utf8(chars).len() <= 4 * chars.len(),
    decreases chars.len(),
{
    if chars.len() > 0 {
        assert(vstd::utf8::encode_scalar(chars[0] as u32).len() <= 4);
        lemma_encode_utf8_len(chars.drop_first());
    }
}

} // verus!
