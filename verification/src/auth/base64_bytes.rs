//! Text form of the vault salt in the user store: each byte as two lower-case
//! hexadecimal digits.
use vstd::prelude::*;

use vstd::string::{StringExecFns, StringSliceAdditionalSpecFns};
use vstd::utf8::{encode_utf8, is_ascii_chars, is_ascii_chars_encode_utf8};

use crate::text::string_of;

verus! {

broadcast use vstd::string::group_string_axioms;

/// The lower-case hexadecimal digit for `n < 16`.
pub open spec fn hex_digit(n: int) -> char {
    if n < 10 {
        (('0' as int) + n) as char
    } else {
        (('a' as int) + n - 10) as char
    }
}

/// Each byte as two lower-case hex digits, most significant first.
pub open spec fn spec_hex_encode(b: Seq<u8>) -> Seq<char> {
    Seq::new(
        2 * b.len(),
        |k: int|
            if k % 2 == 0 {
                hex_digit(b[k / 2] as int / 16)
            } else {
                hex_digit(b[k / 2] as int % 16)
            },
    )
}

/// The value of an ASCII hex digit byte (either case), if it is one.
pub open spec fn hex_value(c: u8) -> Option<u8> {
    if 0x30 <= c <= 0x39 {
        Some((c - 0x30) as u8)
    } else if 0x61 <= c <= 0x66 {
        Some((c - 0x61 + 10) as u8)
    } else if 0x41 <= c <= 0x46 {
        Some((c - 0x41 + 10) as u8)
    } else {
        None
    }
}

/// What `u8::from_str_radix(.., 16)` gives for a two-byte text: two hex
/// digits, or a `+` sign followed by one.
pub open spec fn pair_value(a: u8, b: u8) -> Option<u8> {
    if a == 0x2b {
        hex_value(b)
    } else if hex_value(a) is Some && hex_value(b) is Some {
        Some((hex_value(a)->0 * 16 + hex_value(b)->0) as u8)
    } else {
        None
    }
}

/// `i` is a character boundary of the UTF-8 bytes `b` (as
/// `str::is_char_boundary` decides: the ends, or a byte that does not
/// continue a character).
pub open spec fn char_boundary(b: Seq<u8>, i: int) -> bool {
    i == 0 || i == b.len() || (0 < i < b.len() && !(0x80 <= b[i] < 0xc0))
}

/// The number of pairs decoding walks through: one per even position.
pub open spec fn pair_count(b: Seq<u8>) -> int {
    (b.len() as int + 1) / 2
}

/// Pair `k` (bytes `2k` and `2k + 1`) can be sliced out of the text.
pub open spec fn pair_sliceable(b: Seq<u8>, k: int) -> bool {
    &&& 2 * k + 2 <= b.len()
    &&& char_boundary(b, 2 * k)
    &&& char_boundary(b, 2 * k + 2)
}

/// Pair `k` can be sliced out and is a number.
pub open spec fn pair_good(b: Seq<u8>, k: int) -> bool {
    pair_sliceable(b, k) && pair_value(b[2 * k], b[2 * k + 1]) is Some
}

/// All pairs before `k` are good.
pub open spec fn good_before(b: Seq<u8>, k: int) -> bool {
    forall|j: int| 0 <= j < k ==> #[trigger] pair_good(b, j)
}

/// Decoding reaches a pair only while the pairs before it are good; every
/// pair it reaches can be sliced out, so slicing never panics.
pub open spec fn decodes_without_panic(b: Seq<u8>) -> bool {
    forall|k: int| 0 <= k < pair_count(b) && good_before(b, k) ==> #[trigger] pair_sliceable(b, k)
}

/// Every pair is good.
pub open spec fn all_pairs_valid(b: Seq<u8>) -> bool {
    forall|k: int| 0 <= k < pair_count(b) ==> #[trigger] pair_good(b, k)
}

/// The bytes that the pairs of `b` denote.
pub open spec fn spec_hex_decode(b: Seq<u8>) -> Seq<u8> {
    Seq::new((b.len() / 2) as nat, |k: int| pair_value(b[2 * k], b[2 * k + 1])->0)
}

/// The message of the error that a pair that is no number gives.
pub open spec fn invalid_digit_message() -> Seq<char> {
    "invalid digit found in string"@
}

fn hex_digit_exec(n: u8) -> (c: char)
    requires
        n < 16,
    ensures
        c == hex_digit(n as int),
{
    if n < 10 {
        ((48 + n) as char)
    } else {
        ((97 + n - 10) as char)
    }
}

/// Encodes the bytes as lower-case hex text.
pub fn serialize(bytes: &Vec<u8>) -> (s: String)
    ensures
        s@ == spec_hex_encode(bytes@),
{
    let mut out: Vec<char> = Vec::new();
    let mut i: usize = 0;
    while i < bytes.len()
        invariant
            i <= bytes@.len(),
            out@ =~= spec_hex_encode(bytes@.subrange(0, i as int)),
        decreases bytes@.len() - i,
    {
        let b = bytes[i];
        let ghost prev = bytes@.subrange(0, i as int);
        out.push(hex_digit_exec(b / 16));
        out.push(hex_digit_exec(b % 16));
        i += 1;
        proof {
            let cur = bytes@.subrange(0, i as int);
            assert forall|k: int| 0 <= k < 2 * cur.len() implies #[trigger] out@[k]
                == spec_hex_encode(cur)[k] by {
                if k < 2 * prev.len() {
                    assert(cur[k / 2] == prev[k / 2]);
                }
            }
        }
    }
    assert(bytes@.subrange(0, bytes@.len() as int) =~= bytes@);
    string_of(out.as_slice())
}

fn hex_value_exec(c: u8) -> (r: Option<u8>)
    ensures
        r == hex_value(c),
{
    if 0x30 <= c && c <= 0x39 {
        Some(c - 0x30)
    } else if 0x61 <= c && c <= 0x66 {
        Some(c - 0x61 + 10)
    } else if 0x41 <= c && c <= 0x46 {
        Some(c - 0x41 + 10)
    } else {
        None
    }
}

fn pair_value_exec(a: u8, b: u8) -> (r: Option<u8>)
    ensures
        r == pair_value(a, b),
{
    if a == 0x2b {
        return hex_value_exec(b);
    }
    match (hex_value_exec(a), hex_value_exec(b)) {
        (Some(x), Some(y)) => Some(x * 16 + y),
        _ => None,
    }
}

fn is_continuation(x: u8) -> (r: bool)
    ensures
        r == (0x80 <= x < 0xc0),
{
    0x80 <= x && x < 0xc0
}

/// Whether decoding `s` would slice a pair across the end of the text or
/// inside a character (which panics) before it meets an invalid pair.
pub fn deserialize_panics(s: &str) -> (p: bool)
    ensures
        p == !decodes_without_panic(s.spec_bytes()),
{
    let b = s.as_bytes();
    let ghost sb = s.spec_bytes();
    let n = b.len();
    let mut i: usize = 0;
    while i < n
        invariant
            b@ == sb,
            sb == s.spec_bytes(),
            n == sb.len(),
            i % 2 == 0,
            i <= n + 1,
            good_before(sb, i as int / 2),
        decreases n + 1 - i,
    {
        let k: Ghost<int> = Ghost(i as int / 2);
        assert(2 * k@ == i);
        let sliceable = n - i >= 2 && (i == 0 || !is_continuation(b[i])) && (n - i == 2
            || !is_continuation(b[i + 2]));
        assert(sliceable == pair_sliceable(sb, k@));
        if !sliceable {
            assert(!pair_sliceable(sb, k@));
            assert(k@ < pair_count(sb));
            return true;
        }
        if pair_value_exec(b[i], b[i + 1]).is_none() {
            assert(!pair_good(sb, k@));
            assert forall|j: int| 0 <= j < pair_count(sb) && good_before(sb, j) implies #[trigger] pair_sliceable(
                sb,
                j,
            ) by {
                if j < k@ {
                    assert(pair_good(sb, j));
                } else if j > k@ {
                    assert(pair_good(sb, k@));
                }
            }
            return false;
        }
        assert(pair_good(sb, k@));
        assert forall|j: int| 0 <= j < (i + 2) / 2 implies #[trigger] pair_good(sb, j) by {
            if j < k@ {
            }
        }
        i += 2;
    }
    assert forall|j: int| 0 <= j < pair_count(sb) && good_before(sb, j) implies #[trigger] pair_sliceable(
        sb,
        j,
    ) by {
        assert(j < i as int / 2);
        assert(pair_good(sb, j));
    }
    false
}

/// Decodes hex text back into bytes; fails at the first pair of characters
/// that is not a hexadecimal number.
pub fn deserialize(s: &str) -> (res: Result<Vec<u8>, String>)
    requires
        decodes_without_panic(s.spec_bytes()),
    ensures
        all_pairs_valid(s.spec_bytes()) ==> (res matches Ok(v) && v@ == spec_hex_decode(
            s.spec_bytes(),
        )),
        !all_pairs_valid(s.spec_bytes()) ==> (res matches Err(e) && e@ == invalid_digit_message()),
{
    let b = s.as_bytes();
    let ghost sb = s.spec_bytes();
    let n = b.len();
    let mut out: Vec<u8> = Vec::new();
    let mut i: usize = 0;
    while i < n
        invariant
            b@ == sb,
            n == sb.len(),
            sb == s.spec_bytes(),
            decodes_without_panic(sb),
            i % 2 == 0,
            i <= n,
            out@.len() == i / 2,
            good_before(sb, i as int / 2),
            forall|k: int| 0 <= k < i / 2 ==> out@[k] == #[trigger] spec_hex_decode(sb)[k],
        decreases n - i,
    {
        let k: Ghost<int> = Ghost(i as int / 2);
        assert(2 * k@ == i);
        assert(k@ < pair_count(sb));
        assert(pair_sliceable(sb, k@));
        match pair_value_exec(b[i], b[i + 1]) {
            Some(v) => {
                out.push(v);
            },
            None => {
                assert(!pair_good(sb, k@));
                assert(!all_pairs_valid(sb));
                let e = String::from_str("invalid digit found in string");
                return Err(e);
            },
        }
        proof {
            assert(pair_good(sb, k@));
            assert forall|j: int| 0 <= j < (i + 2) / 2 implies #[trigger] pair_good(sb, j) by {
                if j < k@ {
                }
            }
        }
        i += 2;
    }
    assert(i == n);
    assert(sb.len() / 2 == pair_count(sb));
    assert(out@ =~= spec_hex_decode(sb));
    Ok(out)
}

/// A lower-case hexadecimal digit: `0`-`9` or `a`-`f`.
pub open spec fn is_lower_hex_digit(c: char) -> bool {
    ('0' <= c && c <= '9') || ('a' <= c && c <= 'f')
}

/// The value of a lower-case hexadecimal digit: `0`-`9` count 0-9 and
/// `a`-`f` count 10-15, by their character codes.
pub open spec fn lower_hex_digit_value(c: char) -> int {
    if '0' <= c && c <= '9' {
        c as int - '0' as int
    } else {
        c as int - 'a' as int + 10
    }
}

/// The text of a byte is its value in hexadecimal: each byte becomes two
/// lower-case hex digits, high digit first, whose value as a base-16 number
/// is the byte; and the decoder reads each digit character (in either case)
/// as the digit's value, refuses every other byte, and reads two digits as
/// the byte they spell, high digit first.
pub proof fn lemma_hex_digits(b: Seq<u8>)
    ensures
        spec_hex_encode(b).len() == 2 * b.len(),
        forall|k: int|
            #![trigger b[k]]
            0 <= k < b.len() ==> {
                let hi = spec_hex_encode(b)[2 * k];
                let lo = spec_hex_encode(b)[2 * k + 1];
                &&& is_lower_hex_digit(hi)
                &&& is_lower_hex_digit(lo)
                &&& 16 * lower_hex_digit_value(hi) + lower_hex_digit_value(lo) == b[k] as int
            },
        forall|d: u8| d < 10 ==> #[trigger] hex_value((0x30 + d) as u8) == Some(d),
        forall|d: u8|
            10 <= d < 16 ==> #[trigger] hex_value((0x61 + d - 10) as u8) == Some(d) && hex_value(
                (0x41 + d - 10) as u8,
            ) == Some(d),
        forall|c: u8|
            !((0x30 <= c <= 0x39) || (0x61 <= c <= 0x66) || (0x41 <= c <= 0x46)) ==> #[trigger] hex_value(c)
                is None,
        forall|x: u8, y: u8|
            #![trigger pair_value(x, y)]
            hex_value(x) is Some && hex_value(y) is Some ==> pair_value(x, y) == Some(
                (16 * hex_value(x)->0 + hex_value(y)->0) as u8,
            ) && 16 * hex_value(x)->0 + hex_value(y)->0 < 256,
{
    let t = spec_hex_encode(b);
    assert forall|k: int| #![trigger b[k]] 0 <= k < b.len() implies {
        let hi = t[2 * k];
        let lo = t[2 * k + 1];
        &&& is_lower_hex_digit(hi)
        &&& is_lower_hex_digit(lo)
        &&& 16 * lower_hex_digit_value(hi) + lower_hex_digit_value(lo) == b[k] as int
    } by {
        assert((2 * k) / 2 == k);
        assert((2 * k + 1) / 2 == k);
        assert((2 * k) % 2 == 0);
        assert((2 * k + 1) % 2 == 1);
        let x = b[k] as int;
        assert(x == 16 * (x / 16) + x % 16);
    }
}

/// Decoding the text that `serialize` produces gives back the bytes: the
/// text splits into pairs (so `deserialize` may be called on it), every pair
/// is a number, and the numbers are the original bytes.
pub proof fn lemma_hex_round_trip(b: Seq<u8>)
    ensures
        ({
            let bytes = encode_utf8(spec_hex_encode(b));
            &&& decodes_without_panic(bytes)
            &&& all_pairs_valid(bytes)
            &&& spec_hex_decode(bytes) == b
        }),
{
    let t = spec_hex_encode(b);
    assert forall|i: int| 0 <= i < t.len() implies '\0' <= #[trigger] t[i] <= '\u{7f}' by {}
    assert(is_ascii_chars(t));
    is_ascii_chars_encode_utf8(t);
    let bytes = encode_utf8(t);
    assert(pair_count(bytes) == b.len());
    assert forall|k: int| 0 <= k < pair_count(bytes) implies #[trigger] pair_good(bytes, k) by {
        assert(t[2 * k] as u8 == bytes[2 * k]);
        assert(t[2 * k + 1] as u8 == bytes[2 * k + 1]);
        if 2 * k + 2 < bytes.len() {
            assert(t[2 * k + 2] as u8 == bytes[2 * k + 2]);
        }
        assert((2 * k) / 2 == k);
        assert((2 * k + 1) / 2 == k);
        assert((2 * k) % 2 == 0);
        assert((2 * k + 1) % 2 == 1);
        assert(pair_value(bytes[2 * k], bytes[2 * k + 1]) == Some(b[k]));
    }
    assert forall|k: int| 0 <= k < bytes.len() / 2 implies #[trigger] spec_hex_decode(bytes)[k] == b[k] by {
        assert(pair_good(bytes, k));
        assert(t[2 * k] as u8 == bytes[2 * k]);
        assert(t[2 * k + 1] as u8 == bytes[2 * k + 1]);
        assert((2 * k) / 2 == k);
        assert((2 * k + 1) / 2 == k);
        assert((2 * k) % 2 == 0);
        assert((2 * k + 1) % 2 == 1);
    }
    assert(spec_hex_decode(bytes) =~= b);
}

} // verus!
