use vstd::prelude::*;

verus! {

/// The value of a decimal digit.
pub open spec fn digit_value(c: char) -> int {
    c as int - '0' as int
}

/// Whether `c` is one of the ten decimal digits.
pub open spec fn is_digit(c: char) -> bool {
    '0' <= c <= '9'
}

/// Whether `s` holds decimal digits only.
pub open spec fn all_digits(s: Seq<char>) -> bool {
    forall|i: int| 0 <= i < s.len() ==> is_digit(#[trigger] s[i])
}

/// The number that the decimal digits `s` write.
pub open spec fn digits_value(s: Seq<char>) -> int
    decreases s.len(),
{
    if s.len() == 0 {
        0
    } else {
        digits_value(s.drop_last()) * 10 + digit_value(s.last())
    }
}

/// Whether `text` starts with a sign.
pub open spec fn has_sign(text: Seq<char>) -> bool {
    text.len() > 0 && (text[0] == '+' || text[0] == '-')
}

/// The digits of `text`: all of it but a leading sign.
pub open spec fn digits_of(text: Seq<char>) -> Seq<char> {
    if has_sign(text) {
        text.subrange(1, text.len() as int)
    } else {
        text
    }
}

/// The integer that `text` writes: an optional sign `+` or `-`, then one or
/// more decimal digits and nothing else.
pub open spec fn int_literal(text: Seq<char>) -> Option<int> {
    let digits = digits_of(text);
    if digits.len() == 0 || !all_digits(digits) {
        None
    } else if text[0] == '-' {
        Some(-digits_value(digits))
    } else {
        Some(digits_value(digits))
    }
}

/// 256 to the power `n`.
pub open spec fn pow256(n: nat) -> int
    decreases n,
{
    if n == 0 {
        1
    } else {
        256 * pow256((n - 1) as nat)
    }
}

/// Whether `v` is a signed integer of `width` bytes.
pub open spec fn fits_signed(v: int, width: nat) -> bool {
    -pow256(width) <= 2 * v < pow256(width)
}

/// The integer that `text` writes, where it is a signed integer of `width`
/// bytes.
pub open spec fn int_of_width(text: Seq<char>, width: nat) -> Option<int> {
    match int_literal(text) {
        Some(v) => if fits_signed(v, width) {
            Some(v)
        } else {
            None
        },
        None => None,
    }
}

/// The unsigned number with the same `width` bytes as the signed `v`.
pub open spec fn unsigned_of(v: int, width: nat) -> int {
    if v < 0 {
        v + pow256(width)
    } else {
        v
    }
}

/// The `width` bytes of `u`, least significant first.
pub open spec fn le_bytes(u: int, width: nat) -> Seq<u8>
    decreases width,
{
    if width == 0 {
        Seq::empty()
    } else {
        seq![(u % 256) as u8] + le_bytes(u / 256, (width - 1) as nat)
    }
}

/// The number that `bytes` hold, least significant first.
pub open spec fn le_value(bytes: Seq<u8>) -> int
    decreases bytes.len(),
{
    if bytes.len() == 0 {
        0
    } else {
        bytes[0] as int + 256 * le_value(bytes.drop_first())
    }
}

/// The bytes of `bytes` in front of its first zero byte.
pub open spec fn cut_at_zero(bytes: Seq<u8>) -> Seq<u8>
    decreases bytes.len(),
{
    if bytes.len() == 0 || bytes[0] == 0 {
        Seq::empty()
    } else {
        seq![bytes[0]] + cut_at_zero(bytes.drop_first())
    }
}

/// What is written for an integer with the bytes `bytes`: its bytes from the
/// least significant up to the first zero byte, which is left out, unless it
/// is the very first: then that one zero byte is all that is written. A byte
/// above a zero byte is lost.
pub open spec fn int_payload(bytes: Seq<u8>) -> Seq<u8> {
    if bytes.len() > 0 && bytes[0] == 0 {
        seq![0u8]
    } else {
        cut_at_zero(bytes)
    }
}

/// Whether no zero byte of `bytes` lies below a byte that is not zero.
pub open spec fn zeros_on_top(bytes: Seq<u8>) -> bool {
    forall|i: int, j: int| 0 <= i < j < bytes.len() && bytes[i] == 0 ==> bytes[j] == 0
}

pub proof fn lemma_pow256()
    ensures
        pow256(0) == 1,
        pow256(1) == 0x100,
        pow256(4) == 0x1_0000_0000,
        pow256(8) == 0x1_0000_0000_0000_0000,
{
    reveal_with_fuel(pow256, 9);
}

/// The digits read so far never write more than all the digits do.
pub proof fn lemma_digits_grow(s: Seq<char>, i: int)
    requires
        all_digits(s),
        0 <= i <= s.len(),
    ensures
        0 <= digits_value(s.take(i)) <= digits_value(s),
    decreases s.len(),
{
    if s.len() == 0 {
        assert(s.take(i) =~= s);
    } else if i == s.len() {
        assert(s.take(i) =~= s);
        lemma_digits_grow(s.drop_last(), i - 1);
        assert(s.drop_last().take(i - 1) =~= s.drop_last());
        assert(is_digit(s[s.len() - 1]));
    } else {
        lemma_digits_grow(s.drop_last(), i);
        assert(s.drop_last().take(i) =~= s.take(i));
        assert(is_digit(s[s.len() - 1]));
    }
}

/// The bytes of a number are as many as were asked for.
pub proof fn lemma_le_bytes_len(u: int, width: nat)
    ensures
        le_bytes(u, width).len() == width,
    decreases width,
{
    if width > 0 {
        lemma_le_bytes_len(u / 256, (width - 1) as nat);
    }
}

/// The bytes of a number that fits into them hold that number.
pub proof fn lemma_le_round_trip(u: int, width: nat)
    requires
        0 <= u < pow256(width),
    ensures
        le_value(le_bytes(u, width)) == u,
    decreases width,
{
    if width > 0 {
        let rest = le_bytes(u / 256, (width - 1) as nat);
        lemma_le_round_trip(u / 256, (width - 1) as nat);
        assert(le_bytes(u, width).drop_first() =~= rest);
    }
}

/// Bytes hold zero exactly when each of them is zero.
pub proof fn lemma_le_value_zero(bytes: Seq<u8>)
    ensures
        0 <= le_value(bytes),
        le_value(bytes) == 0 <==> (forall|j: int| 0 <= j < bytes.len() ==> bytes[j] == 0),
    decreases bytes.len(),
{
    if bytes.len() > 0 {
        let rest = bytes.drop_first();
        lemma_le_value_zero(rest);
        if le_value(bytes) == 0 {
            assert forall|j: int| 0 <= j < bytes.len() implies bytes[j] == 0 by {
                if j > 0 {
                    assert(rest[j - 1] == bytes[j]);
                }
            }
        }
        if forall|j: int| 0 <= j < bytes.len() ==> bytes[j] == 0 {
            assert forall|j: int| 0 <= j < rest.len() implies rest[j] == 0 by {
                assert(rest[j] == bytes[j + 1]);
            }
        }
    }
}

/// What is in front of the first zero byte holds no more than all the bytes,
/// and as much exactly when no zero byte lies below a byte that is not zero.
pub proof fn lemma_cut_value(bytes: Seq<u8>)
    ensures
        le_value(cut_at_zero(bytes)) <= le_value(bytes),
        le_value(cut_at_zero(bytes)) == le_value(bytes) <==> zeros_on_top(bytes),
    decreases bytes.len(),
{
    if bytes.len() == 0 {
    } else {
        let rest = bytes.drop_first();
        lemma_le_value_zero(bytes);
        lemma_le_value_zero(rest);
        if bytes[0] == 0 {
            if zeros_on_top(bytes) {
                assert forall|j: int| 0 <= j < bytes.len() implies bytes[j] == 0 by {
                    if j > 0 {
                        assert(bytes[0] == 0);
                    }
                }
            }
        } else {
            lemma_cut_value(rest);
            let cut = cut_at_zero(bytes);
            assert(cut.drop_first() =~= cut_at_zero(rest));
            if zeros_on_top(bytes) {
                assert forall|i: int, j: int|
                    0 <= i < j < rest.len() && rest[i] == 0 implies rest[j] == 0 by {
                    assert(rest[i] == bytes[i + 1]);
                    assert(rest[j] == bytes[j + 1]);
                }
            }
            if zeros_on_top(rest) {
                assert forall|i: int, j: int|
                    0 <= i < j < bytes.len() && bytes[i] == 0 implies bytes[j] == 0 by {
                    assert(rest[i - 1] == bytes[i]);
                    assert(rest[j - 1] == bytes[j]);
                }
            }
        }
    }
}

/// What is written for an integer reads back as the integer exactly when no
/// zero byte of the integer lies below a byte that is not zero; otherwise
/// it reads back as less.
pub proof fn lemma_int_payload_faithful(v: int, width: nat)
    requires
        fits_signed(v, width),
    ensures
        ({
            let bytes = le_bytes(unsigned_of(v, width), width);
            &&& le_value(bytes) == unsigned_of(v, width)
            &&& le_value(int_payload(bytes)) <= unsigned_of(v, width)
            &&& le_value(int_payload(bytes)) == unsigned_of(v, width) <==> zeros_on_top(bytes)
        }),
{
    let u = unsigned_of(v, width);
    let bytes = le_bytes(u, width);
    lemma_le_round_trip(u, width);
    lemma_cut_value(bytes);
    if bytes.len() > 0 && bytes[0] == 0 {
        assert(cut_at_zero(bytes) =~= Seq::<u8>::empty());
        let one = seq![0u8];
        assert(one.drop_first() =~= Seq::<u8>::empty());
        assert(le_value(one) == 0 + 256 * le_value(one.drop_first()));
    }
}

/// An integer whose least significant byte is zero is written as one zero
/// byte, whatever its other bytes are.
pub proof fn lemma_low_zero_byte_is_all(v: int, width: nat)
    requires
        width > 0,
        unsigned_of(v, width) % 256 == 0,
    ensures
        int_payload(le_bytes(unsigned_of(v, width), width)) == seq![0u8],
{
}

/// The number of bytes of an integer or a float: 8 where it is wide, else 4.
pub open spec fn width_of(wide: bool) -> nat {
    if wide {
        8
    } else {
        4
    }
}

/// Reads `text` as a signed integer of 8 bytes where `wide` holds, else of 4
/// bytes: an optional sign and decimal digits. Anything else, and a number
/// that does not fit, gives `None`.
pub fn parse_int(text: &str, wide: bool) -> (r: Option<i64>)
    ensures
        match r {
            Some(v) => int_of_width(text@, width_of(wide)) == Some(v as int),
            None => int_of_width(text@, width_of(wide)) is None,
        },
{
    let n = text.unicode_len();
    if n == 0 {
        return None;
    }
    let first = text.get_char(0);
    let negative = first == '-';
    let start: usize = if first == '+' || first == '-' {
        1
    } else {
        0
    };
    if start == n {
        return None;
    }
    let limit: u64 = if wide {
        0x8000_0000_0000_0000
    } else {
        0x8000_0000
    };
    let ghost digits = digits_of(text@);
    proof {
        lemma_pow256();
        assert(digits.take(0) =~= Seq::<char>::empty());
    }
    let mut acc: u64 = 0;
    let mut i: usize = start;
    while i < n
        invariant
            n == text@.len(),
            start <= i <= n,
            start == text@.len() - digits.len(),
            digits == digits_of(text@),
            limit == (if wide {
                0x8000_0000_0000_0000u64
            } else {
                0x8000_0000u64
            }),
            forall|j: int| 0 <= j < i - start ==> is_digit(#[trigger] digits[j]),
            acc == digits_value(digits.take(i - start)),
            acc <= limit,
        decreases n - i,
    {
        let c = text.get_char(i);
        let code: u32 = c as u32;
        assert(digits[i - start] == c);
        if code < 48 || code > 57 {
            return None;
        }
        let d: u64 = (code - 48) as u64;
        proof {
            let k = i - start;
            assert(digits.take(k + 1).drop_last() =~= digits.take(k));
            assert(digits.take(k + 1).last() == c);
            assert(digits_value(digits.take(k + 1)) == acc * 10 + d);
        }
        if acc > (limit - d) / 10 {
            proof {
                lemma_pow256();
                if all_digits(digits) {
                    lemma_digits_grow(digits, i - start + 1);
                }
            }
            return None;
        }
        acc = acc * 10 + d;
        i += 1;
    }
    proof {
        lemma_pow256();
        assert(digits.take(i - start) =~= digits);
    }
    if negative {
        if acc == limit {
            if wide {
                Some(i64::MIN)
            } else {
                Some(-0x8000_0000i64)
            }
        } else {
            Some(-(acc as i64))
        }
    } else if acc == limit {
        None
    } else {
        Some(acc as i64)
    }
}

/// The bytes of `u`, least significant first: 8 of them where `wide` holds,
/// else the lower 4.
pub fn encode_bits(u: u64, wide: bool) -> (out: Vec<u8>)
    ensures
        out@ == le_bytes(u as int, width_of(wide)),
        out@.len() == width_of(wide),
{
    let width: usize = if wide {
        8
    } else {
        4
    };
    let mut out: Vec<u8> = Vec::new();
    let mut rest = u;
    let mut k: usize = 0;
    proof {
        lemma_le_bytes_len(u as int, width as nat);
    }
    while k < width
        invariant
            k <= width,
            width == width_of(wide),
            out@.len() == k,
            le_bytes(u as int, width as nat) == out@ + le_bytes(rest as int, (width - k) as nat),
        decreases width - k,
    {
        let b = (rest % 256) as u8;
        proof {
            let tail = le_bytes(rest as int / 256, (width - k - 1) as nat);
            assert(out@ + (seq![b] + tail) =~= out@.push(b) + tail);
        }
        out.push(b);
        rest = rest / 256;
        k += 1;
    }
    assert(out@ + Seq::<u8>::empty() =~= out@);
    out
}

/// What is written for the integer `v` of 8 bytes where `wide` holds, else
/// of 4 bytes.
pub fn encode_int(v: i64, wide: bool) -> (out: Vec<u8>)
    requires
        fits_signed(v as int, width_of(wide)),
    ensures
        out@ == int_payload(le_bytes(unsigned_of(v as int, width_of(wide)), width_of(wide))),
{
    proof {
        lemma_pow256();
    }
    let u: u64 = if v >= 0 {
        v as u64
    } else if wide {
        (v as i128 + 0x1_0000_0000_0000_0000i128) as u64
    } else {
        (v + 0x1_0000_0000) as u64
    };
    let width: usize = if wide {
        8
    } else {
        4
    };
    let mut out: Vec<u8> = Vec::new();
    if u % 256 == 0 {
        out.push(0);
        assert(out@ =~= seq![0u8]);
        return out;
    }
    let mut rest = u;
    let mut k: usize = 0;
    assert(out@ + cut_at_zero(le_bytes(u as int, width as nat)) =~= cut_at_zero(
        le_bytes(u as int, width as nat),
    ));
    while k < width
        invariant
            k <= width,
            cut_at_zero(le_bytes(u as int, width as nat)) == out@ + cut_at_zero(
                le_bytes(rest as int, (width - k) as nat),
            ),
        ensures
            cut_at_zero(le_bytes(u as int, width as nat)) == out@,
        decreases width - k,
    {
        let b = (rest % 256) as u8;
        let ghost here = le_bytes(rest as int, (width - k) as nat);
        let ghost tail = le_bytes(rest as int / 256, (width - k - 1) as nat);
        assert(here.drop_first() =~= tail);
        if b == 0 {
            assert(out@ + Seq::<u8>::empty() =~= out@);
            break;
        }
        assert(out@ + (seq![b] + cut_at_zero(tail)) =~= out@.push(b) + cut_at_zero(tail));
        out.push(b);
        rest = rest / 256;
        k += 1;
        if k == width {
            assert(out@ + Seq::<u8>::empty() =~= out@);
        }
    }
    out
}

} // verus!
