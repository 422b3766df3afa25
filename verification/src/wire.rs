//! Primitive network codecs: `VarInt`, big-endian `i32`, booleans, bounded
//! counts and length-prefixed UTF-8 strings.

use vstd::prelude::*;
use vstd::utf8::*;

verus! {

/// Why a network value could not be read or written.
#[derive(Debug, Clone, Copy, PartialEq, Eq, Structural)]
pub enum WireError {
    /// The input ended before the value was complete.
    UnexpectedEnd,
    /// A `VarInt` ran over five bytes without a terminating byte.
    VarIntTooLong,
    /// A count or identifier that must not be negative was negative.
    Negative,
    /// A count exceeded the bound of its collection.
    TooMany,
    /// A string exceeded its character or byte bound.
    StringTooLong,
    /// String bytes were not valid UTF-8.
    InvalidUtf8,
    /// A value was rejected by the component's own validation.
    Invalid,
    /// The component's codec is not one this library reads or writes.
    Unsupported,
}

/// Number of bytes of `2^32`, the modulus of `VarInt` values.
pub open spec fn two_pow_32() -> int {
    0x1_0000_0000
}

/// The `VarInt` bytes of an unsigned 32-bit pattern: seven bits per byte,
/// least significant group first, with the high bit set on every byte but
/// the last.
pub open spec fn varint_encode(x: nat) -> Seq<u8>
    decreases x,
{
    if x < 128 {
        seq![x as u8]
    } else {
        seq![(x % 128 + 128) as u8] + varint_encode(x / 128)
    }
}

/// The `VarInt` bytes of a signed value (its two's complement pattern).
pub open spec fn varint_bytes(v: i32) -> Seq<u8> {
    varint_encode(v as u32 as nat)
}

/// A `VarInt` below 128 is the single byte of its value.
pub proof fn lemma_small_varint(v: i32)
    requires
        0 <= v < 128,
    ensures
        varint_bytes(v) == seq![v as u8],
{
    assert(v as u32 == v) by (bit_vector)
        requires
            0 <= v < 128,
    ;
}

/// Decodes the seven-bit groups of a `VarInt` that starts at `pos`, reading
/// at most `fuel` bytes; yields the unreduced value and the end position.
pub open spec fn varint_groups(s: Seq<u8>, pos: int, fuel: nat) -> Result<(int, int), WireError>
    decreases fuel,
{
    if fuel == 0 {
        Err(WireError::VarIntTooLong)
    } else if pos < 0 || pos >= s.len() {
        Err(WireError::UnexpectedEnd)
    } else if s[pos] < 128 {
        Ok((s[pos] as int, pos + 1))
    } else {
        match varint_groups(s, pos + 1, (fuel - 1) as nat) {
            Ok((v, end)) => Ok((s[pos] - 128 + 128 * v, end)),
            Err(e) => Err(e),
        }
    }
}

/// The signed value whose 32-bit pattern is `x` modulo `2^32`.
pub open spec fn wrap_i32(x: int) -> i32 {
    (x % two_pow_32()) as u32 as i32
}

/// Reads a `VarInt` at `pos`: at most five bytes, the value taken modulo
/// `2^32` as a two's complement `i32`; yields the value and the position
/// after it.
pub open spec fn spec_read_varint(s: Seq<u8>, pos: int) -> Result<(i32, int), WireError> {
    match varint_groups(s, pos, 5) {
        Ok((v, end)) => Ok((wrap_i32(v), end)),
        Err(e) => Err(e),
    }
}

/// Powers of 128.
pub open spec fn pow128(n: nat) -> nat
    decreases n,
{
    if n == 0 {
        1
    } else {
        128 * pow128((n - 1) as nat)
    }
}

proof fn lemma_varint_groups_bound(s: Seq<u8>, pos: int, fuel: nat)
    ensures
        varint_groups(s, pos, fuel) matches Ok((v, end)) ==> 0 <= v < pow128(
            (end - pos) as nat,
        ) && pos < end <= pos + fuel && end <= s.len(),
    decreases fuel,
{
    reveal_with_fuel(pow128, 2);
    if fuel > 0 && 0 <= pos < s.len() && s[pos] >= 128 {
        lemma_varint_groups_bound(s, pos + 1, (fuel - 1) as nat);
        if let Ok((v, end)) = varint_groups(s, pos + 1, (fuel - 1) as nat) {
            let p = pow128((end - (pos + 1)) as nat);
            assert(pow128((end - pos) as nat) == 128 * p);
            let d = s[pos] - 128;
            assert(0 <= d < 128);
            assert(d + 128 * v < 128 * p) by (nonlinear_arith)
                requires
                    0 <= d < 128,
                    0 <= v < p,
            ;
        }
    }
}

/// The encoding of `x` has at most `n` bytes when `x < 128^n`.
pub proof fn lemma_varint_encode_len(x: nat, n: nat)
    requires
        n > 0,
        x < pow128(n),
    ensures
        1 <= varint_encode(x).len() <= n,
    decreases x,
{
    reveal_with_fuel(pow128, 2);
    if x >= 128 {
        assert(n > 1);
        let p = pow128((n - 1) as nat);
        assert(x / 128 < p) by (nonlinear_arith)
            requires
                x < 128 * p,
        ;
        lemma_varint_encode_len(x / 128, (n - 1) as nat);
    }
}

/// Reading back the encoding of `x`, wherever it stands in a byte sequence,
/// yields `x` and the position just after it.
pub proof fn lemma_varint_groups_encode(pre: Seq<u8>, x: nat, rest: Seq<u8>, fuel: nat)
    requires
        varint_encode(x).len() <= fuel,
    ensures
        varint_groups(pre + varint_encode(x) + rest, pre.len() as int, fuel) == Ok::<(int, int), WireError>(
            (x as int, (pre.len() + varint_encode(x).len()) as int),
        ),
    decreases x,
{
    let s = pre + varint_encode(x) + rest;
    if x < 128 {
        assert(s[pre.len() as int] == x as u8);
    } else {
        let first = seq![(x % 128 + 128) as u8];
        let pre2 = pre + first;
        assert(s =~= pre2 + varint_encode(x / 128) + rest);
        assert(s[pre.len() as int] == (x % 128 + 128) as u8);
        lemma_varint_groups_encode(pre2, x / 128, rest, (fuel - 1) as nat);
    }
}

/// `wrap_i32` undoes the 32-bit pattern of a signed value.
pub proof fn lemma_wrap_i32_of_pattern(v: i32)
    ensures
        wrap_i32(v as u32 as int) == v,
{
    assert((v as u32) as i32 == v) by (bit_vector);
}

/// Law: reading a `VarInt` back from the bytes written for `v` yields `v`,
/// and the reader stops right after those bytes, whatever precedes or follows.
pub proof fn lemma_varint_round_trip(pre: Seq<u8>, v: i32, rest: Seq<u8>)
    ensures
        spec_read_varint(pre + varint_bytes(v) + rest, pre.len() as int) == Ok::<(i32, int), WireError>(
            (v, (pre.len() + varint_bytes(v).len()) as int),
        ),
        1 <= varint_bytes(v).len() <= 5,
{
    let x = v as u32 as nat;
    assert(pow128(5) == 34359738368) by {
        reveal_with_fuel(pow128, 6);
    }
    lemma_varint_encode_len(x, 5);
    lemma_varint_groups_encode(pre, x, rest, 5);
    lemma_wrap_i32_of_pattern(v);
    assert((x as int) % two_pow_32() == x as int);
}

/// Appends the `VarInt` encoding of `v`.
pub fn write_varint(buf: &mut Vec<u8>, v: i32)
    ensures
        final(buf)@ == old(buf)@ + varint_bytes(v),
{
    let mut x: u32 = v as u32;
    let ghost start = old(buf)@;
    while x >= 128
        invariant
            start + varint_bytes(v) == buf@ + varint_encode(x as nat),
        decreases x,
    {
        let b: u8 = (x % 128 + 128) as u8;
        buf.push(b);
        proof {
            assert(varint_encode(x as nat) == seq![b] + varint_encode((x / 128) as nat));
        }
        x = x / 128;
        assert(start + varint_bytes(v) =~= buf@ + varint_encode(x as nat));
    }
    buf.push(x as u8);
    assert(buf@ =~= start + varint_bytes(v));
}

fn read_varint_groups(data: &[u8], pos: usize, fuel: usize) -> (res: Result<(u64, usize), WireError>)
    requires
        fuel <= 5,
    ensures
        match (res, varint_groups(data@, pos as int, fuel as nat)) {
            (Ok((v, end)), Ok((sv, send))) => v == sv && end == send,
            (Err(e), Err(se)) => e == se,
            _ => false,
        },
    decreases fuel,
{
    if fuel == 0 {
        return Err(WireError::VarIntTooLong);
    }
    if pos >= data.len() {
        return Err(WireError::UnexpectedEnd);
    }
    let b = data[pos];
    if b < 128 {
        return Ok((b as u64, pos + 1));
    }
    proof {
        lemma_varint_groups_bound(data@, pos + 1, (fuel - 1) as nat);
        assert(pow128(4) == 268435456) by {
            reveal_with_fuel(pow128, 5);
        }
        if let Ok((v, end)) = varint_groups(data@, pos + 1, (fuel - 1) as nat) {
            assert(pow128((end - (pos + 1)) as nat) <= pow128(4)) by {
                lemma_pow128_mono((end - (pos + 1)) as nat, 4);
            }
        }
    }
    match read_varint_groups(data, pos + 1, fuel - 1) {
        Ok((v, end)) => Ok(((b - 128) as u64 + 128 * v, end)),
        Err(e) => Err(e),
    }
}

proof fn lemma_pow128_mono(a: nat, b: nat)
    requires
        a <= b,
    ensures
        pow128(a) <= pow128(b),
    decreases b,
{
    if a < b {
        lemma_pow128_mono(a, (b - 1) as nat);
    }
}

/// Reads a `VarInt` at `pos`; yields the value and the position after it.
pub fn read_varint(data: &[u8], pos: usize) -> (res: Result<(i32, usize), WireError>)
    ensures
        match (res, spec_read_varint(data@, pos as int)) {
            (Ok((v, end)), Ok((sv, send))) => v == sv && end == send,
            (Err(e), Err(se)) => e == se,
            _ => false,
        },
{
    match read_varint_groups(data, pos, 5) {
        Ok((v, end)) => {
            let w: u32 = (v % 0x1_0000_0000) as u32;
            Ok((w as i32, end))
        },
        Err(e) => Err(e),
    }
}


/// The four big-endian bytes of the 32-bit pattern of `v`.
pub open spec fn i32_be_bytes(v: i32) -> Seq<u8> {
    let x = v as u32 as int;
    seq![(x / 0x100_0000) as u8, (x / 0x1_0000 % 256) as u8, (x / 0x100 % 256) as u8, (x % 256) as u8]
}

/// Reads four big-endian bytes at `pos` as a two's complement `i32`.
pub open spec fn spec_read_i32_be(s: Seq<u8>, pos: int) -> Result<(i32, int), WireError> {
    if pos < 0 || pos + 4 > s.len() {
        Err(WireError::UnexpectedEnd)
    } else {
        Ok(
            (
                wrap_i32(
                    s[pos] * 0x100_0000 + s[pos + 1] * 0x1_0000 + s[pos + 2] * 0x100 + s[pos + 3],
                ),
                pos + 4,
            ),
        )
    }
}

/// Appends the big-endian bytes of `v`.
pub fn write_i32_be(buf: &mut Vec<u8>, v: i32)
    ensures
        final(buf)@ == old(buf)@ + i32_be_bytes(v),
{
    let x: u32 = v as u32;
    buf.push((x / 0x100_0000) as u8);
    buf.push((x / 0x1_0000 % 256) as u8);
    buf.push((x / 0x100 % 256) as u8);
    buf.push((x % 256) as u8);
    assert(final(buf)@ =~= old(buf)@ + i32_be_bytes(v));
}

/// Reads a big-endian `i32` at `pos`.
pub fn read_i32_be(data: &[u8], pos: usize) -> (res: Result<(i32, usize), WireError>)
    ensures
        match (res, spec_read_i32_be(data@, pos as int)) {
            (Ok((v, end)), Ok((sv, send))) => v == sv && end == send,
            (Err(e), Err(se)) => e == se,
            _ => false,
        },
{
    if pos > data.len() || data.len() - pos < 4 {
        return Err(WireError::UnexpectedEnd);
    }
    let x: u64 = data[pos] as u64 * 0x100_0000 + data[pos + 1] as u64 * 0x1_0000 + data[pos + 2] as u64
        * 0x100 + data[pos + 3] as u64;
    let w: u32 = (x % 0x1_0000_0000) as u32;
    Ok((w as i32, pos + 4))
}

/// Law: reading back the big-endian bytes of `v` yields `v`.
pub proof fn lemma_i32_be_round_trip(pre: Seq<u8>, v: i32, rest: Seq<u8>)
    ensures
        spec_read_i32_be(pre + i32_be_bytes(v) + rest, pre.len() as int) == Ok::<(i32, int), WireError>(
            (v, pre.len() + 4int),
        ),
{
    let s = pre + i32_be_bytes(v) + rest;
    let p = pre.len() as int;
    let x = v as u32 as int;
    assert(s[p] == (x / 0x100_0000) as u8);
    assert(s[p + 1] == (x / 0x1_0000 % 256) as u8);
    assert(s[p + 2] == (x / 0x100 % 256) as u8);
    assert(s[p + 3] == (x % 256) as u8);
    assert((x / 0x100_0000) * 0x100_0000 + (x / 0x1_0000 % 256) * 0x1_0000 + (x / 0x100 % 256) * 0x100
        + x % 256 == x) by (nonlinear_arith)
        requires
            0 <= x < 0x1_0000_0000,
    ;
    lemma_wrap_i32_of_pattern(v);
}

/// The byte written for a boolean.
pub open spec fn bool_byte(b: bool) -> u8 {
    if b {
        1
    } else {
        0
    }
}

/// Reads a boolean byte at `pos`: any nonzero byte is `true`.
pub open spec fn spec_read_bool(s: Seq<u8>, pos: int) -> Result<(bool, int), WireError> {
    if pos < 0 || pos >= s.len() {
        Err(WireError::UnexpectedEnd)
    } else {
        Ok((s[pos] != 0, pos + 1))
    }
}

/// Appends the byte of `b`.
pub fn write_bool(buf: &mut Vec<u8>, b: bool)
    ensures
        final(buf)@ == old(buf)@.push(bool_byte(b)),
{
    buf.push(if b {
        1
    } else {
        0
    });
}

/// Reads a boolean at `pos`.
pub fn read_bool(data: &[u8], pos: usize) -> (res: Result<(bool, usize), WireError>)
    ensures
        match (res, spec_read_bool(data@, pos as int)) {
            (Ok((v, end)), Ok((sv, send))) => v == sv && end == send,
            (Err(e), Err(se)) => e == se,
            _ => false,
        },
{
    if pos >= data.len() {
        return Err(WireError::UnexpectedEnd);
    }
    Ok((data[pos] != 0, pos + 1))
}

/// Law: reading back the byte of `b` yields `b`.
pub proof fn lemma_bool_round_trip(pre: Seq<u8>, b: bool, rest: Seq<u8>)
    ensures
        spec_read_bool(pre.push(bool_byte(b)) + rest, pre.len() as int) == Ok::<(bool, int), WireError>(
            (b, pre.len() + 1int),
        ),
{
    assert((pre.push(bool_byte(b)) + rest)[pre.len() as int] == bool_byte(b));
}

/// Whether a collection of `count` elements may be written with bound `max`.
pub open spec fn count_fits(count: int, max: int) -> bool {
    count <= max && count <= i32::MAX
}

/// Writes a collection size as a `VarInt` after checking it against `max`
/// and the protocol's `i32` range.
pub fn write_bounded_count(buf: &mut Vec<u8>, count: usize, max: usize) -> (res: Result<(), WireError>)
    ensures
        res is Ok <==> count_fits(count as int, max as int),
        res is Ok ==> final(buf)@ == old(buf)@ + varint_bytes(count as i32),
        res is Err ==> res == Err::<(), WireError>(WireError::TooMany) && final(buf)@ == old(buf)@,
{
    if count > max || count > i32::MAX as usize {
        return Err(WireError::TooMany);
    }
    write_varint(buf, count as i32);
    Ok(())
}

/// Reads a collection size at `pos`: a non-negative `VarInt` of at most `max`.
pub open spec fn spec_read_bounded_count(s: Seq<u8>, pos: int, max: int) -> Result<(int, int), WireError> {
    match spec_read_varint(s, pos) {
        Err(e) => Err(e),
        Ok((v, end)) => if v < 0 {
            Err(WireError::Negative)
        } else if v > max {
            Err(WireError::TooMany)
        } else {
            Ok((v as int, end))
        },
    }
}

/// Reads a collection size at `pos`, rejecting negative sizes and sizes
/// above `max`.
pub fn read_bounded_count(data: &[u8], pos: usize, max: usize) -> (res: Result<(usize, usize), WireError>)
    ensures
        match (res, spec_read_bounded_count(data@, pos as int, max as int)) {
            (Ok((v, end)), Ok((sv, send))) => v == sv && end == send,
            (Err(e), Err(se)) => e == se,
            _ => false,
        },
{
    let (v, end) = read_varint(data, pos)?;
    if v < 0 {
        return Err(WireError::Negative);
    }
    if v as usize > max {
        return Err(WireError::TooMany);
    }
    Ok((v as usize, end))
}

/// Reads a non-negative `VarInt` at `pos` (a count or a registry id).
pub open spec fn spec_read_non_negative_varint(s: Seq<u8>, pos: int) -> Result<(int, int), WireError> {
    spec_read_bounded_count(s, pos, i32::MAX as int)
}

/// Reads a non-negative `VarInt` at `pos`, rejecting negative values.
pub fn read_non_negative_varint(data: &[u8], pos: usize) -> (res: Result<(usize, usize), WireError>)
    ensures
        match (res, spec_read_non_negative_varint(data@, pos as int)) {
            (Ok((v, end)), Ok((sv, send))) => v == sv && end == send,
            (Err(e), Err(se)) => e == se,
            _ => false,
        },
{
    read_bounded_count(data, pos, i32::MAX as usize)
}

/// Law: a count accepted by the writer is read back unchanged under the
/// same bound.
pub proof fn lemma_bounded_count_round_trip(pre: Seq<u8>, count: int, max: int, rest: Seq<u8>)
    requires
        0 <= count,
        count_fits(count, max),
    ensures
        spec_read_bounded_count(pre + varint_bytes(count as i32) + rest, pre.len() as int, max)
            == Ok::<(int, int), WireError>((count, (pre.len() + varint_bytes(count as i32).len()) as int)),
{
    lemma_varint_round_trip(pre, count as i32, rest);
}


/// Number of UTF-16 code units of a character sequence (the length Java
/// measures strings in).
pub open spec fn utf16_len(chars: Seq<char>) -> nat
    decreases chars.len(),
{
    if chars.len() == 0 {
        0
    } else {
        utf16_len(chars.drop_last()) + if chars.last() as u32 >= 0x1_0000 {
            2nat
        } else {
            1nat
        }
    }
}

/// Whether `value` has more than `max_length` UTF-16 code units.
pub fn string_too_long(value: &str, max_length: usize) -> (res: bool)
    ensures
        res == (utf16_len(value@) > max_length),
{
    let n = value.unicode_len();
    let mut count: usize = 0;
    let mut i: usize = 0;
    while i < n
        invariant
            n == value@.len(),
            i <= n,
            count == utf16_len(value@.subrange(0, i as int)),
            count <= max_length,
        decreases n - i,
    {
        let c = value.get_char(i);
        let w: usize = if c as u32 >= 0x1_0000 {
            2
        } else {
            1
        };
        assert(value@.subrange(0, i + 1).drop_last() =~= value@.subrange(0, i as int));
        if w > max_length - count {
            proof {
                lemma_utf16_len_prefix_mono(value@, i + 1, n as int);
                assert(value@.subrange(0, n as int) =~= value@);
            }
            return true;
        }
        count = count + w;
        i = i + 1;
    }
    assert(value@.subrange(0, n as int) =~= value@);
    false
}

proof fn lemma_utf16_len_prefix_mono(s: Seq<char>, i: int, j: int)
    requires
        0 <= i <= j <= s.len(),
    ensures
        utf16_len(s.subrange(0, i)) <= utf16_len(s.subrange(0, j)),
    decreases j - i,
{
    if i < j {
        lemma_utf16_len_prefix_mono(s, i, j - 1);
        assert(s.subrange(0, j).drop_last() =~= s.subrange(0, j - 1));
    }
}

/// Whether two strings hold the same characters.
pub fn str_equals(a: &str, b: &str) -> (res: bool)
    ensures
        res == (a@ == b@),
{
    let n = a.unicode_len();
    if n != b.unicode_len() {
        return false;
    }
    let mut i: usize = 0;
    while i < n
        invariant
            n == a@.len() == b@.len(),
            i <= n,
            forall|j: int| 0 <= j < i ==> a@[j] == b@[j],
        decreases n - i,
    {
        if a.get_char(i) != b.get_char(i) {
            return false;
        }
        i = i + 1;
    }
    assert(a@ =~= b@);
    true
}

/// The largest byte length a string of `max_length` characters may have
/// on the network (three UTF-8 bytes per UTF-16 unit, saturating).
pub open spec fn max_string_bytes(max_length: int) -> int {
    if max_length * 3 > usize::MAX {
        usize::MAX as int
    } else {
        max_length * 3
    }
}

/// Whether a string is within the network bounds for `max_length`.
pub open spec fn string_fits(chars: Seq<char>, max_length: int) -> bool {
    utf16_len(chars) <= max_length && encode_utf8(chars).len() <= max_string_bytes(max_length)
}

/// The network bytes of a string: its UTF-8 byte length as a `VarInt`,
/// then the UTF-8 bytes.
pub open spec fn string_bytes(chars: Seq<char>) -> Seq<u8> {
    varint_bytes(encode_utf8(chars).len() as i32) + encode_utf8(chars)
}

/// `std::str::from_utf8`, with the result copied into an owned `String`.
/// The standard library documents that it succeeds exactly on valid UTF-8,
/// and then the string holds the characters that the bytes encode.
#[verifier::external_body]
fn utf8_to_string(bytes: &[u8]) -> (res: Option<String>)
    ensures
        res is Some <==> valid_utf8(bytes@),
        res matches Some(s) ==> s@ == decode_utf8(bytes@),
{
    match std::str::from_utf8(bytes) {
        Ok(s) => Some(s.to_string()),
        Err(_) => None,
    }
}

/// Appends `bytes` to `buf`.
pub fn push_bytes(buf: &mut Vec<u8>, bytes: &[u8])
    ensures
        final(buf)@ == old(buf)@ + bytes@,
{
    let mut i: usize = 0;
    while i < bytes.len()
        invariant
            i <= bytes.len(),
            buf@ == old(buf)@ + bytes@.subrange(0, i as int),
        decreases bytes.len() - i,
    {
        buf.push(bytes[i]);
        i = i + 1;
        assert(buf@ =~= old(buf)@ + bytes@.subrange(0, i as int));
    }
    assert(bytes@.subrange(0, bytes.len() as int) =~= bytes@);
}

/// Writes `value` as a length-prefixed UTF-8 string after checking it
/// against the network bound of `max_length` characters.
pub fn write_network_string(buf: &mut Vec<u8>, value: &str, max_length: usize) -> (res: Result<(), WireError>)
    requires
        max_length <= i32::MAX / 3,
    ensures
        res is Ok <==> string_fits(value@, max_length as int),
        res is Ok ==> final(buf)@ == old(buf)@ + string_bytes(value@),
        res is Err ==> res == Err::<(), WireError>(WireError::StringTooLong) && final(buf)@ == old(buf)@,
{
    let bytes = value.as_bytes();
    let byte_len = bytes.len();
    if string_too_long(value, max_length) || byte_len > max_length * 3 {
        return Err(WireError::StringTooLong);
    }
    write_varint(buf, byte_len as i32);
    push_bytes(buf, bytes);
    assert(buf@ =~= old(buf)@ + string_bytes(value@));
    Ok(())
}

/// Reads a length-prefixed UTF-8 string at `pos`: the byte length must be
/// non-negative and within the byte bound, the bytes valid UTF-8, and the
/// string within `max_length` UTF-16 units.
pub open spec fn spec_read_network_string(s: Seq<u8>, pos: int, max_length: int) -> Result<
    (Seq<char>, int),
    WireError,
> {
    match spec_read_varint(s, pos) {
        Err(e) => Err(e),
        Ok((len, end)) => if len < 0 {
            Err(WireError::Negative)
        } else if len > max_string_bytes(max_length) {
            Err(WireError::StringTooLong)
        } else if end + len > s.len() {
            Err(WireError::UnexpectedEnd)
        } else if !valid_utf8(s.subrange(end, end + len)) {
            Err(WireError::InvalidUtf8)
        } else if utf16_len(decode_utf8(s.subrange(end, end + len))) > max_length {
            Err(WireError::StringTooLong)
        } else {
            Ok((decode_utf8(s.subrange(end, end + len)), end + len))
        },
    }
}

/// Reads a length-prefixed UTF-8 string at `pos`.
pub fn read_network_string(data: &[u8], pos: usize, max_length: usize) -> (res: Result<(String, usize), WireError>)
    ensures
        match (res, spec_read_network_string(data@, pos as int, max_length as int)) {
            (Ok((v, end)), Ok((sv, send))) => v@ == sv && end == send,
            (Err(e), Err(se)) => e == se,
            _ => false,
        },
{
    let (len, end) = read_varint(data, pos)?;
    if len < 0 {
        return Err(WireError::Negative);
    }
    let bound: usize = if max_length > usize::MAX / 3 {
        usize::MAX
    } else {
        max_length * 3
    };
    if len as usize > bound {
        return Err(WireError::StringTooLong);
    }
    proof {
        lemma_varint_read_end(data@, pos as int);
    }
    if len as usize > data.len() - end {
        return Err(WireError::UnexpectedEnd);
    }
    let stop = end + len as usize;
    let bytes = vstd::slice::slice_subrange(data, end, stop);
    match utf8_to_string(bytes) {
        None => Err(WireError::InvalidUtf8),
        Some(text) => {
            if string_too_long(text.as_str(), max_length) {
                Err(WireError::StringTooLong)
            } else {
                Ok((text, stop))
            }
        },
    }
}

/// A successfully read `VarInt` ends within the input.
pub proof fn lemma_varint_read_end(s: Seq<u8>, pos: int)
    ensures
        spec_read_varint(s, pos) matches Ok((v, end)) ==> pos < end <= s.len() && end <= pos + 5,
{
    lemma_varint_groups_bound(s, pos, 5);
}

/// Law: a string accepted by the writer is read back unchanged under the
/// same bound, and the reader stops right after it.
pub proof fn lemma_network_string_round_trip(pre: Seq<u8>, chars: Seq<char>, max_length: int, rest: Seq<u8>)
    requires
        string_fits(chars, max_length),
        max_length <= i32::MAX / 3,
    ensures
        spec_read_network_string(pre + string_bytes(chars) + rest, pre.len() as int, max_length)
            == Ok::<(Seq<char>, int), WireError>(
            (chars, (pre.len() + string_bytes(chars).len()) as int),
        ),
{
    let bytes = encode_utf8(chars);
    let len = bytes.len() as i32;
    let s = pre + string_bytes(chars) + rest;
    assert(s =~= pre + varint_bytes(len) + (bytes + rest));
    lemma_varint_round_trip(pre, len, bytes + rest);
    let end = pre.len() + varint_bytes(len).len();
    assert(s.subrange(end as int, (end + bytes.len()) as int) =~= bytes);
    encode_utf8_valid_utf8(chars);
    encode_utf8_decode_utf8(chars);
}


/// An executable read result agrees with its specification: the same value
/// and end position, or the same error.
pub open spec fn read_agrees<T>(res: Result<(T, usize), WireError>, spec: Result<(T, int), WireError>) -> bool {
    match (res, spec) {
        (Ok((v, end)), Ok((sv, send))) => v == sv && end == send,
        (Err(e), Err(se)) => e == se,
        _ => false,
    }
}


/// The concatenated encodings of the items of `items`, first item first.
pub open spec fn concat_map<T>(items: Seq<T>, f: spec_fn(T) -> Seq<u8>) -> Seq<u8>
    decreases items.len(),
{
    if items.len() == 0 {
        Seq::empty()
    } else {
        f(items[0]) + concat_map(items.drop_first(), f)
    }
}

/// Encoding items is encoding their images, where each item's encoding is
/// its image's.
pub proof fn lemma_concat_map_map_values<A, B>(xs: Seq<A>, g: spec_fn(A) -> B, f: spec_fn(A) -> Seq<u8>, h: spec_fn(B) -> Seq<u8>)
    requires
        forall|x: A| #[trigger] f(x) == h(g(x)),
    ensures
        concat_map(xs, f) == concat_map(xs.map_values(g), h),
    decreases xs.len(),
{
    if xs.len() > 0 {
        lemma_concat_map_map_values(xs.drop_first(), g, f, h);
        assert(xs.map_values(g).drop_first() =~= xs.drop_first().map_values(g));
        assert(f(xs[0]) == h(g(xs[0])));
    } else {
        assert(xs.map_values(g) =~= Seq::<B>::empty());
    }
}

/// Encoding one more item appends its encoding.
pub proof fn lemma_concat_map_push<T>(items: Seq<T>, x: T, f: spec_fn(T) -> Seq<u8>)
    ensures
        concat_map(items.push(x), f) == concat_map(items, f) + f(x),
    decreases items.len(),
{
    if items.len() == 0 {
        reveal_with_fuel(concat_map, 2);
        assert(items.push(x).drop_first() =~= Seq::<T>::empty());
        assert(concat_map(items.push(x), f) =~= f(x));
    } else {
        assert(items.push(x).drop_first() =~= items.drop_first().push(x));
        lemma_concat_map_push(items.drop_first(), x, f);
        assert(concat_map(items.push(x), f) =~= concat_map(items, f) + f(x));
    }
}

/// `items` placed before the items of a successful list read.
pub open spec fn prepend_items<T>(items: Seq<T>, r: Result<(Seq<T>, int), WireError>) -> Result<(Seq<T>, int), WireError> {
    match r {
        Ok((rest, end)) => Ok((items + rest, end)),
        Err(e) => Err(e),
    }
}

/// Reads `count` items one after the other with `read`, starting at `pos`.
pub open spec fn spec_read_seq<T>(
    s: Seq<u8>,
    pos: int,
    count: nat,
    read: spec_fn(Seq<u8>, int) -> Result<(T, int), WireError>,
) -> Result<(Seq<T>, int), WireError>
    decreases count,
{
    if count == 0 {
        Ok((Seq::empty(), pos))
    } else {
        match read(s, pos) {
            Err(e) => Err(e),
            Ok((x, next)) => prepend_items(seq![x], spec_read_seq(s, next, (count - 1) as nat, read)),
        }
    }
}

/// Reading one item and then the rest is reading the list.
pub proof fn lemma_prepend_items_assoc<T>(a: Seq<T>, b: Seq<T>, r: Result<(Seq<T>, int), WireError>)
    ensures
        prepend_items(a, prepend_items(b, r)) == prepend_items(a + b, r),
{
    match r {
        Ok((rest, end)) => {
            assert(a + (b + rest) =~= (a + b) + rest);
        },
        Err(_) => {},
    }
}

/// A list written item by item reads back item by item, when each item does.
pub proof fn lemma_read_seq_round_trip<T>(
    pre: Seq<u8>,
    items: Seq<T>,
    rest: Seq<u8>,
    f: spec_fn(T) -> Seq<u8>,
    read: spec_fn(Seq<u8>, int) -> Result<(T, int), WireError>,
)
    requires
        forall|i: int, p: Seq<u8>, r: Seq<u8>| 0 <= i < items.len() ==>
            #[trigger] read(p + f(items[i]) + r, p.len() as int) == Ok::<(T, int), WireError>((items[i], (p.len() + f(items[i]).len()) as int)),
    ensures
        spec_read_seq(pre + concat_map(items, f) + rest, pre.len() as int, items.len(), read)
            == Ok::<(Seq<T>, int), WireError>((items, (pre.len() + concat_map(items, f).len()) as int)),
    decreases items.len(),
{
    if items.len() > 0 {
        let x = items[0];
        let tail = items.drop_first();
        let pre2 = pre + f(x);
        let whole = pre + concat_map(items, f) + rest;
        assert(concat_map(items, f) == f(x) + concat_map(tail, f));
        assert(whole =~= pre + f(items[0]) + (concat_map(tail, f) + rest));
        assert(read(whole, pre.len() as int) == Ok::<(T, int), WireError>((x, pre2.len() as int)));
        assert forall|i: int, p: Seq<u8>, r: Seq<u8>| 0 <= i < tail.len() implies
            #[trigger] read(p + f(tail[i]) + r, p.len() as int) == Ok::<(T, int), WireError>((tail[i], (p.len() + f(tail[i]).len()) as int)) by {
            assert(tail[i] == items[i + 1]);
            assert(read(p + f(items[i + 1]) + r, p.len() as int) == Ok::<(T, int), WireError>((items[i + 1], (p.len() + f(items[i + 1]).len()) as int)));
        }
        lemma_read_seq_round_trip(pre2, tail, rest, f, read);
        assert(pre2 + concat_map(tail, f) + rest =~= whole);
        assert(spec_read_seq(whole, pre2.len() as int, tail.len(), read)
            == Ok::<(Seq<T>, int), WireError>((tail, (pre2.len() + concat_map(tail, f).len()) as int)));
        assert((items.len() - 1) as nat == tail.len());
        assert(seq![x] + tail =~= items);
        assert(spec_read_seq(whole, pre.len() as int, items.len(), read)
            == prepend_items(seq![x], spec_read_seq(whole, pre2.len() as int, tail.len(), read)));
    } else {
        assert(items =~= Seq::<T>::empty());
        assert(pre + concat_map(items, f) + rest =~= pre + rest);
    }
}


/// The big-endian form of an `i32`, as a function for list encodings.
pub open spec fn i32_be_item() -> spec_fn(i32) -> Seq<u8> {
    |v: i32| i32_be_bytes(v)
}

/// The big-endian reader of an `i32`, as a function for list decodings.
pub open spec fn i32_be_reader() -> spec_fn(Seq<u8>, int) -> Result<(i32, int), WireError> {
    |s: Seq<u8>, pos: int| spec_read_i32_be(s, pos)
}

/// The network form of a list of `i32`s: the count as a `VarInt`, then each
/// value as a big-endian `i32`.
#[verifier::opaque]
pub open spec fn int_list_bytes(values: Seq<i32>) -> Seq<u8> {
    varint_bytes(values.len() as i32) + concat_map(values, i32_be_item())
}

/// Writes a list of `i32`s; a list longer than `i32::MAX` is refused.
pub fn write_int_list(buf: &mut Vec<u8>, values: &[i32]) -> (res: Result<(), WireError>)
    ensures
        res is Ok <==> values@.len() <= i32::MAX,
        res is Ok ==> final(buf)@ == old(buf)@ + int_list_bytes(values@),
        res is Err ==> final(buf)@ == old(buf)@,
{
    if values.len() > 0x7fff_ffff {
        return Err(WireError::TooMany);
    }
    write_varint(buf, values.len() as i32);
    let ghost start = buf@;
    let mut i: usize = 0;
    assert(values@.take(0) =~= Seq::<i32>::empty());
    while i < values.len()
        invariant
            i <= values@.len(),
            buf@ == start + concat_map(values@.take(i as int), i32_be_item()),
        decreases values.len() - i,
    {
        write_i32_be(buf, values[i]);
        proof {
            lemma_concat_map_push(values@.take(i as int), values@[i as int], i32_be_item());
            assert(values@.take(i as int).push(values@[i as int]) =~= values@.take(i + 1));
        }
        i = i + 1;
    }
    assert(values@.take(i as int) =~= values@);
    reveal(int_list_bytes);
    assert(final(buf)@ =~= old(buf)@ + int_list_bytes(values@));
    Ok(())
}

/// Reads a list of `i32`s: a non-negative count, then that many values.
pub open spec fn spec_read_int_list(s: Seq<u8>, pos: int) -> Result<(Seq<i32>, int), WireError> {
    match spec_read_bounded_count(s, pos, i32::MAX as int) {
        Err(e) => Err(e),
        Ok((count, next)) => spec_read_seq(s, next, count as nat, i32_be_reader()),
    }
}

/// Reads a list of `i32`s: a non-negative count, then that many values.
pub fn read_int_list(data: &[u8], pos: usize) -> (res: Result<(Vec<i32>, usize), WireError>)
    ensures
        match (res, spec_read_int_list(data@, pos as int)) {
            (Ok((v, end)), Ok((sv, send))) => v@ == sv && end == send,
            (Err(e), Err(se)) => e == se,
            _ => false,
        },
{
    let (count, next) = read_bounded_count(data, pos, 0x7fff_ffff)?;
    let ghost reader = i32_be_reader();
    let mut values: Vec<i32> = Vec::new();
    let mut cur = next;
    let mut i: usize = 0;
    assert(values@ + Seq::<i32>::empty() =~= values@);
    while i < count
        invariant
            i <= count,
            reader == i32_be_reader(),
            spec_read_int_list(data@, pos as int) == spec_read_seq(data@, next as int, count as nat, reader),
            spec_read_seq(data@, next as int, count as nat, reader)
                == prepend_items(values@, spec_read_seq(data@, cur as int, (count - i) as nat, reader)),
        decreases count - i,
    {
        let ghost rest = spec_read_seq(data@, cur as int, (count - i) as nat, reader);
        let (v, end) = match read_i32_be(data, cur) {
            Ok(r) => r,
            Err(e) => {
                assert(reader(data@, cur as int) == Err::<(i32, int), WireError>(e));
                assert(rest == Err::<(Seq<i32>, int), WireError>(e));
                return Err(e);
            },
        };
        proof {
            let tail = spec_read_seq(data@, end as int, (count - i - 1) as nat, reader);
            assert(reader(data@, cur as int) == Ok::<(i32, int), WireError>((v, end as int)));
            assert(rest == prepend_items(seq![v], tail));
            lemma_prepend_items_assoc(values@, seq![v], tail);
        }
        let ghost before = values@;
        values.push(v);
        assert(values@ =~= before + seq![v]);
        cur = end;
        i = i + 1;
    }
    assert(values@ + Seq::<i32>::empty() =~= values@);
    Ok((values, cur))
}

/// Law: a list of `i32`s reads back unchanged.
pub proof fn lemma_int_list_round_trip(pre: Seq<u8>, values: Seq<i32>, rest: Seq<u8>)
    requires
        values.len() <= i32::MAX,
    ensures
        spec_read_int_list(pre + int_list_bytes(values) + rest, pre.len() as int)
            == Ok::<(Seq<i32>, int), WireError>((values, (pre.len() + int_list_bytes(values).len()) as int)),
{
    reveal(int_list_bytes);
    let count = varint_bytes(values.len() as i32);
    let body = concat_map(values, i32_be_item());
    assert(pre + int_list_bytes(values) + rest =~= pre + count + (body + rest));
    lemma_bounded_count_round_trip(pre, values.len() as int, i32::MAX as int, body + rest);
    assert forall|i: int, p: Seq<u8>, r: Seq<u8>| 0 <= i < values.len() implies
        #[trigger] i32_be_reader()(p + i32_be_item()(values[i]) + r, p.len() as int)
            == Ok::<(i32, int), WireError>((values[i], (p.len() + i32_be_item()(values[i]).len()) as int)) by {
        lemma_i32_be_round_trip(p, values[i], r);
    }
    lemma_read_seq_round_trip(pre + count, values, rest, i32_be_item(), i32_be_reader());
    assert(pre + count + body + rest =~= pre + int_list_bytes(values) + rest);
}

} // verus!
