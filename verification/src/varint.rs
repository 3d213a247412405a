//! The variable-length integer codec: seven payload bits per byte, least
//! significant group first, with the top bit of each byte saying whether
//! another byte follows.

use crate::cursor::Cursor;
use vstd::prelude::*;

verus! {

/// The largest number of bytes that one encoded integer may occupy.
pub const MAX_SIZE: usize = 5;

/// Why a variable-length integer could not be read.
#[derive(Clone, Copy, Debug, PartialEq, Eq, Structural)]
pub enum VarIntError {
    /// The buffer ended before a byte without the continuation bit was seen.
    UnexpectedEnd,
    /// Five bytes were read and every one of them asked for another.
    TooLarge,
}

/// The weight of the payload group at position `i`: 128 to the power `i`.
pub open spec fn group_weight(i: nat) -> int
    decreases i,
{
    if i == 0 {
        1
    } else {
        128 * group_weight((i - 1) as nat)
    }
}

/// The payload carried by the first `n` bytes, as an unbounded integer.
pub open spec fn payload(bytes: Seq<u8>, n: nat) -> int
    recommends
        n <= bytes.len(),
    decreases n,
{
    if n == 0 {
        0
    } else {
        payload(bytes, (n - 1) as nat) + (bytes[n - 1] as int % 128) * group_weight((n - 1) as nat)
    }
}

/// The low 32 bits of `x`, read as a two's-complement number.
pub open spec fn wrap_i32(x: int) -> i32 {
    let m = x % 0x1_0000_0000;
    if m >= 0x8000_0000 {
        (m - 0x1_0000_0000) as i32
    } else {
        m as i32
    }
}

/// What reading one integer from the front of `bytes` gives: the value with
/// the number of bytes it occupies, or the reason for the failure. The scan
/// starts at byte `i`; callers start it at 0.
pub open spec fn scan(bytes: Seq<u8>, i: nat) -> Result<(i32, nat), VarIntError>
    decreases MAX_SIZE - i,
{
    if i >= MAX_SIZE {
        Err(VarIntError::TooLarge)
    } else if i >= bytes.len() {
        Err(VarIntError::UnexpectedEnd)
    } else if bytes[i as int] < 128 {
        Ok((wrap_i32(payload(bytes, i + 1)), i + 1))
    } else {
        scan(bytes, i + 1)
    }
}

/// The meaning of a variable-length integer at the front of `bytes`.
pub open spec fn spec_decode_varint(bytes: Seq<u8>) -> Result<(i32, nat), VarIntError> {
    scan(bytes, 0)
}

/// The weights of the five groups, written out.
pub proof fn lemma_group_weights()
    ensures
        group_weight(0) == 1,
        group_weight(1) == 128,
        group_weight(2) == 16384,
        group_weight(3) == 2097152,
        group_weight(4) == 268435456,
        group_weight(5) == 34359738368,
{
    reveal_with_fuel(group_weight, 6);
}

/// The executable form of `wrap_i32`, for a payload of at most 35 bits.
fn to_i32(acc: u64) -> (v: i32)
    requires
        acc < 34359738368,
    ensures
        v == wrap_i32(acc as int),
{
    let m: u64 = acc % 0x1_0000_0000;
    if m >= 0x8000_0000 {
        let d: u64 = 0x1_0000_0000 - m;
        let neg: i64 = 0 - (d as i64);
        neg as i32
    } else {
        m as i32
    }
}

/// Reads one variable-length integer from the front of the cursor.
///
/// On success the cursor has moved past exactly the bytes of the encoding.
/// On failure the cursor is left where it was.
pub fn decode_varint(r: &mut Cursor) -> (res: Result<i32, VarIntError>)
    ensures
        match spec_decode_varint(old(r)@) {
            Ok((value, used)) => res == Ok::<i32, VarIntError>(value) && used <= old(r)@.len()
                && final(r)@ == old(r)@.skip(used as int),
            Err(e) => res == Err::<i32, VarIntError>(e) && final(r)@ == old(r)@,
        },
{
    let ghost bytes = r@;
    let mut acc: u64 = 0;
    let mut weight: u64 = 1;
    let mut i: usize = 0;
    proof {
        lemma_group_weights();
    }
    while i < MAX_SIZE
        invariant
            r@ == bytes,
            bytes == old(r)@,
            i <= MAX_SIZE,
            i <= bytes.len(),
            weight == group_weight(i as nat),
            acc == payload(bytes, i as nat),
            acc < weight,
            scan(bytes, 0) == scan(bytes, i as nat),
        decreases MAX_SIZE - i,
    {
        if i >= r.len() {
            return Err(VarIntError::UnexpectedEnd);
        }
        let byte: u8 = r.peek(i);
        let low: u64 = (byte % 128) as u64;
        proof {
            lemma_group_weights();
            assert(weight <= 268435456);
            assert(low * weight <= 127 * weight) by (nonlinear_arith)
                requires
                    low <= 127,
                    weight >= 0,
            ;
        }
        acc = acc + low * weight;
        weight = weight * 128;
        i = i + 1;
        if byte < 128 {
            let value: i32 = to_i32(acc);
            r.advance(i);
            return Ok(value);
        }
    }
    Err(VarIntError::TooLarge)
}

/// Reading an integer is a function of the bytes in front of the cursor:
/// two cursors over equal bytes give the same outcome and the same advance.
pub proof fn lemma_varint_deterministic(a: Seq<u8>, b: Seq<u8>)
    requires
        a == b,
    ensures
        spec_decode_varint(a) == spec_decode_varint(b),
{
}

/// A successful read consumes between one and five bytes, the last of which
/// has its continuation bit clear while every earlier one has it set.
pub proof fn lemma_varint_shape(bytes: Seq<u8>)
    ensures
        match spec_decode_varint(bytes) {
            Ok((value, used)) => {
                &&& 1 <= used <= MAX_SIZE
                &&& used <= bytes.len()
                &&& bytes[used - 1] < 128
                &&& forall|j: int| 0 <= j < used - 1 ==> bytes[j] >= 128
                &&& value == wrap_i32(payload(bytes, used))
            },
            Err(VarIntError::UnexpectedEnd) => {
                &&& bytes.len() < MAX_SIZE
                &&& forall|j: int| 0 <= j < bytes.len() ==> bytes[j] >= 128
            },
            Err(VarIntError::TooLarge) => {
                &&& bytes.len() >= MAX_SIZE
                &&& forall|j: int| 0 <= j < MAX_SIZE ==> bytes[j] >= 128
            },
        },
{
    lemma_scan_shape(bytes, 0);
}

/// The same, for a scan that starts at byte `i` after `i` continuation bytes.
proof fn lemma_scan_shape(bytes: Seq<u8>, i: nat)
    requires
        i <= MAX_SIZE,
        i <= bytes.len(),
        forall|j: int| 0 <= j < i ==> bytes[j] >= 128,
    ensures
        match scan(bytes, i) {
            Ok((value, used)) => {
                &&& i < used <= MAX_SIZE
                &&& used <= bytes.len()
                &&& bytes[used - 1] < 128
                &&& forall|j: int| 0 <= j < used - 1 ==> bytes[j] >= 128
                &&& value == wrap_i32(payload(bytes, used))
            },
            Err(VarIntError::UnexpectedEnd) => {
                &&& bytes.len() < MAX_SIZE
                &&& forall|j: int| 0 <= j < bytes.len() ==> bytes[j] >= 128
            },
            Err(VarIntError::TooLarge) => {
                &&& bytes.len() >= MAX_SIZE
                &&& forall|j: int| 0 <= j < MAX_SIZE ==> bytes[j] >= 128
            },
        },
    decreases MAX_SIZE - i,
{
    if i < MAX_SIZE && i < bytes.len() && bytes[i as int] >= 128 {
        lemma_scan_shape(bytes, i + 1);
    }
}

/// Only the bytes of the encoding matter: whatever follows them in the
/// buffer does not change the value or the number of bytes consumed.
pub proof fn lemma_varint_ignores_tail(bytes: Seq<u8>, tail: Seq<u8>)
    requires
        spec_decode_varint(bytes) is Ok,
    ensures
        spec_decode_varint(bytes + tail) == spec_decode_varint(bytes),
{
    lemma_scan_ignores_tail(bytes, tail, 0);
}

/// The payload of the first `n` bytes does not depend on what follows them.
proof fn lemma_payload_ignores_tail(bytes: Seq<u8>, tail: Seq<u8>, n: nat)
    requires
        n <= bytes.len(),
    ensures
        payload(bytes + tail, n) == payload(bytes, n),
    decreases n,
{
    if n > 0 {
        lemma_payload_ignores_tail(bytes, tail, (n - 1) as nat);
        assert((bytes + tail)[n - 1] == bytes[n - 1]);
    }
}

/// A scan that succeeds from byte `i` on does so whatever follows.
proof fn lemma_scan_ignores_tail(bytes: Seq<u8>, tail: Seq<u8>, i: nat)
    requires
        scan(bytes, i) is Ok,
    ensures
        scan(bytes + tail, i) == scan(bytes, i),
    decreases MAX_SIZE - i,
{
    if i < MAX_SIZE && i < bytes.len() {
        assert((bytes + tail)[i as int] == bytes[i as int]);
        if bytes[i as int] < 128 {
            lemma_payload_ignores_tail(bytes, tail, i + 1);
        } else {
            lemma_scan_ignores_tail(bytes, tail, i + 1);
        }
    }
}

/// The 32 bits of `v` as an unsigned number.
pub open spec fn unsigned(v: i32) -> nat {
    if v < 0 {
        (v + 0x1_0000_0000) as nat
    } else {
        v as nat
    }
}

/// The groups of seven bits of `n`, least significant first, every byte but
/// the last with its continuation bit set.
pub open spec fn encode_groups(n: nat) -> Seq<u8>
    decreases n,
{
    if n < 128 {
        seq![n as u8]
    } else {
        seq![(n % 128 + 128) as u8] + encode_groups(n / 128)
    }
}

/// The encoding of `v`.
pub open spec fn spec_encode_varint(v: i32) -> Seq<u8> {
    encode_groups(unsigned(v))
}

/// Encodes `v` as a variable-length integer.
pub fn encode_varint(v: i32) -> (out: Vec<u8>)
    ensures
        out@ == spec_encode_varint(v),
{
    let wide: i64 = v as i64;
    let mut n: u64 = if wide < 0 {
        (wide + 0x1_0000_0000) as u64
    } else {
        wide as u64
    };
    let mut out: Vec<u8> = Vec::new();
    assert(out@ + encode_groups(n as nat) =~= encode_groups(unsigned(v)));
    while n >= 128
        invariant
            out@ + encode_groups(n as nat) == encode_groups(unsigned(v)),
        decreases n,
    {
        let ghost before = out@;
        let byte: u8 = (n % 128 + 128) as u8;
        out.push(byte);
        assert(out@ + encode_groups((n / 128) as nat) =~= before + encode_groups(n as nat));
        n = n / 128;
    }
    let ghost before = out@;
    out.push(n as u8);
    assert(out@ =~= before + encode_groups(n as nat));
    out
}

/// The largest number whose groups still fit when `i` bytes are taken.
spec fn room(i: nat) -> int {
    if i == 0 {
        0x1_0000_0000
    } else if i == 1 {
        0x200_0000
    } else if i == 2 {
        0x4_0000
    } else if i == 3 {
        0x800
    } else if i == 4 {
        0x10
    } else {
        0
    }
}

/// When the groups of `n` stand in `bytes` from position `i` on, a scan
/// from `i` ends behind them with the payload before `i` plus `n` at the
/// weight of position `i`.
proof fn lemma_scan_groups(bytes: Seq<u8>, i: nat, n: nat)
    requires
        i < MAX_SIZE,
        n < room(i),
        i + encode_groups(n).len() <= bytes.len(),
        forall|j: int|
            0 <= j < encode_groups(n).len() ==> bytes[i + j] == #[trigger] encode_groups(n)[j],
    ensures
        scan(bytes, i) == Ok::<(i32, nat), VarIntError>(
            (wrap_i32(payload(bytes, i) + n * group_weight(i)), i + encode_groups(n).len()),
        ),
    decreases n,
{
    let groups = encode_groups(n);
    assert(bytes[i + 0int] == groups[0]);
    if n < 128 {
        assert(bytes[i as int] as int % 128 == n);
    } else {
        let rest = encode_groups(n / 128);
        assert(groups =~= seq![(n % 128 + 128) as u8] + rest);
        assert(bytes[i as int] == (n % 128 + 128) as u8);
        assert forall|j: int| 0 <= j < rest.len() implies bytes[i + 1 + j] == #[trigger] rest[j] by {
            assert(bytes[i + (j + 1)] == groups[j + 1]);
        }
        lemma_scan_groups(bytes, i + 1, n / 128);
        let w = group_weight(i);
        assert(group_weight(i + 1) == 128 * w);
        assert(bytes[i as int] as int % 128 == n % 128);
        assert((n % 128) * w + (n / 128) * (128 * w) == n * w) by (nonlinear_arith);
    }
}

/// Decoding undoes encoding: the encoding of `v`, with anything behind it,
/// decodes to `v` and consumes exactly the bytes of the encoding, which are
/// at most five.
pub proof fn lemma_varint_round_trip(v: i32, tail: Seq<u8>)
    ensures
        spec_decode_varint(spec_encode_varint(v) + tail) == Ok::<(i32, nat), VarIntError>(
            (v, spec_encode_varint(v).len()),
        ),
        1 <= spec_encode_varint(v).len() <= MAX_SIZE,
{
    let groups = spec_encode_varint(v);
    let bytes = groups + tail;
    assert forall|j: int| 0 <= j < groups.len() implies bytes[0 + j] == #[trigger] groups[j] by {
    }
    lemma_scan_groups(bytes, 0, unsigned(v));
    lemma_varint_shape(bytes);
}

} // verus!
