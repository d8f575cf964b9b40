//! Sequential reads from a byte buffer: every read advances the position by
//! exactly the bytes it consumes, and a read past the end is `Truncated`.
use vstd::prelude::*;
use vstd::utf8::{decode_utf8, valid_utf8};

verus! {

/// Why a binary document could not be decoded.
#[derive(Debug, PartialEq, Eq, Clone, Copy)]
pub enum DecodeError {
    /// A read would go past the end of the buffer.
    Truncated,
    /// String bytes that are not valid in their encoding.
    Encoding,
    /// A value outside what the format allows at this point.
    Malformed,
    /// A part of the document that this decoder does not read.
    Unsupported,
}

/// Whether `n` bytes can be read at `p` in a buffer of `len` bytes.
pub open spec fn fits(len: nat, p: nat, n: nat) -> bool {
    p + n <= len
}

/// The unsigned big-endian value of `b[p..p + n]`.
pub open spec fn be_unsigned(b: Seq<u8>, p: int, n: nat) -> nat
    decreases n,
{
    if n == 0 {
        0
    } else {
        be_unsigned(b, p, (n - 1) as nat) * 256 + b[p + n - 1] as nat
    }
}

/// The two's-complement value of the big-endian `b[p..p + 4]`.
pub open spec fn be_i32(b: Seq<u8>, p: int) -> int {
    let u = be_unsigned(b, p, 4);
    if u >= 0x8000_0000 {
        u - 0x1_0000_0000
    } else {
        u as int
    }
}

/// The two's-complement value of the big-endian `b[p..p + 2]`.
pub open spec fn be_i16(b: Seq<u8>, p: int) -> int {
    let u = be_unsigned(b, p, 2);
    if u >= 0x8000 {
        u - 0x1_0000
    } else {
        u as int
    }
}

/// One byte at `p`, and the position after it.
pub open spec fn byte_at(d: Seq<u8>, p: nat) -> Result<(u8, nat), DecodeError> {
    if fits(d.len(), p, 1) {
        Ok((d[p as int], p + 1))
    } else {
        Err(DecodeError::Truncated)
    }
}

/// One byte at `p` read as a signed value.
pub open spec fn signed_byte_at(d: Seq<u8>, p: nat) -> Result<(int, nat), DecodeError> {
    if fits(d.len(), p, 1) {
        Ok((if d[p as int] >= 128 { d[p as int] - 256 } else { d[p as int] as int }, p + 1))
    } else {
        Err(DecodeError::Truncated)
    }
}

/// A big-endian 16-bit integer at `p`.
pub open spec fn short_at(d: Seq<u8>, p: nat) -> Result<(int, nat), DecodeError> {
    if fits(d.len(), p, 2) {
        Ok((be_i16(d, p as int), p + 2))
    } else {
        Err(DecodeError::Truncated)
    }
}

/// A big-endian 32-bit integer at `p`.
pub open spec fn int_at(d: Seq<u8>, p: nat) -> Result<(int, nat), DecodeError> {
    if fits(d.len(), p, 4) {
        Ok((be_i32(d, p as int), p + 4))
    } else {
        Err(DecodeError::Truncated)
    }
}

/// The UTF-8 text of the `n` bytes at `p`.
pub open spec fn utf8_at(d: Seq<u8>, p: nat, n: nat) -> Result<(Seq<char>, nat), DecodeError> {
    if !fits(d.len(), p, n) {
        Err(DecodeError::Truncated)
    } else {
        match utf8_text(d.subrange(p as int, (p + n) as int)) {
            Ok(t) => Ok((t, p + n)),
            Err(e) => Err(e),
        }
    }
}

/// A string whose byte count comes first as a 32-bit integer.
pub open spec fn int_size_string_at(d: Seq<u8>, p: nat) -> Result<(Seq<char>, nat), DecodeError> {
    match int_at(d, p) {
        Err(e) => Err(e),
        Ok((n, q)) => if n < 0 {
            Err(DecodeError::Malformed)
        } else {
            utf8_at(d, q, n as nat)
        },
    }
}

/// A string in a field of `size` bytes whose length comes first as one byte.
pub open spec fn byte_size_string_at(d: Seq<u8>, p: nat, size: nat) -> Result<(Seq<char>, nat), DecodeError> {
    match byte_at(d, p) {
        Err(e) => Err(e),
        Ok((n, q)) => if n > size {
            Err(DecodeError::Malformed)
        } else if !fits(d.len(), q, size) {
            Err(DecodeError::Truncated)
        } else {
            match utf8_text(d.subrange(q as int, (q + n) as int)) {
                Ok(t) => Ok((t, q + size)),
                Err(e) => Err(e),
            }
        },
    }
}

/// Relies on std's `String::from_utf8`: it accepts exactly the valid UTF-8
/// sequences and holds the characters they encode.
#[verifier::external_body]
pub(crate) fn utf8_string(bytes: Vec<u8>) -> (r: Option<String>)
    ensures
        r is Some <==> valid_utf8(bytes@),
        r matches Some(s) ==> s@ == decode_utf8(bytes@),
{
    String::from_utf8(bytes).ok()
}

/// Relies on std's `String::from_iter`: the string of the given characters, in order.
#[verifier::external_body]
pub(crate) fn string_of_chars(cs: &Vec<char>) -> (r: String)
    ensures
        r@ == cs@,
{
    String::from_iter(cs.iter())
}

/// Relies on std's `char::from_u32`: the scalar value `c`, which must not be a surrogate.
#[verifier::external_body]
fn char_of(c: u32) -> (r: Option<char>)
    ensures
        r is Some <==> (c < 0xD800 || 0xE000 <= c <= 0x10FFFF),
        r matches Some(ch) ==> ch as u32 == c,
{
    char::from_u32(c)
}

/// Reads one byte.
pub fn read_byte(data: &[u8], seek: &mut usize) -> (r: Result<u8, DecodeError>)
    ensures
        fits(data@.len(), *old(seek) as nat, 1) ==> r == Ok::<u8, DecodeError>(data@[*old(seek) as int])
            && *final(seek) == *old(seek) + 1,
        !fits(data@.len(), *old(seek) as nat, 1) ==> r == Err::<u8, DecodeError>(DecodeError::Truncated),
        match byte_at(data@, *old(seek) as nat) {
            Ok((v, q)) => r == Ok::<u8, DecodeError>(v) && *final(seek) == q,
            Err(e) => r == Err::<u8, DecodeError>(e),
        },
{
    if *seek >= data.len() {
        return Err(DecodeError::Truncated);
    }
    let b = data[*seek];
    *seek = *seek + 1;
    Ok(b)
}

/// Reads one byte as a signed value.
pub fn read_signed_byte(data: &[u8], seek: &mut usize) -> (r: Result<i8, DecodeError>)
    ensures
        fits(data@.len(), *old(seek) as nat, 1) ==> r is Ok && *final(seek) == *old(seek) + 1
            && r->Ok_0 as int == (if data@[*old(seek) as int] >= 128 {
                data@[*old(seek) as int] - 256
            } else {
                data@[*old(seek) as int] as int
            }),
        !fits(data@.len(), *old(seek) as nat, 1) ==> r == Err::<i8, DecodeError>(DecodeError::Truncated),
        match signed_byte_at(data@, *old(seek) as nat) {
            Ok((v, q)) => r is Ok && r->Ok_0 as int == v && *final(seek) == q,
            Err(e) => r == Err::<i8, DecodeError>(e),
        },
{
    let b = read_byte(data, seek)?;
    if b >= 128 {
        Ok((b as i16 - 256) as i8)
    } else {
        Ok(b as i8)
    }
}

/// Reads one byte as a flag: any value but zero is `true`.
pub fn read_bool(data: &[u8], seek: &mut usize) -> (r: Result<bool, DecodeError>)
    ensures
        fits(data@.len(), *old(seek) as nat, 1) ==> r == Ok::<bool, DecodeError>(data@[*old(seek) as int] != 0)
            && *final(seek) == *old(seek) + 1,
        !fits(data@.len(), *old(seek) as nat, 1) ==> r == Err::<bool, DecodeError>(DecodeError::Truncated),
{
    let b = read_byte(data, seek)?;
    Ok(b != 0)
}

/// Reads a big-endian 16-bit integer.
pub fn read_short(data: &[u8], seek: &mut usize) -> (r: Result<i16, DecodeError>)
    ensures
        fits(data@.len(), *old(seek) as nat, 2) ==> r is Ok && r->Ok_0 as int == be_i16(data@, *old(seek) as int)
            && *final(seek) == *old(seek) + 2,
        !fits(data@.len(), *old(seek) as nat, 2) ==> r == Err::<i16, DecodeError>(DecodeError::Truncated),
        match short_at(data@, *old(seek) as nat) {
            Ok((v, q)) => r is Ok && r->Ok_0 as int == v && *final(seek) == q,
            Err(e) => r == Err::<i16, DecodeError>(e),
        },
{
    if *seek > data.len() || data.len() - *seek < 2 {
        return Err(DecodeError::Truncated);
    }
    let p = *seek;
    let u: u32 = data[p] as u32 * 256 + data[p + 1] as u32;
    *seek = p + 2;
    proof {
        reveal_with_fuel(be_unsigned, 3);
    }
    if u >= 0x8000 {
        Ok((u as i32 - 0x1_0000) as i16)
    } else {
        Ok(u as i16)
    }
}

/// Reads a big-endian 32-bit integer.
pub fn read_int(data: &[u8], seek: &mut usize) -> (r: Result<i32, DecodeError>)
    ensures
        fits(data@.len(), *old(seek) as nat, 4) ==> r is Ok && r->Ok_0 as int == be_i32(data@, *old(seek) as int)
            && *final(seek) == *old(seek) + 4,
        !fits(data@.len(), *old(seek) as nat, 4) ==> r == Err::<i32, DecodeError>(DecodeError::Truncated),
        match int_at(data@, *old(seek) as nat) {
            Ok((v, q)) => r is Ok && r->Ok_0 as int == v && *final(seek) == q,
            Err(e) => r == Err::<i32, DecodeError>(e),
        },
{
    if *seek > data.len() || data.len() - *seek < 4 {
        return Err(DecodeError::Truncated);
    }
    let p = *seek;
    let u: u64 = data[p] as u64 * 16777216 + data[p + 1] as u64 * 65536 + data[p + 2] as u64 * 256
        + data[p + 3] as u64;
    *seek = p + 4;
    proof {
        reveal_with_fuel(be_unsigned, 5);
    }
    if u >= 0x8000_0000 {
        Ok((u as i64 - 0x1_0000_0000) as i32)
    } else {
        Ok(u as i32)
    }
}

/// Takes `n` bytes at the position.
pub fn read_bytes(data: &[u8], seek: &mut usize, n: usize) -> (r: Result<Vec<u8>, DecodeError>)
    ensures
        fits(data@.len(), *old(seek) as nat, n as nat) ==> (r matches Ok(v)
            && v@ == data@.subrange(*old(seek) as int, *old(seek) + n) && *final(seek) == *old(seek) + n),
        !fits(data@.len(), *old(seek) as nat, n as nat) ==> r == Err::<Vec<u8>, DecodeError>(DecodeError::Truncated),
{
    if *seek > data.len() || data.len() - *seek < n {
        return Err(DecodeError::Truncated);
    }
    let p = *seek;
    let len = data.len();
    let mut out: Vec<u8> = Vec::new();
    for i in 0..n
        invariant
            len == data@.len(),
            p + n <= len,
            out@ == data@.subrange(p as int, p + i),
    {
        out.push(data[p + i]);
        assert(out@ =~= data@.subrange(p as int, p + i + 1));
    }
    *seek = p + n;
    Ok(out)
}

/// The string that the UTF-8 bytes `b` encode.
pub open spec fn utf8_text(b: Seq<u8>) -> Result<Seq<char>, DecodeError> {
    if valid_utf8(b) {
        Ok(decode_utf8(b))
    } else {
        Err(DecodeError::Encoding)
    }
}

/// Takes `n` bytes at the position and decodes them as UTF-8.
pub fn read_utf8(data: &[u8], seek: &mut usize, n: usize) -> (r: Result<String, DecodeError>)
    ensures
        fits(data@.len(), *old(seek) as nat, n as nat) ==> *final(seek) == *old(seek) + n
            && match utf8_text(data@.subrange(*old(seek) as int, *old(seek) + n)) {
                Ok(t) => r matches Ok(s) && s@ == t,
                Err(e) => r == Err::<String, DecodeError>(e),
            },
        !fits(data@.len(), *old(seek) as nat, n as nat) ==> r == Err::<String, DecodeError>(DecodeError::Truncated),
        match utf8_at(data@, *old(seek) as nat, n as nat) {
            Ok((t, q)) => r matches Ok(s) && s@ == t && *final(seek) == q,
            Err(e) => r == Err::<String, DecodeError>(e),
        },
{
    let bytes = read_bytes(data, seek, n)?;
    match utf8_string(bytes) {
        Some(s) => Ok(s),
        None => Err(DecodeError::Encoding),
    }
}

/// Reads a string whose byte count comes first as a 32-bit integer.
pub fn read_int_size_string(data: &[u8], seek: &mut usize) -> (r: Result<String, DecodeError>)
    ensures
        match int_size_string_at(data@, *old(seek) as nat) {
            Ok((t, q)) => r matches Ok(s) && s@ == t && *final(seek) == q,
            Err(e) => r == Err::<String, DecodeError>(e),
        },
        !fits(data@.len(), *old(seek) as nat, 4) ==> r == Err::<String, DecodeError>(DecodeError::Truncated),
        fits(data@.len(), *old(seek) as nat, 4) ==> {
            let n = be_i32(data@, *old(seek) as int);
            let p = *old(seek) + 4;
            if n < 0 {
                r == Err::<String, DecodeError>(DecodeError::Malformed)
            } else if !fits(data@.len(), p as nat, n as nat) {
                r == Err::<String, DecodeError>(DecodeError::Truncated)
            } else {
                *final(seek) == p + n && match utf8_text(data@.subrange(p, p + n)) {
                    Ok(t) => r matches Ok(s) && s@ == t,
                    Err(e) => r == Err::<String, DecodeError>(e),
                }
            }
        },
{
    let n = read_int(data, seek)?;
    if n < 0 {
        return Err(DecodeError::Malformed);
    }
    read_utf8(data, seek, n as usize)
}

/// Reads a string stored in a field of `size` bytes, whose length comes
/// first as one byte; the field is consumed whole.
pub fn read_byte_size_string(data: &[u8], seek: &mut usize, size: usize) -> (r: Result<String, DecodeError>)
    ensures
        match byte_size_string_at(data@, *old(seek) as nat, size as nat) {
            Ok((t, q)) => r matches Ok(s) && s@ == t && *final(seek) == q,
            Err(e) => r == Err::<String, DecodeError>(e),
        },
        !fits(data@.len(), *old(seek) as nat, 1) ==> r == Err::<String, DecodeError>(DecodeError::Truncated),
        fits(data@.len(), *old(seek) as nat, 1) ==> {
            let n = data@[*old(seek) as int] as int;
            let p = *old(seek) + 1;
            if n > size {
                r == Err::<String, DecodeError>(DecodeError::Malformed)
            } else if !fits(data@.len(), p as nat, size as nat) {
                r == Err::<String, DecodeError>(DecodeError::Truncated)
            } else {
                match utf8_text(data@.subrange(p, p + n)) {
                    Ok(t) => r matches Ok(s) && s@ == t && *final(seek) == p + size,
                    Err(e) => r == Err::<String, DecodeError>(e),
                }
            }
        },
{
    let n = read_byte(data, seek)? as usize;
    if n > size {
        return Err(DecodeError::Malformed);
    }
    if *seek > data.len() || data.len() - *seek < size {
        return Err(DecodeError::Truncated);
    }
    let start = *seek;
    let s = read_utf8(data, seek, n)?;
    *seek = start + size;
    Ok(s)
}

/// The big-endian two-byte code units of `b`.
pub open spec fn wide_units(b: Seq<u8>) -> Seq<int> {
    Seq::new(b.len() / 2, |k: int| b[2 * k] as int * 256 + b[2 * k + 1] as int)
}

pub open spec fn is_surrogate(u: int) -> bool {
    0xD800 <= u < 0xE000
}

/// Decodes a string whose characters take two bytes each, big-endian; a
/// surrogate code unit is an encoding error, and an odd byte count means
/// the last character was cut short.
pub fn read_unsigned_byte_string(data: &Vec<u8>) -> (r: Result<String, DecodeError>)
    ensures
        data@.len() % 2 == 1 ==> r == Err::<String, DecodeError>(DecodeError::Truncated),
        data@.len() % 2 == 0 && (forall|k: int| 0 <= k < wide_units(data@).len() ==> !is_surrogate(#[trigger] wide_units(data@)[k]))
            ==> (r matches Ok(s) && s@.len() == wide_units(data@).len()
            && forall|k: int| 0 <= k < s@.len() ==> #[trigger] s@[k] as u32 == wide_units(data@)[k]),
        data@.len() % 2 == 0 && (exists|k: int| 0 <= k < wide_units(data@).len() && is_surrogate(#[trigger] wide_units(data@)[k]))
            ==> r == Err::<String, DecodeError>(DecodeError::Encoding),
{
    if data.len() % 2 == 1 {
        return Err(DecodeError::Truncated);
    }
    let ghost units = wide_units(data@);
    let mut cs: Vec<char> = Vec::new();
    let len = data.len();
    let half = len / 2;
    for k in 0..half
        invariant
            len == data@.len(),
            len % 2 == 0,
            half == len / 2,
            units == wide_units(data@),
            half == units.len(),
            half * 2 <= data@.len(),
            cs@.len() == k,
            forall|j: int| 0 <= j < k ==> !is_surrogate(#[trigger] units[j]),
            forall|j: int| 0 <= j < k ==> #[trigger] cs@[j] as u32 == units[j],
    {
        let u: u32 = data[2 * k] as u32 * 256 + data[2 * k + 1] as u32;
        assert(u == units[k as int]);
        match char_of(u) {
            Some(c) => {
                cs.push(c);
            },
            None => {
                return Err(DecodeError::Encoding);
            },
        }
    }
    let s = string_of_chars(&cs);
    Ok(s)
}

} // verus!
