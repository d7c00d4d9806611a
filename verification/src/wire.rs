//! The values of the binary protocol: how each is laid out in bytes, and
//! how bytes are read back.
//!
//! Integers are big-endian and signed integers are in two's complement. A
//! variable-length integer holds a 32-bit value in groups of seven bits, the
//! lowest group first, each byte but the last with its top bit set. A string
//! is the length of its UTF-8 bytes as a variable-length integer, and then
//! those bytes.

use vstd::prelude::*;
use vstd::slice::slice_subrange;
use vstd::slice::slice_to_vec;
use vstd::string::StringSliceAdditionalSpecFns;
use vstd::utf8::decode_utf8;
use vstd::utf8::encode_utf8;
use vstd::utf8::encode_utf8_decode_utf8;
use vstd::utf8::encode_utf8_valid_utf8;
use vstd::utf8::valid_utf8;

verus! {

/// Why bytes are not a value of the protocol.
#[derive(Debug, Clone, Copy, PartialEq, Eq, Structural)]
pub enum MalformedPacket {
    /// The bytes end before the value does.
    Truncated,
    /// A variable-length integer goes on after five bytes, or holds more
    /// than 32 bits.
    InvalidVarInt,
    /// The length of a string is negative.
    InvalidStringLength(i32),
    /// The bytes of a string are not UTF-8.
    InvalidString,
    /// The code of a modifier's operation stands for no operation.
    UnknownOperation(i8),
}

/// The number of values that `width` bytes can hold.
pub open spec fn byte_limit(width: nat) -> nat
    decreases width,
{
    if width == 0 {
        1
    } else {
        256 * byte_limit((width - 1) as nat)
    }
}

/// The `width` low bytes of a number, the highest first.
pub open spec fn be_bytes(value: nat, width: nat) -> Seq<u8>
    decreases width,
{
    if width == 0 {
        Seq::empty()
    } else {
        be_bytes(value / 256, (width - 1) as nat).push((value % 256) as u8)
    }
}

/// The number that bytes hold, the highest byte first.
pub open spec fn be_value(bytes: Seq<u8>) -> nat
    decreases bytes.len(),
{
    if bytes.len() == 0 {
        0
    } else {
        be_value(bytes.drop_last()) * 256 + bytes.last() as nat
    }
}

/// A number laid out in `width` bytes takes `width` bytes.
pub proof fn lemma_be_bytes_len(value: nat, width: nat)
    ensures
        be_bytes(value, width).len() == width,
    decreases width,
{
    if width > 0 {
        lemma_be_bytes_len(value / 256, (width - 1) as nat);
    }
}

/// Reading the bytes of a number that fits in them gives the number back.
pub proof fn lemma_be_value_of_bytes(value: nat, width: nat)
    requires
        value < byte_limit(width),
    ensures
        be_value(be_bytes(value, width)) == value,
    decreases width,
{
    if width > 0 {
        lemma_be_value_of_bytes(value / 256, (width - 1) as nat);
        let front = be_bytes(value / 256, (width - 1) as nat);
        assert(front.push((value % 256) as u8).drop_last() =~= front);
    }
}

/// The number that bytes hold fits in as many bytes, and laying it out in
/// as many bytes gives the bytes back.
pub proof fn lemma_be_bytes_of_value(bytes: Seq<u8>)
    ensures
        be_value(bytes) < byte_limit(bytes.len()),
        be_bytes(be_value(bytes), bytes.len()) == bytes,
    decreases bytes.len(),
{
    if bytes.len() > 0 {
        lemma_be_bytes_of_value(bytes.drop_last());
        assert(bytes.drop_last().push(bytes.last()) =~= bytes);
    }
}

/// The limits of the widths that the protocol uses.
pub proof fn lemma_byte_limits()
    ensures
        byte_limit(1) == 0x100,
        byte_limit(4) == 0x1_0000_0000,
        byte_limit(8) == 0x1_0000_0000_0000_0000,
        byte_limit(16) == 0x1_0000_0000_0000_0000_0000_0000_0000_0000,
        forall|a: nat, b: nat| a <= b ==> #[trigger] byte_limit(a) <= #[trigger] byte_limit(b),
{
    reveal_with_fuel(byte_limit, 17);
    assert forall|a: nat, b: nat| a <= b implies #[trigger] byte_limit(a) <= #[trigger] byte_limit(
        b,
    ) by {
        lemma_byte_limit_grows(a, b);
    }
}

proof fn lemma_byte_limit_grows(a: nat, b: nat)
    requires
        a <= b,
    ensures
        1 <= byte_limit(a) <= byte_limit(b),
    decreases b,
{
    if a < b {
        lemma_byte_limit_grows(a, (b - 1) as nat);
    } else if a > 0 {
        lemma_byte_limit_grows((a - 1) as nat, (a - 1) as nat);
    }
}

/// Appends the `width` low bytes of a number, the highest first.
fn push_be(buf: &mut Vec<u8>, value: u128, width: usize)
    requires
        width <= 16,
    ensures
        final(buf)@ == old(buf)@ + be_bytes(value as nat, width as nat),
{
    let mut tail: Vec<u8> = Vec::new();
    let mut rest: u128 = value;
    let mut done: usize = 0;
    while done < width
        invariant
            done <= width,
            tail@.len() == done,
            be_bytes(value as nat, width as nat) == be_bytes(rest as nat, (width - done) as nat)
                + tail@,
        decreases width - done,
    {
        let low = (rest % 256) as u8;
        proof {
            let front = be_bytes((rest / 256) as nat, (width - done - 1) as nat);
            assert(front.push(low) + tail@ =~= front + tail@.insert(0, low));
        }
        tail.insert(0, low);
        rest = rest / 256;
        done = done + 1;
    }
    let mut i: usize = 0;
    while i < tail.len()
        invariant
            i <= tail.len(),
            buf@ == old(buf)@ + tail@.take(i as int),
        decreases tail.len() - i,
    {
        buf.push(tail[i]);
        proof {
            assert(tail@.take(i as int).push(tail@[i as int]) =~= tail@.take(i + 1));
            assert(old(buf)@ + tail@.take(i + 1) =~= (old(buf)@ + tail@.take(i as int)).push(
                tail@[i as int],
            ));
        }
        i = i + 1;
    }
    proof {
        assert(tail@.take(i as int) =~= tail@);
        assert(be_bytes(rest as nat, 0) + tail@ =~= tail@);
    }
}

/// The number that `width` bytes from `start` hold, the highest first.
fn read_be(bytes: &[u8], start: usize, width: usize) -> (value: u128)
    requires
        width <= 16,
        start + width <= bytes@.len(),
    ensures
        value == be_value(bytes@.subrange(start as int, start + width)),
{
    let len = bytes.len();
    let mut value: u128 = 0;
    let mut done: usize = 0;
    while done < width
        invariant
            done <= width <= 16,
            start + width <= bytes@.len(),
            len == bytes@.len(),
            value == be_value(bytes@.subrange(start as int, start + done)),
        decreases width - done,
    {
        proof {
            let read = bytes@.subrange(start as int, start + done);
            let next = bytes@.subrange(start as int, start + done + 1);
            assert(next.drop_last() =~= read);
            lemma_be_bytes_of_value(read);
            lemma_be_bytes_of_value(next);
            lemma_byte_limits();
            assert(byte_limit((done + 1) as nat) <= byte_limit(16));
        }
        value = value * 256 + bytes[start + done] as u128;
        done = done + 1;
    }
    value
}

/// The bits of a signed byte, as an unsigned number.
pub open spec fn i8_bits(value: i8) -> nat {
    if value >= 0 {
        value as nat
    } else {
        (value + 0x100) as nat
    }
}

/// The signed byte with the given bits.
pub open spec fn i8_of_bits(bits: nat) -> i8 {
    if bits < 0x80 {
        bits as i8
    } else {
        (bits - 0x100) as i8
    }
}

/// The bits of a signed 32-bit number, as an unsigned number.
pub open spec fn i32_bits(value: i32) -> nat {
    if value >= 0 {
        value as nat
    } else {
        (value + 0x1_0000_0000) as nat
    }
}

/// The signed 32-bit number with the given bits.
pub open spec fn i32_of_bits(bits: nat) -> i32 {
    if bits < 0x8000_0000 {
        bits as i32
    } else {
        (bits - 0x1_0000_0000) as i32
    }
}

/// The bits of a signed number determine it.
pub proof fn lemma_signed_bits(small: i8, wide: i32)
    ensures
        i8_bits(small) < 0x100,
        i8_of_bits(i8_bits(small)) == small,
        i32_bits(wide) < 0x1_0000_0000,
        i32_of_bits(i32_bits(wide)) == wide,
{
}

/// A signed byte on the wire.
pub open spec fn i8_bytes(value: i8) -> Seq<u8> {
    be_bytes(i8_bits(value), 1)
}

/// A signed 32-bit number on the wire.
pub open spec fn i32_bytes(value: i32) -> Seq<u8> {
    be_bytes(i32_bits(value), 4)
}

/// A 64-bit pattern on the wire.
pub open spec fn u64_bytes(value: u64) -> Seq<u8> {
    be_bytes(value as nat, 8)
}

/// A 128-bit identifier on the wire.
pub open spec fn u128_bytes(value: u128) -> Seq<u8> {
    be_bytes(value as nat, 16)
}

/// A number in groups of seven bits, the lowest group first, each byte but
/// the last with its top bit set.
pub open spec fn group_bytes(value: nat) -> Seq<u8>
    decreases value,
{
    if value < 128 {
        seq![value as u8]
    } else {
        seq![(value % 128 + 128) as u8] + group_bytes(value / 128)
    }
}

/// A signed 32-bit number on the wire as a variable-length integer.
pub open spec fn var_int_bytes(value: i32) -> Seq<u8> {
    group_bytes(i32_bits(value))
}

/// A string on the wire.
pub open spec fn string_bytes(text: Seq<char>) -> Seq<u8> {
    var_int_bytes(encode_utf8(text).len() as i32) + encode_utf8(text)
}

/// What reading a value from the front of bytes gives: the value and the
/// number of bytes that it took.
pub type Parsed<T> = Result<(T, nat), MalformedPacket>;

/// Reads a number of `width` bytes.
pub open spec fn parse_fixed(bytes: Seq<u8>, width: nat) -> Parsed<nat> {
    if bytes.len() < width {
        Err(MalformedPacket::Truncated)
    } else {
        Ok((be_value(bytes.take(width as int)), width))
    }
}

/// Reads a signed byte.
pub open spec fn parse_i8(bytes: Seq<u8>) -> Parsed<i8> {
    match parse_fixed(bytes, 1) {
        Ok((bits, used)) => Ok((i8_of_bits(bits), used)),
        Err(e) => Err(e),
    }
}

/// Reads a signed 32-bit number.
pub open spec fn parse_i32(bytes: Seq<u8>) -> Parsed<i32> {
    match parse_fixed(bytes, 4) {
        Ok((bits, used)) => Ok((i32_of_bits(bits), used)),
        Err(e) => Err(e),
    }
}

/// Reads a 64-bit pattern.
pub open spec fn parse_u64(bytes: Seq<u8>) -> Parsed<u64> {
    match parse_fixed(bytes, 8) {
        Ok((bits, used)) => Ok((bits as u64, used)),
        Err(e) => Err(e),
    }
}

/// Reads a 128-bit identifier.
pub open spec fn parse_u128(bytes: Seq<u8>) -> Parsed<u128> {
    match parse_fixed(bytes, 16) {
        Ok((bits, used)) => Ok((bits as u128, used)),
        Err(e) => Err(e),
    }
}

/// Reads groups of seven bits, `most` bytes at most. The number must end
/// within `most` bytes; bytes that end before it does are truncated.
pub open spec fn parse_groups(bytes: Seq<u8>, most: nat) -> Parsed<nat>
    decreases most,
{
    if most == 0 {
        Err(MalformedPacket::InvalidVarInt)
    } else if bytes.len() == 0 {
        Err(MalformedPacket::Truncated)
    } else if bytes[0] < 128 {
        Ok((bytes[0] as nat, 1))
    } else {
        match parse_groups(bytes.drop_first(), (most - 1) as nat) {
            Ok((high, used)) => Ok(((bytes[0] - 128) as nat + 128 * high, used + 1)),
            Err(e) => Err(e),
        }
    }
}

/// The most bytes that a variable-length integer takes.
pub const VAR_INT_MAX_BYTES: u8 = 5;

/// Reads a variable-length integer: five bytes at most, and 32 bits at
/// most.
pub open spec fn parse_var_int(bytes: Seq<u8>) -> Parsed<i32> {
    match parse_groups(bytes, VAR_INT_MAX_BYTES as nat) {
        Ok((bits, used)) => if bits < 0x1_0000_0000 {
            Ok((i32_of_bits(bits), used))
        } else {
            Err(MalformedPacket::InvalidVarInt)
        },
        Err(e) => Err(e),
    }
}

/// Reads a string: its length, which must not be negative, then as many
/// bytes, which must be UTF-8.
pub open spec fn parse_string(bytes: Seq<u8>) -> Parsed<Seq<char>> {
    match parse_var_int(bytes) {
        Ok((length, used)) => {
            let rest = bytes.skip(used as int);
            if length < 0 {
                Err(MalformedPacket::InvalidStringLength(length))
            } else if rest.len() < length {
                Err(MalformedPacket::Truncated)
            } else if !valid_utf8(rest.take(length as int)) {
                Err(MalformedPacket::InvalidString)
            } else {
                Ok((decode_utf8(rest.take(length as int)), used + length as nat))
            }
        },
        Err(e) => Err(e),
    }
}

/// Whether a read went as `parsed` says: on success the value is handed out
/// and the bytes it took are gone from the front, and on failure the error is
/// handed out and no byte is gone.
pub open spec fn read_as<T>(
    before: Seq<u8>,
    after: Seq<u8>,
    result: Result<T, MalformedPacket>,
    parsed: Parsed<T>,
) -> bool {
    match parsed {
        Ok((value, used)) => result == Ok::<T, MalformedPacket>(value) && used <= before.len()
            && after == before.skip(used as int),
        Err(e) => result == Err::<T, MalformedPacket>(e) && after == before,
    }
}

/// A number laid out in fixed width, with anything after it, reads back as
/// the number and its width.
pub proof fn lemma_parse_fixed(value: nat, width: nat, rest: Seq<u8>)
    requires
        value < byte_limit(width),
    ensures
        parse_fixed(be_bytes(value, width) + rest, width) == Ok::<(nat, nat), MalformedPacket>(
            (value, width),
        ),
{
    lemma_be_bytes_len(value, width);
    lemma_be_value_of_bytes(value, width);
    assert((be_bytes(value, width) + rest).take(width as int) =~= be_bytes(value, width));
}

/// Every fixed-width value of the protocol, with anything after it, reads
/// back as itself.
pub proof fn lemma_parse_fixed_values(small: i8, wide: i32, bits: u64, id: u128, rest: Seq<u8>)
    ensures
        parse_i8(i8_bytes(small) + rest) == Ok::<(i8, nat), MalformedPacket>((small, 1)),
        parse_i32(i32_bytes(wide) + rest) == Ok::<(i32, nat), MalformedPacket>((wide, 4)),
        parse_u64(u64_bytes(bits) + rest) == Ok::<(u64, nat), MalformedPacket>((bits, 8)),
        parse_u128(u128_bytes(id) + rest) == Ok::<(u128, nat), MalformedPacket>((id, 16)),
        i8_bytes(small).len() == 1,
        i32_bytes(wide).len() == 4,
        u64_bytes(bits).len() == 8,
        u128_bytes(id).len() == 16,
{
    lemma_byte_limits();
    lemma_parse_fixed(i8_bits(small), 1, rest);
    lemma_parse_fixed(i32_bits(wide), 4, rest);
    lemma_parse_fixed(bits as nat, 8, rest);
    lemma_parse_fixed(id as nat, 16, rest);
    lemma_be_bytes_len(i8_bits(small), 1);
    lemma_be_bytes_len(i32_bits(wide), 4);
    lemma_be_bytes_len(bits as nat, 8);
    lemma_be_bytes_len(id as nat, 16);
}

/// The number of values that `most` groups of seven bits can hold.
pub open spec fn group_limit(most: nat) -> nat
    decreases most,
{
    if most == 0 {
        1
    } else {
        128 * group_limit((most - 1) as nat)
    }
}

/// A number in groups of seven bits takes one byte at least, and reads back
/// as itself, with anything after it, where it fits in the groups allowed.
pub proof fn lemma_parse_groups(value: nat, most: nat, rest: Seq<u8>)
    requires
        most >= 1,
        value < group_limit(most),
    ensures
        1 <= group_bytes(value).len() <= most,
        parse_groups(group_bytes(value) + rest, most) == Ok::<(nat, nat), MalformedPacket>(
            (value, group_bytes(value).len()),
        ),
    decreases most,
{
    let bytes = group_bytes(value) + rest;
    if value >= 128 {
        assert(group_limit(0) == 1);
        lemma_parse_groups(value / 128, (most - 1) as nat, rest);
        assert(bytes.drop_first() =~= group_bytes(value / 128) + rest);
        assert(bytes[0] == (value % 128 + 128) as u8);
    } else {
        assert(bytes[0] == value as u8);
    }
}

/// A variable-length integer takes one to five bytes, and reads back as
/// itself, with anything after it.
pub proof fn lemma_parse_var_int(value: i32, rest: Seq<u8>)
    ensures
        1 <= var_int_bytes(value).len() <= VAR_INT_MAX_BYTES,
        parse_var_int(var_int_bytes(value) + rest) == Ok::<(i32, nat), MalformedPacket>(
            (value, var_int_bytes(value).len()),
        ),
{
    reveal_with_fuel(group_limit, 6);
    lemma_parse_groups(i32_bits(value), 5, rest);
}

/// A string whose UTF-8 bytes are counted by a signed 32-bit number reads
/// back as itself, with anything after it.
pub proof fn lemma_parse_string(text: Seq<char>, rest: Seq<u8>)
    requires
        encode_utf8(text).len() <= i32::MAX,
    ensures
        parse_string(string_bytes(text) + rest) == Ok::<(Seq<char>, nat), MalformedPacket>(
            (text, string_bytes(text).len()),
        ),
{
    let utf8 = encode_utf8(text);
    let length = utf8.len() as i32;
    let head = var_int_bytes(length);
    lemma_parse_var_int(length, utf8 + rest);
    assert(string_bytes(text) + rest =~= head + (utf8 + rest));
    assert((string_bytes(text) + rest).skip(head.len() as int) =~= utf8 + rest);
    assert((utf8 + rest).take(length as int) =~= utf8);
    encode_utf8_valid_utf8(text);
    encode_utf8_decode_utf8(text);
}

/// `String::from_utf8` of the standard library: it gives a string exactly
/// when the bytes are UTF-8, and the string then has those bytes.
#[verifier::external_body]
fn string_from_utf8(bytes: Vec<u8>) -> (text: Option<String>)
    ensures
        text is Some <==> valid_utf8(bytes@),
        text matches Some(s) ==> encode_utf8(s@) == bytes@,
{
    match String::from_utf8(bytes) {
        Ok(s) => Some(s),
        Err(_) => None,
    }
}

/// Bytes that are read from the front.
#[derive(Debug, Clone, Copy)]
pub struct ByteReader<'a> {
    bytes: &'a [u8],
    position: usize,
}

impl<'a> ByteReader<'a> {
    #[verifier::type_invariant]
    spec fn in_bounds(&self) -> bool {
        self.position <= self.bytes@.len()
    }

    /// The bytes that are still to be read.
    pub closed spec fn unread(&self) -> Seq<u8> {
        self.bytes@.skip(self.position as int)
    }

    /// A reader of `bytes`, at their front.
    pub fn new(bytes: &'a [u8]) -> (reader: ByteReader<'a>)
        ensures
            reader.unread() == bytes@,
    {
        assert(bytes@.skip(0) =~= bytes@);
        ByteReader { bytes, position: 0 }
    }

    /// The number of bytes that are still to be read.
    pub fn remaining(&self) -> (n: usize)
        ensures
            n == self.unread().len(),
    {
        proof {
            use_type_invariant(self);
        }
        self.bytes.len() - self.position
    }

    /// Reads a number of `width` bytes.
    fn try_get_fixed(&mut self, width: usize) -> (r: Result<u128, MalformedPacket>)
        requires
            width <= 16,
        ensures
            match parse_fixed(old(self).unread(), width as nat) {
                Ok((value, used)) => r == Ok::<u128, MalformedPacket>(value as u128) && value
                    < byte_limit(width as nat) && used <= old(self).unread().len()
                    && final(self).unread() == old(self).unread().skip(used as int),
                Err(e) => r == Err::<u128, MalformedPacket>(e) && final(self).unread() == old(
                    self,
                ).unread(),
            },
    {
        proof {
            use_type_invariant(&*self);
        }
        if self.bytes.len() - self.position < width {
            return Err(MalformedPacket::Truncated);
        }
        let value = read_be(self.bytes, self.position, width);
        proof {
            let taken = old(self).unread().take(width as int);
            assert(taken =~= self.bytes@.subrange(
                self.position as int,
                self.position + width,
            ));
            lemma_be_bytes_of_value(taken);
            lemma_byte_limits();
            assert(old(self).unread().skip(width as int) =~= self.bytes@.skip(
                self.position + width,
            ));
        }
        self.position = self.position + width;
        Ok(value)
    }

    /// Reads a signed byte.
    pub fn try_get_i8(&mut self) -> (r: Result<i8, MalformedPacket>)
        ensures
            read_as(old(self).unread(), final(self).unread(), r, parse_i8(old(self).unread())),
    {
        proof {
            lemma_byte_limits();
        }
        match self.try_get_fixed(1) {
            Ok(bits) => Ok(
                if bits < 0x80 {
                    bits as i8
                } else {
                    (bits as i16 - 0x100) as i8
                },
            ),
            Err(e) => Err(e),
        }
    }

    /// Reads a signed 32-bit number.
    pub fn try_get_i32(&mut self) -> (r: Result<i32, MalformedPacket>)
        ensures
            read_as(old(self).unread(), final(self).unread(), r, parse_i32(old(self).unread())),
    {
        proof {
            lemma_byte_limits();
        }
        match self.try_get_fixed(4) {
            Ok(bits) => Ok(
                if bits < 0x8000_0000 {
                    bits as i32
                } else {
                    (bits as i64 - 0x1_0000_0000) as i32
                },
            ),
            Err(e) => Err(e),
        }
    }

    /// Reads a 64-bit pattern.
    pub fn try_get_u64(&mut self) -> (r: Result<u64, MalformedPacket>)
        ensures
            read_as(old(self).unread(), final(self).unread(), r, parse_u64(old(self).unread())),
    {
        proof {
            lemma_byte_limits();
        }
        match self.try_get_fixed(8) {
            Ok(bits) => Ok(bits as u64),
            Err(e) => Err(e),
        }
    }

    /// Reads a 128-bit identifier.
    pub fn try_get_uuid(&mut self) -> (r: Result<u128, MalformedPacket>)
        ensures
            read_as(old(self).unread(), final(self).unread(), r, parse_u128(old(self).unread())),
    {
        proof {
            lemma_byte_limits();
        }
        match self.try_get_fixed(16) {
            Ok(bits) => Ok(bits),
            Err(e) => Err(e),
        }
    }

    /// Reads groups of seven bits from a place on, `most` bytes at most, and
    /// gives the number and the bytes that it took. Nothing is taken from
    /// the reader.
    fn peek_groups(&self, at: usize, most: u8) -> (r: Result<(u64, usize), MalformedPacket>)
        requires
            at <= self.bytes@.len(),
            most <= 5,
        ensures
            match parse_groups(self.bytes@.skip(at as int), most as nat) {
                Ok((value, used)) => r == Ok::<(u64, usize), MalformedPacket>(
                    (value as u64, used as usize),
                ) && value < group_limit(most as nat) && 1 <= used <= most && at + used
                    <= self.bytes@.len(),
                Err(e) => r == Err::<(u64, usize), MalformedPacket>(e),
            },
        decreases most,
    {
        proof {
            reveal_with_fuel(group_limit, 6);
        }
        if most == 0 {
            return Err(MalformedPacket::InvalidVarInt);
        }
        if at >= self.bytes.len() {
            return Err(MalformedPacket::Truncated);
        }
        let first = self.bytes[at];
        assert(self.bytes@.skip(at as int)[0] == first);
        if first < 128 {
            return Ok((first as u64, 1));
        }
        proof {
            assert(self.bytes@.skip(at as int).drop_first() =~= self.bytes@.skip(at + 1));
        }
        match self.peek_groups(at + 1, most - 1) {
            Ok((high, used)) => Ok(((first - 128) as u64 + 128 * high, used + 1)),
            Err(e) => Err(e),
        }
    }

    /// Reads a variable-length integer from a place on, and gives the number
    /// and the bytes that it took. Nothing is taken from the reader.
    fn peek_var_int(&self, at: usize) -> (r: Result<(i32, usize), MalformedPacket>)
        requires
            at <= self.bytes@.len(),
        ensures
            match parse_var_int(self.bytes@.skip(at as int)) {
                Ok((value, used)) => r == Ok::<(i32, usize), MalformedPacket>(
                    (value, used as usize),
                ) && at + used <= self.bytes@.len(),
                Err(e) => r == Err::<(i32, usize), MalformedPacket>(e),
            },
    {
        proof {
            reveal_with_fuel(group_limit, 6);
        }
        match self.peek_groups(at, VAR_INT_MAX_BYTES) {
            Ok((bits, used)) => {
                if bits < 0x1_0000_0000 {
                    Ok(
                        (
                            if bits < 0x8000_0000 {
                                bits as i32
                            } else {
                                (bits as i64 - 0x1_0000_0000) as i32
                            },
                            used,
                        ),
                    )
                } else {
                    Err(MalformedPacket::InvalidVarInt)
                }
            },
            Err(e) => Err(e),
        }
    }

    /// Reads a variable-length integer.
    pub fn try_get_var_int(&mut self) -> (r: Result<i32, MalformedPacket>)
        ensures
            read_as(
                old(self).unread(),
                final(self).unread(),
                r,
                parse_var_int(old(self).unread()),
            ),
    {
        proof {
            use_type_invariant(&*self);
        }
        let len = self.bytes.len();
        match self.peek_var_int(self.position) {
            Ok((value, used)) => {
                proof {
                    assert(old(self).unread().skip(used as int) =~= self.bytes@.skip(
                        self.position + used,
                    ));
                }
                self.position = self.position + used;
                Ok(value)
            },
            Err(e) => Err(e),
        }
    }

    /// Reads a string.
    pub fn try_get_string(&mut self) -> (r: Result<String, MalformedPacket>)
        ensures
            match parse_string(old(self).unread()) {
                Ok((text, used)) => r matches Ok(s) && s@ == text && used <= old(
                    self,
                ).unread().len() && final(self).unread() == old(self).unread().skip(used as int),
                Err(e) => r == Err::<String, MalformedPacket>(e) && final(self).unread() == old(
                    self,
                ).unread(),
            },
    {
        proof {
            use_type_invariant(&*self);
        }
        let len = self.bytes.len();
        let (length, used) = match self.peek_var_int(self.position) {
            Ok(found) => found,
            Err(e) => {
                return Err(e);
            },
        };
        if length < 0 {
            return Err(MalformedPacket::InvalidStringLength(length));
        }
        let start = self.position + used;
        let length = length as usize;
        proof {
            assert(self.unread().skip(used as int) =~= self.bytes@.skip(start as int));
        }
        if len - start < length {
            return Err(MalformedPacket::Truncated);
        }
        let end = start + length;
        let taken = slice_to_vec(slice_subrange(self.bytes, start, end));
        proof {
            assert(taken@ =~= self.bytes@.skip(start as int).take(length as int));
        }
        match string_from_utf8(taken) {
            Some(text) => {
                proof {
                    encode_utf8_decode_utf8(text@);
                    assert(old(self).unread().skip(used + length) =~= self.bytes@.skip(
                        end as int,
                    ));
                }
                self.position = end;
                Ok(text)
            },
            None => Err(MalformedPacket::InvalidString),
        }
    }
}

/// Appends a signed byte.
pub fn push_i8(buf: &mut Vec<u8>, value: i8)
    ensures
        final(buf)@ == old(buf)@ + i8_bytes(value),
{
    let bits: u128 = if value >= 0 {
        value as u128
    } else {
        (value as i16 + 0x100) as u128
    };
    push_be(buf, bits, 1);
}

/// Appends a signed 32-bit number.
pub fn push_i32(buf: &mut Vec<u8>, value: i32)
    ensures
        final(buf)@ == old(buf)@ + i32_bytes(value),
{
    let bits: u128 = if value >= 0 {
        value as u128
    } else {
        (value as i64 + 0x1_0000_0000) as u128
    };
    push_be(buf, bits, 4);
}

/// Appends a 64-bit pattern.
pub fn push_u64(buf: &mut Vec<u8>, value: u64)
    ensures
        final(buf)@ == old(buf)@ + u64_bytes(value),
{
    push_be(buf, value as u128, 8);
}

/// Appends a 128-bit identifier.
pub fn push_uuid(buf: &mut Vec<u8>, value: u128)
    ensures
        final(buf)@ == old(buf)@ + u128_bytes(value),
{
    push_be(buf, value, 16);
}

/// Appends a variable-length integer.
pub fn push_var_int(buf: &mut Vec<u8>, value: i32)
    ensures
        final(buf)@ == old(buf)@ + var_int_bytes(value),
{
    let mut rest: u32 = if value >= 0 {
        value as u32
    } else {
        (value as i64 + 0x1_0000_0000) as u32
    };
    while rest >= 128
        invariant
            old(buf)@ + var_int_bytes(value) == buf@ + group_bytes(rest as nat),
        decreases rest,
    {
        let low = (rest % 128 + 128) as u8;
        proof {
            assert(buf@.push(low) + group_bytes((rest / 128) as nat) =~= buf@ + (seq![low]
                + group_bytes((rest / 128) as nat)));
        }
        buf.push(low);
        rest = rest / 128;
    }
    proof {
        assert(buf@.push(rest as u8) =~= buf@ + seq![rest as u8]);
    }
    buf.push(rest as u8);
}

/// Appends a string. Its UTF-8 bytes must be counted by a signed 32-bit
/// number.
pub fn push_string(buf: &mut Vec<u8>, text: &str)
    requires
        encode_utf8(text@).len() <= i32::MAX,
    ensures
        final(buf)@ == old(buf)@ + string_bytes(text@),
{
    let bytes = text.as_bytes();
    push_var_int(buf, bytes.len() as i32);
    let ghost head = buf@;
    let mut i: usize = 0;
    while i < bytes.len()
        invariant
            i <= bytes@.len(),
            buf@ == head + bytes@.take(i as int),
        decreases bytes.len() - i,
    {
        buf.push(bytes[i]);
        proof {
            assert(head + bytes@.take(i + 1) =~= (head + bytes@.take(i as int)).push(
                bytes@[i as int],
            ));
        }
        i = i + 1;
    }
    proof {
        assert(bytes@.take(i as int) =~= bytes@);
        assert(old(buf)@ + string_bytes(text@) =~= head + bytes@);
    }
}

} // verus!
