//! Binary encoding of the engine's data.
//!
//! Integers are fixed-width little endian, a text is its length in bytes as an unsigned 64-bit
//! integer followed by its UTF-8 bytes, a sequence is its length followed by its items, an
//! optional value is a byte 0 or 1 followed by the value where there is one, an enum is its
//! variant's index as an unsigned 32-bit integer followed by the variant's fields, and a struct
//! is its fields in order. The leaves of this format are written and read by `bincode`.
use vstd::bytes::*;
use vstd::prelude::*;
use vstd::utf8::*;

use crate::text;

verus! {

/// The error that `bincode` reports.
#[verifier::external_type_specification]
#[verifier::external_body]
pub struct ExBincodeError(bincode::ErrorKind);

/// The text of a `bincode` error, as its `Display` writes it. Nothing is claimed of the text.
#[verifier::external_body]
fn error_text(e: Box<bincode::ErrorKind>) -> (r: String) {
    e.to_string()
}

/// `bincode::serialize_into` on a `u8` appends that byte.
#[verifier::external_body]
fn write_u8(out: &mut Vec<u8>, x: u8)
    ensures
        final(out)@ == old(out)@ + seq![x],
{
    bincode::serialize_into(&mut *out, &x).unwrap_or_default()
}

/// `bincode::serialize_into` on a `bool` appends the byte 1 for true and 0 for false.
#[verifier::external_body]
fn write_bool(out: &mut Vec<u8>, x: bool)
    ensures
        final(out)@ == old(out)@ + seq![if x { 1u8 } else { 0u8 }],
{
    bincode::serialize_into(&mut *out, &x).unwrap_or_default()
}

/// `bincode::serialize_into` on a `u32` appends its four bytes, least significant first.
#[verifier::external_body]
fn write_u32(out: &mut Vec<u8>, x: u32)
    ensures
        final(out)@ == old(out)@ + spec_u32_to_le_bytes(x),
{
    bincode::serialize_into(&mut *out, &x).unwrap_or_default()
}

/// `bincode::serialize_into` on a `u64` appends its eight bytes, least significant first.
#[verifier::external_body]
fn write_u64(out: &mut Vec<u8>, x: u64)
    ensures
        final(out)@ == old(out)@ + spec_u64_to_le_bytes(x),
{
    bincode::serialize_into(&mut *out, &x).unwrap_or_default()
}

/// `bincode::serialize_into` on an `i64` appends the eight bytes of its two's complement, least
/// significant first.
#[verifier::external_body]
fn write_i64(out: &mut Vec<u8>, x: i64)
    ensures
        final(out)@ == old(out)@ + spec_u64_to_le_bytes(x as u64),
{
    bincode::serialize_into(&mut *out, &x).unwrap_or_default()
}

/// `bincode::serialize_into` on a string appends the number of its UTF-8 bytes as a `u64`, then
/// those bytes.
#[verifier::external_body]
fn write_text(out: &mut Vec<u8>, x: &str)
    ensures
        final(out)@ == old(out)@ + spec_u64_to_le_bytes(encode_utf8(x@).len() as u64)
            + encode_utf8(x@),
{
    bincode::serialize_into(&mut *out, x).unwrap_or_default()
}

/// `bincode::deserialize` of a `u8` gives the first byte, or fails where there is none.
#[verifier::external_body]
fn read_u8(data: &[u8], pos: usize) -> (r: Result<u8, Box<bincode::ErrorKind>>)
    requires
        pos <= data@.len(),
    ensures
        match r {
            Ok(x) => pos + 1 <= data@.len() && x == data@[pos as int],
            Err(_) => pos + 1 > data@.len(),
        },
{
    bincode::deserialize(&data[pos..])
}

/// `bincode::deserialize` of a `bool` reads a byte 1 as true and 0 as false, and fails on any
/// other byte or where there is none.
#[verifier::external_body]
fn read_bool(data: &[u8], pos: usize) -> (r: Result<bool, Box<bincode::ErrorKind>>)
    requires
        pos <= data@.len(),
    ensures
        match r {
            Ok(x) => pos + 1 <= data@.len() && data@[pos as int] == (if x {
                1u8
            } else {
                0u8
            }),
            Err(_) => pos + 1 > data@.len() || data@[pos as int] > 1,
        },
{
    bincode::deserialize(&data[pos..])
}

/// `bincode::deserialize` of a `u32` reads four bytes, least significant first, and fails where
/// there are fewer.
#[verifier::external_body]
fn read_u32(data: &[u8], pos: usize) -> (r: Result<u32, Box<bincode::ErrorKind>>)
    requires
        pos <= data@.len(),
    ensures
        match r {
            Ok(x) => pos + 4 <= data@.len() && x == spec_u32_from_le_bytes(
                data@.subrange(pos as int, pos + 4),
            ),
            Err(_) => pos + 4 > data@.len(),
        },
{
    bincode::deserialize(&data[pos..])
}

/// `bincode::deserialize` of a `u64` reads eight bytes, least significant first, and fails where
/// there are fewer.
#[verifier::external_body]
fn read_u64(data: &[u8], pos: usize) -> (r: Result<u64, Box<bincode::ErrorKind>>)
    requires
        pos <= data@.len(),
    ensures
        match r {
            Ok(x) => pos + 8 <= data@.len() && x == spec_u64_from_le_bytes(
                data@.subrange(pos as int, pos + 8),
            ),
            Err(_) => pos + 8 > data@.len(),
        },
{
    bincode::deserialize(&data[pos..])
}

/// `bincode::deserialize` of an `i64` reads eight bytes of two's complement, least significant
/// first, and fails where there are fewer.
#[verifier::external_body]
fn read_i64(data: &[u8], pos: usize) -> (r: Result<i64, Box<bincode::ErrorKind>>)
    requires
        pos <= data@.len(),
    ensures
        match r {
            Ok(x) => pos + 8 <= data@.len() && x == spec_u64_from_le_bytes(
                data@.subrange(pos as int, pos + 8),
            ) as i64,
            Err(_) => pos + 8 > data@.len(),
        },
{
    bincode::deserialize(&data[pos..])
}

/// `bincode::deserialize` of a `String` reads a `u64` length and that many bytes of UTF-8. It
/// fails where there are fewer bytes, and where they are not valid UTF-8.
#[verifier::external_body]
fn read_text(data: &[u8], pos: usize) -> (r: Result<String, Box<bincode::ErrorKind>>)
    requires
        pos <= data@.len(),
    ensures
        match (r, dec_text(data@.skip(pos as int))) {
            (Ok(x), Some((chars, _))) => x@ == chars,
            (Err(_), None) => true,
            _ => false,
        },
{
    bincode::deserialize(&data[pos..])
}

/// Reads a text from the front of a byte sequence.
pub open spec fn dec_text(s: Seq<u8>) -> Option<(Seq<char>, Seq<u8>)> {
    if s.len() < 8 {
        None
    } else {
        let n = spec_u64_from_le_bytes(s.take(8)) as int;
        if n > s.len() - 8 || !valid_utf8(s.subrange(8, 8 + n)) {
            None
        } else {
            Some((decode_utf8(s.subrange(8, 8 + n)), s.skip(8 + n)))
        }
    }
}

/// A type with a binary encoding.
pub trait Wire: DeepView + Sized {
    /// Whether a value can be encoded so that it is read back: its lengths fit their fields.
    spec fn fits(v: Self::V) -> bool;

    /// The encoding of a value.
    spec fn enc(v: Self::V) -> Seq<u8>;

    /// Reads a value from the front of a byte sequence, and says what is left.
    spec fn dec(s: Seq<u8>) -> Option<(Self::V, Seq<u8>)>;

    /// Reading gives back what was written, whatever follows.
    proof fn round_trip(v: Self::V, rest: Seq<u8>)
        requires
            Self::fits(v),
        ensures
            Self::dec(Self::enc(v) + rest) == Some((v, rest)),
    ;

    /// Appends the encoding.
    fn put(&self, out: &mut Vec<u8>)
        ensures
            Self::fits(self.deep_view()),
            final(out)@ == old(out)@ + Self::enc(self.deep_view()),
    ;

    /// Reads a value at a position, and gives the position behind it.
    fn get(data: &[u8], pos: usize) -> (r: Result<(Self, usize), String>)
        requires
            pos <= data@.len(),
        ensures
            match (r, Self::dec(data@.skip(pos as int))) {
                (Ok((x, next)), Some((v, rest))) => {
                    &&& x.deep_view() == v
                    &&& pos <= next <= data@.len()
                    &&& rest == data@.skip(next as int)
                },
                (Err(_), None) => true,
                _ => false,
            },
    ;
}

/// Encodes a value.
pub fn encode<T: Wire>(x: &T) -> (r: Vec<u8>)
    ensures
        T::fits(x.deep_view()),
        r@ == T::enc(x.deep_view()),
{
    let mut out: Vec<u8> = Vec::new();
    x.put(&mut out);
    assert(out@ =~= T::enc(x.deep_view()));
    out
}

/// Decodes a value from the front of `data`; bytes behind it are ignored.
pub fn decode<T: Wire>(data: &[u8]) -> (r: Result<T, String>)
    ensures
        match (r, T::dec(data@)) {
            (Ok(x), Some((v, _))) => x.deep_view() == v,
            (Err(_), None) => true,
            _ => false,
        },
{
    assert(data@.skip(0) =~= data@);
    match T::get(data, 0) {
        Ok((x, _)) => Ok(x),
        Err(e) => Err(e),
    }
}

/// Decoding an encoded value, whatever follows it, gives the value back.
pub proof fn decode_encode<T: Wire>(v: T::V, rest: Seq<u8>)
    requires
        T::fits(v),
    ensures
        T::dec(T::enc(v) + rest) == Some((v, rest)),
        T::dec(T::enc(v)) == Some((v, Seq::<u8>::empty())),
{
    T::round_trip(v, rest);
    T::round_trip(v, Seq::<u8>::empty());
    assert(T::enc(v) + Seq::<u8>::empty() =~= T::enc(v));
}

impl Wire for u8 {
    open spec fn fits(v: u8) -> bool {
        true
    }

    open spec fn enc(v: u8) -> Seq<u8> {
        seq![v]
    }

    open spec fn dec(s: Seq<u8>) -> Option<(u8, Seq<u8>)> {
        if s.len() < 1 {
            None
        } else {
            Some((s[0], s.skip(1)))
        }
    }

    proof fn round_trip(v: u8, rest: Seq<u8>) {
        assert((seq![v] + rest).skip(1) =~= rest);
    }

    fn put(&self, out: &mut Vec<u8>) {
        write_u8(out, *self);
    }

    fn get(data: &[u8], pos: usize) -> (r: Result<(u8, usize), String>) {
        assert(data.len() == data@.len());
        match read_u8(data, pos) {
            Ok(x) => {
                assert(data@.skip(pos as int).skip(1) =~= data@.skip(pos + 1));
                Ok((x, pos + 1))
            },
            Err(e) => Err(error_text(e)),
        }
    }
}

impl Wire for bool {
    open spec fn fits(v: bool) -> bool {
        true
    }

    open spec fn enc(v: bool) -> Seq<u8> {
        seq![if v { 1u8 } else { 0u8 }]
    }

    open spec fn dec(s: Seq<u8>) -> Option<(bool, Seq<u8>)> {
        if s.len() < 1 || s[0] > 1 {
            None
        } else {
            Some((s[0] == 1, s.skip(1)))
        }
    }

    proof fn round_trip(v: bool, rest: Seq<u8>) {
        assert((Self::enc(v) + rest).skip(1) =~= rest);
    }

    fn put(&self, out: &mut Vec<u8>) {
        write_bool(out, *self);
    }

    fn get(data: &[u8], pos: usize) -> (r: Result<(bool, usize), String>) {
        assert(data.len() == data@.len());
        match read_bool(data, pos) {
            Ok(x) => {
                assert(data@.skip(pos as int).skip(1) =~= data@.skip(pos + 1));
                Ok((x, pos + 1))
            },
            Err(e) => Err(error_text(e)),
        }
    }
}

impl Wire for u32 {
    open spec fn fits(v: u32) -> bool {
        true
    }

    open spec fn enc(v: u32) -> Seq<u8> {
        spec_u32_to_le_bytes(v)
    }

    open spec fn dec(s: Seq<u8>) -> Option<(u32, Seq<u8>)> {
        if s.len() < 4 {
            None
        } else {
            Some((spec_u32_from_le_bytes(s.take(4)), s.skip(4)))
        }
    }

    proof fn round_trip(v: u32, rest: Seq<u8>) {
        lemma_auto_spec_u32_to_from_le_bytes();
        let e = spec_u32_to_le_bytes(v);
        assert((e + rest).take(4) =~= e);
        assert((e + rest).skip(4) =~= rest);
    }

    fn put(&self, out: &mut Vec<u8>) {
        write_u32(out, *self);
    }

    fn get(data: &[u8], pos: usize) -> (r: Result<(u32, usize), String>) {
        assert(data.len() == data@.len());
        match read_u32(data, pos) {
            Ok(x) => {
                assert(data@.skip(pos as int).take(4) =~= data@.subrange(pos as int, pos + 4));
                assert(data@.skip(pos as int).skip(4) =~= data@.skip(pos + 4));
                Ok((x, pos + 4))
            },
            Err(e) => Err(error_text(e)),
        }
    }
}

impl Wire for u64 {
    open spec fn fits(v: u64) -> bool {
        true
    }

    open spec fn enc(v: u64) -> Seq<u8> {
        spec_u64_to_le_bytes(v)
    }

    open spec fn dec(s: Seq<u8>) -> Option<(u64, Seq<u8>)> {
        if s.len() < 8 {
            None
        } else {
            Some((spec_u64_from_le_bytes(s.take(8)), s.skip(8)))
        }
    }

    proof fn round_trip(v: u64, rest: Seq<u8>) {
        lemma_auto_spec_u64_to_from_le_bytes();
        let e = spec_u64_to_le_bytes(v);
        assert((e + rest).take(8) =~= e);
        assert((e + rest).skip(8) =~= rest);
    }

    fn put(&self, out: &mut Vec<u8>) {
        write_u64(out, *self);
    }

    fn get(data: &[u8], pos: usize) -> (r: Result<(u64, usize), String>) {
        assert(data.len() == data@.len());
        match read_u64(data, pos) {
            Ok(x) => {
                assert(data@.skip(pos as int).take(8) =~= data@.subrange(pos as int, pos + 8));
                assert(data@.skip(pos as int).skip(8) =~= data@.skip(pos + 8));
                Ok((x, pos + 8))
            },
            Err(e) => Err(error_text(e)),
        }
    }
}

impl Wire for i64 {
    open spec fn fits(v: i64) -> bool {
        true
    }

    open spec fn enc(v: i64) -> Seq<u8> {
        spec_u64_to_le_bytes(v as u64)
    }

    open spec fn dec(s: Seq<u8>) -> Option<(i64, Seq<u8>)> {
        if s.len() < 8 {
            None
        } else {
            Some((spec_u64_from_le_bytes(s.take(8)) as i64, s.skip(8)))
        }
    }

    proof fn round_trip(v: i64, rest: Seq<u8>) {
        lemma_auto_spec_u64_to_from_le_bytes();
        let e = spec_u64_to_le_bytes(v as u64);
        assert((e + rest).take(8) =~= e);
        assert((e + rest).skip(8) =~= rest);
        assert((v as u64) as i64 == v) by (bit_vector);
    }

    fn put(&self, out: &mut Vec<u8>) {
        write_i64(out, *self);
    }

    fn get(data: &[u8], pos: usize) -> (r: Result<(i64, usize), String>) {
        assert(data.len() == data@.len());
        match read_i64(data, pos) {
            Ok(x) => {
                assert(data@.skip(pos as int).take(8) =~= data@.subrange(pos as int, pos + 8));
                assert(data@.skip(pos as int).skip(8) =~= data@.skip(pos + 8));
                Ok((x, pos + 8))
            },
            Err(e) => Err(error_text(e)),
        }
    }
}

impl Wire for String {
    open spec fn fits(v: Seq<char>) -> bool {
        encode_utf8(v).len() <= u64::MAX
    }

    open spec fn enc(v: Seq<char>) -> Seq<u8> {
        spec_u64_to_le_bytes(encode_utf8(v).len() as u64) + encode_utf8(v)
    }

    open spec fn dec(s: Seq<u8>) -> Option<(Seq<char>, Seq<u8>)> {
        dec_text(s)
    }

    proof fn round_trip(v: Seq<char>, rest: Seq<u8>) {
        lemma_auto_spec_u64_to_from_le_bytes();
        let bytes = encode_utf8(v);
        let head = spec_u64_to_le_bytes(bytes.len() as u64);
        let s = head + bytes + rest;
        assert(s.take(8) =~= head);
        assert(s.subrange(8, 8 + bytes.len() as int) =~= bytes);
        assert(s.skip(8 + bytes.len() as int) =~= rest);
        encode_utf8_valid_utf8(v);
        encode_utf8_decode_utf8(v);
    }

    fn put(&self, out: &mut Vec<u8>) {
        let ghost before = out@;
        let length: usize = self.as_str().as_bytes().len();
        assert(length == encode_utf8(self@).len());
        write_text(out, self.as_str());
        assert(out@ =~= before + Self::enc(self.deep_view()));
    }

    fn get(data: &[u8], pos: usize) -> (r: Result<(String, usize), String>) {
        assert(data.len() == data@.len());
        match read_text(data, pos) {
            Ok(x) => {
                proof {
                    let s = data@.skip(pos as int);
                    let n = spec_u64_from_le_bytes(s.take(8)) as int;
                    decode_utf8_encode_utf8(s.subrange(8, 8 + n));
                    assert(data@.skip(pos as int).skip(8 + n) =~= data@.skip(pos + 8 + n));
                }
                let next: usize = pos + 8 + x.as_str().as_bytes().len();
                Ok((x, next))
            },
            Err(e) => Err(error_text(e)),
        }
    }
}

/// A pair: the first value, then the second.
impl<A: Wire, B: Wire> Wire for (A, B) {
    open spec fn fits(v: (A::V, B::V)) -> bool {
        A::fits(v.0) && B::fits(v.1)
    }

    open spec fn enc(v: (A::V, B::V)) -> Seq<u8> {
        A::enc(v.0) + B::enc(v.1)
    }

    open spec fn dec(s: Seq<u8>) -> Option<((A::V, B::V), Seq<u8>)> {
        match A::dec(s) {
            None => None,
            Some((a, s1)) => match B::dec(s1) {
                None => None,
                Some((b, s2)) => Some(((a, b), s2)),
            },
        }
    }

    proof fn round_trip(v: (A::V, B::V), rest: Seq<u8>) {
        A::round_trip(v.0, B::enc(v.1) + rest);
        B::round_trip(v.1, rest);
        assert(Self::enc(v) + rest =~= A::enc(v.0) + (B::enc(v.1) + rest));
    }

    fn put(&self, out: &mut Vec<u8>) {
        let ghost before = out@;
        self.0.put(out);
        self.1.put(out);
        assert(out@ =~= before + Self::enc(self.deep_view()));
    }

    fn get(data: &[u8], pos: usize) -> (r: Result<((A, B), usize), String>) {
        match A::get(data, pos) {
            Err(e) => Err(e),
            Ok((a, mid)) => match B::get(data, mid) {
                Err(e) => Err(e),
                Ok((b, next)) => Ok(((a, b), next)),
            },
        }
    }
}

/// An optional value.
impl<A: Wire> Wire for Option<A> {
    open spec fn fits(v: Option<A::V>) -> bool {
        match v {
            None => true,
            Some(a) => A::fits(a),
        }
    }

    open spec fn enc(v: Option<A::V>) -> Seq<u8> {
        match v {
            None => seq![0u8],
            Some(a) => seq![1u8] + A::enc(a),
        }
    }

    open spec fn dec(s: Seq<u8>) -> Option<(Option<A::V>, Seq<u8>)> {
        if s.len() < 1 || s[0] > 1 {
            None
        } else if s[0] == 0 {
            Some((None, s.skip(1)))
        } else {
            match A::dec(s.skip(1)) {
                None => None,
                Some((a, rest)) => Some((Some(a), rest)),
            }
        }
    }

    proof fn round_trip(v: Option<A::V>, rest: Seq<u8>) {
        match v {
            None => {
                assert((Self::enc(v) + rest).skip(1) =~= rest);
            },
            Some(a) => {
                A::round_trip(a, rest);
                assert((Self::enc(v) + rest).skip(1) =~= A::enc(a) + rest);
            },
        }
    }

    fn put(&self, out: &mut Vec<u8>) {
        let ghost before = out@;
        match self {
            None => {
                write_u8(out, 0);
            },
            Some(a) => {
                write_u8(out, 1);
                a.put(out);
            },
        }
        assert(out@ =~= before + Self::enc(self.deep_view()));
    }

    fn get(data: &[u8], pos: usize) -> (r: Result<(Option<A>, usize), String>) {
        match u8::get(data, pos) {
            Err(e) => Err(e),
            Ok((tag, next)) => {
                if tag == 0 {
                    Ok((None, next))
                } else if tag == 1 {
                    match A::get(data, next) {
                        Err(e) => Err(e),
                        Ok((a, end)) => Ok((Some(a), end)),
                    }
                } else {
                    Err(invalid_tag(tag))
                }
            },
        }
    }
}

/// The encodings of a sequence's items, one after the other.
pub open spec fn enc_items<A: Wire>(v: Seq<A::V>) -> Seq<u8>
    decreases v.len(),
{
    if v.len() == 0 {
        Seq::empty()
    } else {
        A::enc(v[0]) + enc_items::<A>(v.skip(1))
    }
}

/// Reads `n` items from the front of a byte sequence.
pub open spec fn dec_items<A: Wire>(s: Seq<u8>, n: nat) -> Option<(Seq<A::V>, Seq<u8>)>
    decreases n,
{
    if n == 0 {
        Some((Seq::empty(), s))
    } else {
        match A::dec(s) {
            None => None,
            Some((a, s1)) => match dec_items::<A>(s1, (n - 1) as nat) {
                None => None,
                Some((items, s2)) => Some((seq![a] + items, s2)),
            },
        }
    }
}

/// The items of a sequence are read back.
proof fn lemma_items_round_trip<A: Wire>(v: Seq<A::V>, rest: Seq<u8>)
    requires
        forall|i: int| 0 <= i < v.len() ==> A::fits(#[trigger] v[i]),
    ensures
        dec_items::<A>(enc_items::<A>(v) + rest, v.len()) == Some((v, rest)),
    decreases v.len(),
{
    if v.len() == 0 {
        assert(enc_items::<A>(v) + rest =~= rest);
        assert(v =~= Seq::empty());
    } else {
        let tail = v.skip(1);
        assert forall|i: int| 0 <= i < tail.len() implies A::fits(#[trigger] tail[i]) by {
            assert(tail[i] == v[i + 1]);
        }
        lemma_items_round_trip::<A>(tail, rest);
        assert(A::fits(v[0]));
        A::round_trip(v[0], enc_items::<A>(tail) + rest);
        assert(enc_items::<A>(v) + rest =~= A::enc(v[0]) + (enc_items::<A>(tail) + rest));
        assert(seq![v[0]] + tail =~= v);
    }
}

/// Appending an item appends its encoding.
proof fn lemma_enc_items_push<A: Wire>(v: Seq<A::V>, a: A::V)
    ensures
        enc_items::<A>(v.push(a)) == enc_items::<A>(v) + A::enc(a),
    decreases v.len(),
{
    if v.len() == 0 {
        reveal_with_fuel(enc_items, 2);
        assert(v.push(a).skip(1).len() == 0);
        assert(enc_items::<A>(v.push(a)) =~= enc_items::<A>(v) + A::enc(a));
    } else {
        lemma_enc_items_push::<A>(v.skip(1), a);
        assert(v.push(a).skip(1) =~= v.skip(1).push(a));
        assert(enc_items::<A>(v.push(a)) =~= enc_items::<A>(v) + A::enc(a));
    }
}

/// A sequence: its length, then its items.
impl<A: Wire> Wire for Vec<A> {
    open spec fn fits(v: Seq<A::V>) -> bool {
        v.len() <= u64::MAX && forall|i: int| 0 <= i < v.len() ==> A::fits(#[trigger] v[i])
    }

    open spec fn enc(v: Seq<A::V>) -> Seq<u8> {
        u64::enc(v.len() as u64) + enc_items::<A>(v)
    }

    open spec fn dec(s: Seq<u8>) -> Option<(Seq<A::V>, Seq<u8>)> {
        match u64::dec(s) {
            None => None,
            Some((n, rest)) => dec_items::<A>(rest, n as nat),
        }
    }

    proof fn round_trip(v: Seq<A::V>, rest: Seq<u8>) {
        lemma_items_round_trip::<A>(v, rest);
        u64::round_trip(v.len() as u64, enc_items::<A>(v) + rest);
        assert(Self::enc(v) + rest =~= u64::enc(v.len() as u64) + (enc_items::<A>(v) + rest));
    }

    fn put(&self, out: &mut Vec<u8>) {
        let ghost before = out@;
        let ghost v = self.deep_view();
        let n: usize = self.len();
        (n as u64).put(out);
        let mut i: usize = 0;
        assert(enc_items::<A>(v.take(0)) =~= Seq::empty());
        while i < n
            invariant
                v == self.deep_view(),
                n == self@.len(),
                v.len() == n,
                i <= n,
                forall|k: int| 0 <= k < i ==> A::fits(#[trigger] v[k]),
                out@ =~= before + u64::enc(n as u64) + enc_items::<A>(v.take(i as int)),
            decreases n - i,
        {
            let ghost mid = out@;
            self[i].put(out);
            proof {
                assert(self[i as int].deep_view() == v[i as int]);
                lemma_enc_items_push::<A>(v.take(i as int), v[i as int]);
                assert(v.take(i + 1) =~= v.take(i as int).push(v[i as int]));
            }
            i += 1;
        }
        assert(v.take(n as int) =~= v);
        assert(out@ =~= before + Self::enc(v));
    }

    fn get(data: &[u8], pos: usize) -> (r: Result<(Vec<A>, usize), String>) {
        match u64::get(data, pos) {
            Err(e) => Err(e),
            Ok((n, start)) => {
                let mut items: Vec<A> = Vec::new();
                let mut next: usize = start;
                let mut i: u64 = 0;
                let ghost whole = dec_items::<A>(data@.skip(start as int), n as nat);
                assert(items.deep_view() =~= Seq::empty());
                proof {
                    if whole is Some {
                        assert(items.deep_view() + whole->Some_0.0 =~= whole->Some_0.0);
                    }
                }
                while i < n
                    invariant
                        i <= n,
                        start <= next <= data@.len(),
                        pos <= start,
                        whole == dec_items::<A>(data@.skip(start as int), n as nat),
                        Self::dec(data@.skip(pos as int)) == whole,
                        match dec_items::<A>(data@.skip(next as int), (n - i) as nat) {
                            None => whole is None,
                            Some((tail, rest)) => whole == Some((items.deep_view() + tail, rest)),
                        },
                    decreases n - i,
                {
                    let ghost before = items.deep_view();
                    match A::get(data, next) {
                        Err(e) => {
                            return Err(e);
                        },
                        Ok((item, end)) => {
                            let ghost a = item.deep_view();
                            items.push(item);
                            assert(items.deep_view() =~= before.push(a));
                            proof {
                                match dec_items::<A>(data@.skip(end as int), (n - i - 1) as nat) {
                                    None => {},
                                    Some((tail, rest)) => {
                                        assert(before + (seq![a] + tail) =~= before.push(a) + tail);
                                    },
                                }
                            }
                            next = end;
                            i += 1;
                        },
                    }
                }
                proof {
                    assert(items.deep_view() + Seq::empty() =~= items.deep_view());
                }
                Ok((items, next))
            },
        }
    }
}

/// An array of 8 bytes: the bytes.
impl Wire for [u8; 8] {
    open spec fn fits(v: Seq<u8>) -> bool {
        v.len() == 8
    }

    open spec fn enc(v: Seq<u8>) -> Seq<u8> {
        v
    }

    open spec fn dec(s: Seq<u8>) -> Option<(Seq<u8>, Seq<u8>)> {
        if s.len() < 8 {
            None
        } else {
            Some((s.take(8), s.skip(8)))
        }
    }

    proof fn round_trip(v: Seq<u8>, rest: Seq<u8>) {
        assert((v + rest).take(8) =~= v);
        assert((v + rest).skip(8) =~= rest);
    }

    fn put(&self, out: &mut Vec<u8>) {
        let ghost before = out@;
        let mut i: usize = 0;
        assert(self@.take(0) =~= Seq::empty());
        while i < 8
            invariant
                i <= 8,
                self@.len() == 8,
                out@ =~= before + self@.take(i as int),
            decreases 8 - i,
        {
            write_u8(out, self[i]);
            assert(self@.take(i + 1) =~= self@.take(i as int) + seq![self@[i as int]]);
            i += 1;
        }
        assert(self.deep_view() =~= self@.take(8));
    }

    fn get(data: &[u8], pos: usize) -> (r: Result<([u8; 8], usize), String>) {
        let mut bytes: [u8; 8] = [0u8; 8];
        let mut i: usize = 0;
        assert(data.len() == data@.len());
        while i < 8
            invariant
                i <= 8,
                pos + i <= data@.len(),
                data@.len() <= usize::MAX,
                bytes@.len() == 8,
                forall|k: int| 0 <= k < i ==> bytes@[k] == data@[pos + k],
            decreases 8 - i,
        {
            match read_u8(data, pos + i) {
                Ok(x) => {
                    bytes[i] = x;
                    i += 1;
                },
                Err(e) => {
                    return Err(error_text(e));
                },
            }
        }
        assert(bytes.deep_view() =~= data@.skip(pos as int).take(8));
        assert(data@.skip(pos as int).skip(8) =~= data@.skip(pos + 8));
        Ok((bytes, pos + 8))
    }
}

/// An array of 32 bytes: the bytes.
impl Wire for [u8; 32] {
    open spec fn fits(v: Seq<u8>) -> bool {
        v.len() == 32
    }

    open spec fn enc(v: Seq<u8>) -> Seq<u8> {
        v
    }

    open spec fn dec(s: Seq<u8>) -> Option<(Seq<u8>, Seq<u8>)> {
        if s.len() < 32 {
            None
        } else {
            Some((s.take(32), s.skip(32)))
        }
    }

    proof fn round_trip(v: Seq<u8>, rest: Seq<u8>) {
        assert((v + rest).take(32) =~= v);
        assert((v + rest).skip(32) =~= rest);
    }

    fn put(&self, out: &mut Vec<u8>) {
        let ghost before = out@;
        let mut i: usize = 0;
        assert(self@.take(0) =~= Seq::empty());
        while i < 32
            invariant
                i <= 32,
                self@.len() == 32,
                out@ =~= before + self@.take(i as int),
            decreases 32 - i,
        {
            write_u8(out, self[i]);
            assert(self@.take(i + 1) =~= self@.take(i as int) + seq![self@[i as int]]);
            i += 1;
        }
        assert(self.deep_view() =~= self@.take(32));
    }

    fn get(data: &[u8], pos: usize) -> (r: Result<([u8; 32], usize), String>) {
        let mut bytes: [u8; 32] = [0u8; 32];
        let mut i: usize = 0;
        assert(data.len() == data@.len());
        while i < 32
            invariant
                i <= 32,
                pos + i <= data@.len(),
                data@.len() <= usize::MAX,
                bytes@.len() == 32,
                forall|k: int| 0 <= k < i ==> bytes@[k] == data@[pos + k],
            decreases 32 - i,
        {
            match read_u8(data, pos + i) {
                Ok(x) => {
                    bytes[i] = x;
                    i += 1;
                },
                Err(e) => {
                    return Err(error_text(e));
                },
            }
        }
        assert(bytes.deep_view() =~= data@.skip(pos as int).take(32));
        assert(data@.skip(pos as int).skip(32) =~= data@.skip(pos + 32));
        Ok((bytes, pos + 32))
    }
}

/// A variant index followed by the variant's fields is read back.
pub proof fn lemma_tagged<A: Wire>(index: u32, a: A::V, rest: Seq<u8>)
    requires
        A::fits(a),
    ensures
        u32::dec(u32::enc(index) + A::enc(a) + rest) == Some((index, A::enc(a) + rest)),
        A::dec(A::enc(a) + rest) == Some((a, rest)),
{
    A::round_trip(a, rest);
    u32::round_trip(index, A::enc(a) + rest);
    assert(u32::enc(index) + A::enc(a) + rest =~= u32::enc(index) + (A::enc(a) + rest));
}

/// The text of the error for a byte that is no option tag.
fn invalid_tag(tag: u8) -> (r: String)
    ensures
        r@ == "tag for enum is not valid, found "@ + text::decimal(tag as nat),
{
    let mut out = "tag for enum is not valid, found ".to_owned();
    text::push_u64(&mut out, tag as u64);
    out
}

/// The text of the error for a variant index that an enum of `count` variants does not have.
pub fn invalid_variant(index: u32, count: u64) -> (r: String)
    ensures
        r@ == "invalid value: integer `"@ + text::decimal(index as nat)
            + "`, expected variant index 0 <= i < "@ + text::decimal(count as nat),
{
    let mut out = "invalid value: integer `".to_owned();
    text::push_u64(&mut out, index as u64);
    vstd::string::StringExecFns::append(&mut out, "`, expected variant index 0 <= i < ");
    text::push_u64(&mut out, count);
    out
}

/// Numbers are laid out with the least significant byte first. A text is its length in bytes and its
/// UTF-8 form; something optional is a zero, or a one and the thing; a list is the number of its
/// items and the items in order.
pub proof fn values_are_laid_out<A: Wire>(
    n: u64,
    i: i64,
    b: bool,
    s: Seq<char>,
    v: Seq<A::V>,
    a: A::V,
)
    ensures
        u64::enc(n) == spec_u64_to_le_bytes(n),
        i64::enc(i) == spec_u64_to_le_bytes(i as u64),
        bool::enc(b) == seq![if b { 1u8 } else { 0u8 }],
        String::enc(s) == spec_u64_to_le_bytes(encode_utf8(s).len() as u64) + encode_utf8(s),
        <Option<A>>::enc(None) == seq![0u8],
        <Option<A>>::enc(Some(a)) == seq![1u8] + A::enc(a),
        <Vec<A>>::enc(v) == spec_u64_to_le_bytes(v.len() as u64) + enc_items::<A>(v),
        enc_items::<A>(Seq::empty()).len() == 0,
        enc_items::<A>(seq![a] + v) == A::enc(a) + enc_items::<A>(v),
{
    assert((seq![a] + v).skip(1) =~= v);
}

} // verus!
