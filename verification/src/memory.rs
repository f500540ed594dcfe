//! The typed codec: every scalar kind a session can scan for, with decoding
//! from raw little-endian bytes, encoding back, candidate enumeration over a
//! whole byte span, and the value arithmetic the filters need.
use crate::numtext::parse_dec;
use crate::numtext::parse_int;
use vstd::bytes::*;
use vstd::prelude::*;

verus! {

/// One decoded candidate: the address a value was decoded at, and the value.
pub type AddressEntry<T> = (usize, T);

/// A scalar kind the scan engine can be parameterized by.
///
/// The spec functions fix the kind's byte width, its mathematical value, its
/// range, and the exact meaning of decoding and encoding; the exec methods
/// are each proved against them.  `lemma_round_trip` obliges every kind to
/// prove that decoding an encoded value gives the value back.
pub trait ReadFromBytes: Sized + Copy {
    /// How many bytes one value occupies.
    spec fn byte_size() -> int;

    /// The mathematical integer this value stands for.
    spec fn as_int(self) -> int;

    /// The smallest value of the kind.
    spec fn min_val() -> int;

    /// The largest value of the kind.
    spec fn max_val() -> int;

    /// What decoding `byte_size` little-endian bytes means.
    spec fn decode_spec(bytes: Seq<u8>) -> Self;

    /// What encoding this value means.
    spec fn encode_spec(self) -> Seq<u8>;

    /// Addition that wraps around the kind's range.
    spec fn wrap_add_spec(self, d: Self) -> Self;

    /// Subtraction that wraps around the kind's range.
    spec fn wrap_sub_spec(self, d: Self) -> Self;

    /// Decoding inverts encoding: the codec loses nothing.
    proof fn lemma_round_trip(v: Self)
        ensures
            Self::decode_spec(v.encode_spec()) == v,
            v.encode_spec().len() == Self::byte_size(),
            1 <= Self::byte_size() <= 8,
    ;

    fn size_of_value() -> (n: usize)
        ensures
            n == Self::byte_size(),
            1 <= n <= 8,
    ;

    fn decode_at(bytes: &[u8], off: usize) -> (r: Self)
        requires
            off + Self::byte_size() <= bytes@.len(),
        ensures
            r == Self::decode_spec(bytes@.subrange(off as int, off + Self::byte_size())),
    ;

    fn write_bytes(&self) -> (r: Vec<u8>)
        ensures
            r@ == self.encode_spec(),
    ;

    fn value_eq(&self, other: &Self) -> (r: bool)
        ensures
            r == (self.as_int() == other.as_int()),
    ;

    fn value_le(&self, other: &Self) -> (r: bool)
        ensures
            r == (self.as_int() <= other.as_int()),
    ;

    fn value_add(&self, d: &Self) -> (r: Self)
        ensures
            r == self.wrap_add_spec(*d),
    ;

    fn value_sub(&self, d: &Self) -> (r: Self)
        ensures
            r == self.wrap_sub_spec(*d),
    ;

    fn default_value() -> (r: Self)
        ensures
            r.as_int() == 0,
    ;

    fn from_usize(a: usize) -> (r: Option<Self>)
        ensures
            match r {
                Some(v) => v.as_int() == a as int && a as int <= Self::max_val(),
                None => a as int > Self::max_val(),
            },
    ;

    fn to_usize(&self) -> (r: Option<usize>)
        ensures
            match r {
                Some(u) => u as int == self.as_int(),
                None => self.as_int() < 0 || self.as_int() > usize::MAX as int,
            },
    ;

    fn parse_value(s: &str) -> (r: Option<Self>)
        ensures
            match r {
                Some(v) => parse_dec(s@) == Some(v.as_int()),
                None => match parse_dec(s@) {
                    Some(n) => n < Self::min_val() || n > Self::max_val(),
                    None => true,
                },
            },
    ;

    /// Decode a value at every byte offset of `memory` that has room for
    /// one, pairing it with `base + offset`: the whole candidate population
    /// of one region.
    fn possible_values(memory: &Vec<u8>, base: usize) -> (r: Vec<AddressEntry<Self>>)
        requires
            base + memory@.len() <= usize::MAX,
        ensures
            memory@.len() >= Self::byte_size() ==> r@.len() == memory@.len() - Self::byte_size()
                + 1,
            memory@.len() < Self::byte_size() ==> r@.len() == 0,
            forall|i: int|
                0 <= i < r@.len() ==> #[trigger] r@[i] == (
                ((base + i) as usize),
                Self::decode_spec(memory@.subrange(i, i + Self::byte_size())),
                ),
    {
        let s = Self::size_of_value();
        let n = memory.len();
        let mut out: Vec<AddressEntry<Self>> = Vec::new();
        if n < s {
            return out;
        }
        let mut off: usize = 0;
        while off <= n - s
            invariant
                n == memory@.len(),
                n >= s,
                s == Self::byte_size(),
                1 <= s <= 8,
                base + n <= usize::MAX,
                0 <= off <= n - s + 1,
                out@.len() == off,
                forall|i: int|
                    0 <= i < out@.len() ==> #[trigger] out@[i] == (
                    ((base + i) as usize),
                    Self::decode_spec(memory@.subrange(i, i + Self::byte_size())),
                    ),
            decreases n - off,
        {
            let v = Self::decode_at(memory.as_slice(), off);
            out.push((base + off, v));
            off = off + 1;
        }
        out
    }

    /// Decode one value from the front of an exact-size read buffer.
    fn read_value(val: &Vec<u8>) -> (r: Option<Self>)
        ensures
            match r {
                Some(v) => val@.len() >= Self::byte_size() && v == Self::decode_spec(
                    val@.subrange(0, Self::byte_size()),
                ),
                None => val@.len() < Self::byte_size(),
            },
    {
        let s = Self::size_of_value();
        if val.len() < s {
            None
        } else {
            Some(Self::decode_at(val.as_slice(), 0))
        }
    }
}

impl ReadFromBytes for u8 {
    open spec fn byte_size() -> int {
        1
    }

    open spec fn as_int(self) -> int {
        self as int
    }

    open spec fn min_val() -> int {
        0
    }

    open spec fn max_val() -> int {
        u8::MAX as int
    }

    open spec fn decode_spec(bytes: Seq<u8>) -> Self {
        bytes[0]
    }

    open spec fn encode_spec(self) -> Seq<u8> {
        seq![self]
    }

    open spec fn wrap_add_spec(self, d: Self) -> Self {
        vstd::wrapping::u8_specs::wrapping_add(self, d)
    }

    open spec fn wrap_sub_spec(self, d: Self) -> Self {
        vstd::wrapping::u8_specs::wrapping_sub(self, d)
    }

    proof fn lemma_round_trip(v: Self) {
    }

    fn size_of_value() -> (n: usize) {
        1
    }

    fn decode_at(bytes: &[u8], off: usize) -> (r: Self) {
        *vstd::slice::slice_index_get(bytes, off)
    }

    fn write_bytes(&self) -> (r: Vec<u8>) {
        let mut out: Vec<u8> = Vec::new();
        out.push(*self);
        proof {
            assert(out@ =~= self.encode_spec());
        }
        out
    }

    fn value_eq(&self, other: &Self) -> (r: bool) {
        *self == *other
    }

    fn value_le(&self, other: &Self) -> (r: bool) {
        *self <= *other
    }

    fn value_add(&self, d: &Self) -> (r: Self) {
        self.wrapping_add(*d)
    }

    fn value_sub(&self, d: &Self) -> (r: Self) {
        self.wrapping_sub(*d)
    }

    fn default_value() -> (r: Self) {
        0
    }

    fn from_usize(a: usize) -> (r: Option<Self>) {
        if a <= u8::MAX as usize {
            Some(a as u8)
        } else {
            None
        }
    }

    fn to_usize(&self) -> (r: Option<usize>) {
        Some(*self as usize)
    }

    fn parse_value(s: &str) -> (r: Option<Self>) {
        match parse_int(s) {
            Some((neg, mag)) => {
                if neg && mag > 0 {
                    None
                } else if mag <= u8::MAX as u64 {
                    Some(mag as u8)
                } else {
                    None
                }
            },
            None => None,
        }
    }
}

impl ReadFromBytes for u16 {
    open spec fn byte_size() -> int {
        2
    }

    open spec fn as_int(self) -> int {
        self as int
    }

    open spec fn min_val() -> int {
        0
    }

    open spec fn max_val() -> int {
        u16::MAX as int
    }

    open spec fn decode_spec(bytes: Seq<u8>) -> Self {
        spec_u16_from_le_bytes(bytes)
    }

    open spec fn encode_spec(self) -> Seq<u8> {
        spec_u16_to_le_bytes(self)
    }

    open spec fn wrap_add_spec(self, d: Self) -> Self {
        vstd::wrapping::u16_specs::wrapping_add(self, d)
    }

    open spec fn wrap_sub_spec(self, d: Self) -> Self {
        vstd::wrapping::u16_specs::wrapping_sub(self, d)
    }

    proof fn lemma_round_trip(v: Self) {
        lemma_auto_spec_u16_to_from_le_bytes();
        assert(spec_u16_to_le_bytes(v).len() == 2);
        assert(spec_u16_from_le_bytes(spec_u16_to_le_bytes(v)) == v);
    }

    fn size_of_value() -> (n: usize) {
        2
    }

    fn decode_at(bytes: &[u8], off: usize) -> (r: Self) {
        // the length call bounds the slice view, so the subrange end fits
        let _len = bytes.len();
        u16_from_le_bytes(vstd::slice::slice_subrange(bytes, off, off + 2))
    }

    fn write_bytes(&self) -> (r: Vec<u8>) {
        u16_to_le_bytes(*self)
    }

    fn value_eq(&self, other: &Self) -> (r: bool) {
        *self == *other
    }

    fn value_le(&self, other: &Self) -> (r: bool) {
        *self <= *other
    }

    fn value_add(&self, d: &Self) -> (r: Self) {
        self.wrapping_add(*d)
    }

    fn value_sub(&self, d: &Self) -> (r: Self) {
        self.wrapping_sub(*d)
    }

    fn default_value() -> (r: Self) {
        0
    }

    fn from_usize(a: usize) -> (r: Option<Self>) {
        if a <= u16::MAX as usize {
            Some(a as u16)
        } else {
            None
        }
    }

    fn to_usize(&self) -> (r: Option<usize>) {
        Some(*self as usize)
    }

    fn parse_value(s: &str) -> (r: Option<Self>) {
        match parse_int(s) {
            Some((neg, mag)) => {
                if neg && mag > 0 {
                    None
                } else if mag <= u16::MAX as u64 {
                    Some(mag as u16)
                } else {
                    None
                }
            },
            None => None,
        }
    }
}

impl ReadFromBytes for u32 {
    open spec fn byte_size() -> int {
        4
    }

    open spec fn as_int(self) -> int {
        self as int
    }

    open spec fn min_val() -> int {
        0
    }

    open spec fn max_val() -> int {
        u32::MAX as int
    }

    open spec fn decode_spec(bytes: Seq<u8>) -> Self {
        spec_u32_from_le_bytes(bytes)
    }

    open spec fn encode_spec(self) -> Seq<u8> {
        spec_u32_to_le_bytes(self)
    }

    open spec fn wrap_add_spec(self, d: Self) -> Self {
        vstd::wrapping::u32_specs::wrapping_add(self, d)
    }

    open spec fn wrap_sub_spec(self, d: Self) -> Self {
        vstd::wrapping::u32_specs::wrapping_sub(self, d)
    }

    proof fn lemma_round_trip(v: Self) {
        lemma_auto_spec_u32_to_from_le_bytes();
        assert(spec_u32_to_le_bytes(v).len() == 4);
        assert(spec_u32_from_le_bytes(spec_u32_to_le_bytes(v)) == v);
    }

    fn size_of_value() -> (n: usize) {
        4
    }

    fn decode_at(bytes: &[u8], off: usize) -> (r: Self) {
        // the length call bounds the slice view, so the subrange end fits
        let _len = bytes.len();
        u32_from_le_bytes(vstd::slice::slice_subrange(bytes, off, off + 4))
    }

    fn write_bytes(&self) -> (r: Vec<u8>) {
        u32_to_le_bytes(*self)
    }

    fn value_eq(&self, other: &Self) -> (r: bool) {
        *self == *other
    }

    fn value_le(&self, other: &Self) -> (r: bool) {
        *self <= *other
    }

    fn value_add(&self, d: &Self) -> (r: Self) {
        self.wrapping_add(*d)
    }

    fn value_sub(&self, d: &Self) -> (r: Self) {
        self.wrapping_sub(*d)
    }

    fn default_value() -> (r: Self) {
        0
    }

    fn from_usize(a: usize) -> (r: Option<Self>) {
        if a <= u32::MAX as usize {
            Some(a as u32)
        } else {
            None
        }
    }

    fn to_usize(&self) -> (r: Option<usize>) {
        Some(*self as usize)
    }

    fn parse_value(s: &str) -> (r: Option<Self>) {
        match parse_int(s) {
            Some((neg, mag)) => {
                if neg && mag > 0 {
                    None
                } else if mag <= u32::MAX as u64 {
                    Some(mag as u32)
                } else {
                    None
                }
            },
            None => None,
        }
    }
}

impl ReadFromBytes for u64 {
    open spec fn byte_size() -> int {
        8
    }

    open spec fn as_int(self) -> int {
        self as int
    }

    open spec fn min_val() -> int {
        0
    }

    open spec fn max_val() -> int {
        u64::MAX as int
    }

    open spec fn decode_spec(bytes: Seq<u8>) -> Self {
        spec_u64_from_le_bytes(bytes)
    }

    open spec fn encode_spec(self) -> Seq<u8> {
        spec_u64_to_le_bytes(self)
    }

    open spec fn wrap_add_spec(self, d: Self) -> Self {
        vstd::wrapping::u64_specs::wrapping_add(self, d)
    }

    open spec fn wrap_sub_spec(self, d: Self) -> Self {
        vstd::wrapping::u64_specs::wrapping_sub(self, d)
    }

    proof fn lemma_round_trip(v: Self) {
        lemma_auto_spec_u64_to_from_le_bytes();
        assert(spec_u64_to_le_bytes(v).len() == 8);
        assert(spec_u64_from_le_bytes(spec_u64_to_le_bytes(v)) == v);
    }

    fn size_of_value() -> (n: usize) {
        8
    }

    fn decode_at(bytes: &[u8], off: usize) -> (r: Self) {
        // the length call bounds the slice view, so the subrange end fits
        let _len = bytes.len();
        u64_from_le_bytes(vstd::slice::slice_subrange(bytes, off, off + 8))
    }

    fn write_bytes(&self) -> (r: Vec<u8>) {
        u64_to_le_bytes(*self)
    }

    fn value_eq(&self, other: &Self) -> (r: bool) {
        *self == *other
    }

    fn value_le(&self, other: &Self) -> (r: bool) {
        *self <= *other
    }

    fn value_add(&self, d: &Self) -> (r: Self) {
        self.wrapping_add(*d)
    }

    fn value_sub(&self, d: &Self) -> (r: Self) {
        self.wrapping_sub(*d)
    }

    fn default_value() -> (r: Self) {
        0
    }

    fn from_usize(a: usize) -> (r: Option<Self>) {
        Some(a as u64)
    }

    fn to_usize(&self) -> (r: Option<usize>) {
        if *self <= usize::MAX as u64 {
            Some(*self as usize)
        } else {
            None
        }
    }

    fn parse_value(s: &str) -> (r: Option<Self>) {
        match parse_int(s) {
            Some((neg, mag)) => {
                if neg && mag > 0 {
                    None
                } else {
                    Some(mag)
                }
            },
            None => None,
        }
    }
}

impl ReadFromBytes for i16 {
    open spec fn byte_size() -> int {
        2
    }

    open spec fn as_int(self) -> int {
        self as int
    }

    open spec fn min_val() -> int {
        i16::MIN as int
    }

    open spec fn max_val() -> int {
        i16::MAX as int
    }

    open spec fn decode_spec(bytes: Seq<u8>) -> Self {
        spec_u16_from_le_bytes(bytes) as i16
    }

    open spec fn encode_spec(self) -> Seq<u8> {
        spec_u16_to_le_bytes(self as u16)
    }

    open spec fn wrap_add_spec(self, d: Self) -> Self {
        vstd::wrapping::i16_specs::wrapping_add(self, d)
    }

    open spec fn wrap_sub_spec(self, d: Self) -> Self {
        vstd::wrapping::i16_specs::wrapping_sub(self, d)
    }

    proof fn lemma_round_trip(v: Self) {
        lemma_auto_spec_u16_to_from_le_bytes();
        let u = v as u16;
        assert(spec_u16_to_le_bytes(u).len() == 2);
        assert(spec_u16_from_le_bytes(spec_u16_to_le_bytes(u)) == u);
        assert((v as u16) as i16 == v) by (bit_vector);
    }

    fn size_of_value() -> (n: usize) {
        2
    }

    fn decode_at(bytes: &[u8], off: usize) -> (r: Self) {
        // the length call bounds the slice view, so the subrange end fits
        let _len = bytes.len();
        #[verifier::truncate] (u16_from_le_bytes(vstd::slice::slice_subrange(bytes, off, off + 2)) as i16)
    }

    fn write_bytes(&self) -> (r: Vec<u8>) {
        u16_to_le_bytes(*self as u16)
    }

    fn value_eq(&self, other: &Self) -> (r: bool) {
        *self == *other
    }

    fn value_le(&self, other: &Self) -> (r: bool) {
        *self <= *other
    }

    fn value_add(&self, d: &Self) -> (r: Self) {
        self.wrapping_add(*d)
    }

    fn value_sub(&self, d: &Self) -> (r: Self) {
        self.wrapping_sub(*d)
    }

    fn default_value() -> (r: Self) {
        0
    }

    fn from_usize(a: usize) -> (r: Option<Self>) {
        if a <= i16::MAX as usize {
            Some(a as i16)
        } else {
            None
        }
    }

    fn to_usize(&self) -> (r: Option<usize>) {
        if *self >= 0 {
            Some(*self as usize)
        } else {
            None
        }
    }

    fn parse_value(s: &str) -> (r: Option<Self>) {
        match parse_int(s) {
            Some((neg, mag)) => {
                if neg {
                    if mag > 0x8000 {
                        None
                    } else if mag == 0x8000 {
                        Some(i16::MIN)
                    } else {
                        Some(-(mag as i16))
                    }
                } else if mag <= i16::MAX as u64 {
                    Some(mag as i16)
                } else {
                    None
                }
            },
            None => None,
        }
    }
}

impl ReadFromBytes for i32 {
    open spec fn byte_size() -> int {
        4
    }

    open spec fn as_int(self) -> int {
        self as int
    }

    open spec fn min_val() -> int {
        i32::MIN as int
    }

    open spec fn max_val() -> int {
        i32::MAX as int
    }

    open spec fn decode_spec(bytes: Seq<u8>) -> Self {
        spec_u32_from_le_bytes(bytes) as i32
    }

    open spec fn encode_spec(self) -> Seq<u8> {
        spec_u32_to_le_bytes(self as u32)
    }

    open spec fn wrap_add_spec(self, d: Self) -> Self {
        vstd::wrapping::i32_specs::wrapping_add(self, d)
    }

    open spec fn wrap_sub_spec(self, d: Self) -> Self {
        vstd::wrapping::i32_specs::wrapping_sub(self, d)
    }

    proof fn lemma_round_trip(v: Self) {
        lemma_auto_spec_u32_to_from_le_bytes();
        let u = v as u32;
        assert(spec_u32_to_le_bytes(u).len() == 4);
        assert(spec_u32_from_le_bytes(spec_u32_to_le_bytes(u)) == u);
        assert((v as u32) as i32 == v) by (bit_vector);
    }

    fn size_of_value() -> (n: usize) {
        4
    }

    fn decode_at(bytes: &[u8], off: usize) -> (r: Self) {
        // the length call bounds the slice view, so the subrange end fits
        let _len = bytes.len();
        #[verifier::truncate] (u32_from_le_bytes(vstd::slice::slice_subrange(bytes, off, off + 4)) as i32)
    }

    fn write_bytes(&self) -> (r: Vec<u8>) {
        u32_to_le_bytes(*self as u32)
    }

    fn value_eq(&self, other: &Self) -> (r: bool) {
        *self == *other
    }

    fn value_le(&self, other: &Self) -> (r: bool) {
        *self <= *other
    }

    fn value_add(&self, d: &Self) -> (r: Self) {
        self.wrapping_add(*d)
    }

    fn value_sub(&self, d: &Self) -> (r: Self) {
        self.wrapping_sub(*d)
    }

    fn default_value() -> (r: Self) {
        0
    }

    fn from_usize(a: usize) -> (r: Option<Self>) {
        if a <= i32::MAX as usize {
            Some(a as i32)
        } else {
            None
        }
    }

    fn to_usize(&self) -> (r: Option<usize>) {
        if *self >= 0 {
            Some(*self as usize)
        } else {
            None
        }
    }

    fn parse_value(s: &str) -> (r: Option<Self>) {
        match parse_int(s) {
            Some((neg, mag)) => {
                if neg {
                    if mag > 0x8000_0000 {
                        None
                    } else if mag == 0x8000_0000 {
                        Some(i32::MIN)
                    } else {
                        Some(-(mag as i32))
                    }
                } else if mag <= i32::MAX as u64 {
                    Some(mag as i32)
                } else {
                    None
                }
            },
            None => None,
        }
    }
}

impl ReadFromBytes for i64 {
    open spec fn byte_size() -> int {
        8
    }

    open spec fn as_int(self) -> int {
        self as int
    }

    open spec fn min_val() -> int {
        i64::MIN as int
    }

    open spec fn max_val() -> int {
        i64::MAX as int
    }

    open spec fn decode_spec(bytes: Seq<u8>) -> Self {
        spec_u64_from_le_bytes(bytes) as i64
    }

    open spec fn encode_spec(self) -> Seq<u8> {
        spec_u64_to_le_bytes(self as u64)
    }

    open spec fn wrap_add_spec(self, d: Self) -> Self {
        vstd::wrapping::i64_specs::wrapping_add(self, d)
    }

    open spec fn wrap_sub_spec(self, d: Self) -> Self {
        vstd::wrapping::i64_specs::wrapping_sub(self, d)
    }

    proof fn lemma_round_trip(v: Self) {
        lemma_auto_spec_u64_to_from_le_bytes();
        let u = v as u64;
        assert(spec_u64_to_le_bytes(u).len() == 8);
        assert(spec_u64_from_le_bytes(spec_u64_to_le_bytes(u)) == u);
        assert((v as u64) as i64 == v) by (bit_vector);
    }

    fn size_of_value() -> (n: usize) {
        8
    }

    fn decode_at(bytes: &[u8], off: usize) -> (r: Self) {
        // the length call bounds the slice view, so the subrange end fits
        let _len = bytes.len();
        #[verifier::truncate] (u64_from_le_bytes(vstd::slice::slice_subrange(bytes, off, off + 8)) as i64)
    }

    fn write_bytes(&self) -> (r: Vec<u8>) {
        u64_to_le_bytes(*self as u64)
    }

    fn value_eq(&self, other: &Self) -> (r: bool) {
        *self == *other
    }

    fn value_le(&self, other: &Self) -> (r: bool) {
        *self <= *other
    }

    fn value_add(&self, d: &Self) -> (r: Self) {
        self.wrapping_add(*d)
    }

    fn value_sub(&self, d: &Self) -> (r: Self) {
        self.wrapping_sub(*d)
    }

    fn default_value() -> (r: Self) {
        0
    }

    fn from_usize(a: usize) -> (r: Option<Self>) {
        if a as u64 <= i64::MAX as u64 {
            Some(a as i64)
        } else {
            None
        }
    }

    fn to_usize(&self) -> (r: Option<usize>) {
        if *self >= 0 && *self as u64 <= usize::MAX as u64 {
            Some(*self as usize)
        } else {
            None
        }
    }

    fn parse_value(s: &str) -> (r: Option<Self>) {
        match parse_int(s) {
            Some((neg, mag)) => {
                if neg {
                    if mag > 0x8000_0000_0000_0000 {
                        None
                    } else if mag == 0x8000_0000_0000_0000 {
                        Some(i64::MIN)
                    } else {
                        Some(-(mag as i64))
                    }
                } else if mag <= i64::MAX as u64 {
                    Some(mag as i64)
                } else {
                    None
                }
            },
            None => None,
        }
    }
}

} // verus!
