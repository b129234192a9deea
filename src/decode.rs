//! Little-endian record decoding over a byte cursor.
//!
//! Every decodable type states, as `spec_decode`, what the leading bytes of a
//! buffer decode to and how many bytes that takes. A decode call either
//! advances the cursor by exactly that many bytes, or fails with the stated
//! error and leaves the cursor where it was.

use vstd::prelude::*;
use vstd::slice::slice_subrange;

verus! {

/// Why a buffer could not be decoded.
#[derive(Debug, Clone, Copy, PartialEq, Eq, Structural)]
pub enum DecodeError {
    /// The buffer ends before the record does.
    Truncated,
    /// A magic number does not hold the expected bytes.
    BadMagic,
    /// A tag byte names no known variant.
    InvalidTag,
}

/// The unsigned 16-bit value of two little-endian bytes.
pub open spec fn le_u16(b0: u8, b1: u8) -> u16 {
    (b0 as int + b1 as int * 0x100) as u16
}

/// The unsigned 32-bit value of four little-endian bytes.
pub open spec fn le_u32(b0: u8, b1: u8, b2: u8, b3: u8) -> u32 {
    (b0 as int + b1 as int * 0x100 + b2 as int * 0x1_0000 + b3 as int * 0x100_0000) as u32
}

/// The `u16` stored little-endian at `d[i..i + 2]`.
pub open spec fn u16_at(d: Seq<u8>, i: int) -> u16 {
    le_u16(d[i], d[i + 1])
}

/// The `u32` stored little-endian at `d[i..i + 4]`.
pub open spec fn u32_at(d: Seq<u8>, i: int) -> u32 {
    le_u32(d[i], d[i + 1], d[i + 2], d[i + 3])
}

/// The `i16` stored little-endian at `d[i..i + 2]`.
pub open spec fn i16_at(d: Seq<u8>, i: int) -> i16 {
    u16_at(d, i) as i16
}

/// The `i32` stored little-endian at `d[i..i + 4]`.
pub open spec fn i32_at(d: Seq<u8>, i: int) -> i32 {
    u32_at(d, i) as i32
}

/// Reads the little-endian `u16` at `b[i..i + 2]`.
pub fn get_u16(b: &[u8], i: usize) -> (r: u16)
    requires
        i + 2 <= b@.len(),
    ensures
        r == u16_at(b@, i as int),
{
    b[i] as u16 + b[i + 1] as u16 * 0x100
}

/// Reads the little-endian `u32` at `b[i..i + 4]`.
pub fn get_u32(b: &[u8], i: usize) -> (r: u32)
    requires
        i + 4 <= b@.len(),
    ensures
        r == u32_at(b@, i as int),
{
    b[i] as u32 + b[i + 1] as u32 * 0x100 + b[i + 2] as u32 * 0x1_0000 + b[i + 3] as u32 * 0x100_0000
}

/// Reads the little-endian `i16` at `b[i..i + 2]`.
pub fn get_i16(b: &[u8], i: usize) -> (r: i16)
    requires
        i + 2 <= b@.len(),
    ensures
        r == i16_at(b@, i as int),
{
    get_u16(b, i) as i16
}

/// Reads the little-endian `i32` at `b[i..i + 4]`.
pub fn get_i32(b: &[u8], i: usize) -> (r: i32)
    requires
        i + 4 <= b@.len(),
    ensures
        r == i32_at(b@, i as int),
{
    get_u32(b, i) as i32
}

/// What a fixed-size record of `size` bytes decodes to: `v` when the buffer
/// holds the whole record.
pub open spec fn fixed<V>(data: Seq<u8>, size: nat, v: V) -> Result<(V, nat), DecodeError> {
    if size <= data.len() {
        Ok((v, size))
    } else {
        Err(DecodeError::Truncated)
    }
}

/// A read position in a byte buffer; its view is the bytes not yet read.
#[derive(Clone, Copy)]
pub struct DecoderCursor<'a> {
    rest: &'a [u8],
}

impl<'a> View for DecoderCursor<'a> {
    type V = Seq<u8>;

    closed spec fn view(&self) -> Seq<u8> {
        self.rest@
    }
}

/// A type whose values are read from the front of a byte buffer.
pub trait Decoder: Sized + View {
    /// What the leading bytes of `data` decode to, with the number of bytes
    /// that the record takes, or the error that decoding meets.
    spec fn spec_decode(data: Seq<u8>) -> Result<(Self::V, nat), DecodeError>;

    /// Reads one value from the cursor.
    fn decode(cur: &mut DecoderCursor<'_>) -> (r: Result<Self, DecodeError>)
        ensures
            match Self::spec_decode(old(cur)@) {
                Ok((v, n)) => r is Ok && r->Ok_0@ == v && n <= old(cur)@.len() && final(cur)@
                    == old(cur)@.skip(n as int),
                Err(e) => r == Err::<Self, DecodeError>(e) && final(cur)@ == old(cur)@,
            },
    ;
}

/// `r` and the remaining bytes `rest` are what decoding a `T` from the front
/// of `data` gives: the value and the bytes after it, or the error with
/// nothing consumed.
pub open spec fn decoded_from<T: Decoder>(
    data: Seq<u8>,
    r: Result<T, DecodeError>,
    rest: Seq<u8>,
) -> bool {
    match T::spec_decode(data) {
        Ok((v, n)) => r is Ok && r->Ok_0@ == v && n <= data.len() && rest == data.skip(n as int),
        Err(e) => r == Err::<T, DecodeError>(e) && rest == data,
    }
}

/// Prefixes `acc` (which took `used` bytes) to the result of decoding what follows it.
pub open spec fn chain<V>(
    acc: Seq<V>,
    used: nat,
    tail: Result<(Seq<V>, nat), DecodeError>,
) -> Result<(Seq<V>, nat), DecodeError> {
    match tail {
        Ok((vs, m)) => Ok((acc + vs, used + m)),
        Err(e) => Err(e),
    }
}

/// What decoding `count` consecutive `T` records from the front of `data` gives.
pub open spec fn spec_decode_n<T: Decoder>(data: Seq<u8>, count: nat) -> Result<
    (Seq<T::V>, nat),
    DecodeError,
>
    decreases count,
{
    if count == 0 {
        Ok((seq![], 0))
    } else {
        match T::spec_decode(data) {
            Err(e) => Err(e),
            Ok((v, n)) => chain(seq![v], n, spec_decode_n::<T>(data.skip(n as int), (count - 1) as nat)),
        }
    }
}

/// A successful decode of `count` records yields `count` values.
pub proof fn lemma_decode_n_len<T: Decoder>(data: Seq<u8>, count: nat)
    ensures
        spec_decode_n::<T>(data, count) is Ok ==> spec_decode_n::<T>(data, count)->Ok_0.0.len()
            == count,
    decreases count,
{
    if count > 0 {
        if let Ok((v, n)) = T::spec_decode(data) {
            lemma_decode_n_len::<T>(data.skip(n as int), (count - 1) as nat);
        }
    }
}

/// When every successful decode of a `T` yields a value with property `p`,
/// so does every value of a successful decode of `count` records.
pub proof fn lemma_decode_n_each<T: Decoder>(data: Seq<u8>, count: nat, p: spec_fn(T::V) -> bool)
    requires
        forall|x: Seq<u8>| #[trigger] T::spec_decode(x) is Ok ==> p(T::spec_decode(x)->Ok_0.0),
    ensures
        spec_decode_n::<T>(data, count) is Ok ==> forall|i: int|
            0 <= i < spec_decode_n::<T>(data, count)->Ok_0.0.len() ==> p(
                #[trigger] spec_decode_n::<T>(data, count)->Ok_0.0[i],
            ),
    decreases count,
{
    if count > 0 {
        if let Ok((v, n)) = T::spec_decode(data) {
            let rest = data.skip(n as int);
            lemma_decode_n_each::<T>(rest, (count - 1) as nat, p);
            if let Ok((vs, m)) = spec_decode_n::<T>(rest, (count - 1) as nat) {
                let all = seq![v] + vs;
                assert forall|i: int| 0 <= i < all.len() implies p(#[trigger] all[i]) by {
                    if i > 0 {
                        assert(all[i] == vs[i - 1]);
                    }
                }
            }
        }
    }
}

/// The views of the items of `v`, in order.
pub open spec fn views<T: View>(v: Seq<T>) -> Seq<T::V> {
    v.map_values(|t: T| t@)
}

/// `r` and the remaining bytes `rest` are what the sequence decode `s` of
/// `data` gives.
pub open spec fn seq_decoded_from<T: View>(
    data: Seq<u8>,
    s: Result<(Seq<T::V>, nat), DecodeError>,
    r: Result<Vec<T>, DecodeError>,
    rest: Seq<u8>,
) -> bool {
    match s {
        Ok((vs, n)) => r is Ok && views(r->Ok_0@) == vs && n <= data.len() && rest == data.skip(
            n as int,
        ),
        Err(e) => r == Err::<Vec<T>, DecodeError>(e) && rest == data,
    }
}

impl<'a> DecoderCursor<'a> {
    /// A cursor at the start of `bytes`.
    pub fn new(bytes: &'a [u8]) -> (r: DecoderCursor<'a>)
        ensures
            r@ == bytes@,
    {
        DecoderCursor { rest: bytes }
    }

    /// The bytes not yet read.
    pub fn remaining(&self) -> (r: &'a [u8])
        ensures
            r@ == self@,
    {
        self.rest
    }

    /// Reads a run of `n` bytes.
    pub fn take(&mut self, n: usize) -> (r: Result<&'a [u8], DecodeError>)
        ensures
            n <= old(self)@.len() ==> r is Ok && r->Ok_0@ == old(self)@.take(n as int)
                && final(self)@ == old(self)@.skip(n as int),
            n > old(self)@.len() ==> r == Err::<&'a [u8], DecodeError>(DecodeError::Truncated)
                && final(self)@ == old(self)@,
    {
        if n > self.rest.len() {
            return Err(DecodeError::Truncated);
        }
        let head = slice_subrange(self.rest, 0, n);
        self.rest = slice_subrange(self.rest, n, self.rest.len());
        Ok(head)
    }

    /// Reads one value of type `T`.
    pub fn decode<T: Decoder>(&mut self) -> (r: Result<T, DecodeError>)
        ensures
            decoded_from(old(self)@, r, final(self)@),
    {
        T::decode(self)
    }

    /// Reads `size` consecutive values of type `T`; on an error nothing is consumed.
    pub fn decode_n<T: Decoder>(&mut self, size: usize) -> (r: Result<Vec<T>, DecodeError>)
        ensures
            seq_decoded_from(old(self)@, spec_decode_n::<T>(old(self)@, size as nat), r, final(self)@),
    {
        let start = *self;
        let mut out: Vec<T> = Vec::new();
        let mut i: usize = 0;
        let ghost mut used: nat = 0;
        while i < size
            invariant
                i <= size,
                start@ == old(self)@,
                used <= start@.len(),
                self@ == start@.skip(used as int),
                spec_decode_n::<T>(start@, size as nat) == chain(
                    views(out@),
                    used,
                    spec_decode_n::<T>(self@, (size - i) as nat),
                ),
            decreases size - i,
        {
            let ghost before = self@;
            match T::decode(self) {
                Ok(v) => {
                    proof {
                        let (sv, n) = T::spec_decode(before).unwrap();
                        let tail = spec_decode_n::<T>(self@, (size - i - 1) as nat);
                        assert(before.skip(n as int) == self@);
                        assert(self@ =~= start@.skip((used + n) as int));
                        match tail {
                            Ok((vs, m)) => {
                                assert(views(out@) + (seq![sv] + vs) =~= views(out@.push(v)) + vs);
                            },
                            Err(_) => {},
                        }
                        used = used + n;
                    }
                    out.push(v);
                    i = i + 1;
                },
                Err(e) => {
                    assert(spec_decode_n::<T>(before, (size - i) as nat) == Err::<(Seq<T::V>, nat), DecodeError>(e));
                    *self = start;
                    return Err(e);
                },
            }
        }
        proof {
            assert(views(out@) + seq![] =~= views(out@));
        }
        Ok(out)
    }
}

impl Decoder for u8 {
    open spec fn spec_decode(data: Seq<u8>) -> Result<(u8, nat), DecodeError> {
        fixed(data, 1, data[0])
    }

    fn decode(cur: &mut DecoderCursor<'_>) -> (r: Result<u8, DecodeError>) {
        match cur.take(1) {
            Ok(b) => Ok(b[0]),
            Err(e) => Err(e),
        }
    }
}

impl Decoder for i8 {
    open spec fn spec_decode(data: Seq<u8>) -> Result<(i8, nat), DecodeError> {
        fixed(data, 1, data[0] as i8)
    }

    fn decode(cur: &mut DecoderCursor<'_>) -> (r: Result<i8, DecodeError>) {
        match cur.take(1) {
            Ok(b) => Ok(b[0] as i8),
            Err(e) => Err(e),
        }
    }
}

impl Decoder for u16 {
    open spec fn spec_decode(data: Seq<u8>) -> Result<(u16, nat), DecodeError> {
        fixed(data, 2, u16_at(data, 0))
    }

    fn decode(cur: &mut DecoderCursor<'_>) -> (r: Result<u16, DecodeError>) {
        match cur.take(2) {
            Ok(b) => Ok(get_u16(b, 0)),
            Err(e) => Err(e),
        }
    }
}

impl Decoder for i16 {
    open spec fn spec_decode(data: Seq<u8>) -> Result<(i16, nat), DecodeError> {
        fixed(data, 2, i16_at(data, 0))
    }

    fn decode(cur: &mut DecoderCursor<'_>) -> (r: Result<i16, DecodeError>) {
        match cur.take(2) {
            Ok(b) => Ok(get_i16(b, 0)),
            Err(e) => Err(e),
        }
    }
}

impl Decoder for u32 {
    open spec fn spec_decode(data: Seq<u8>) -> Result<(u32, nat), DecodeError> {
        fixed(data, 4, u32_at(data, 0))
    }

    fn decode(cur: &mut DecoderCursor<'_>) -> (r: Result<u32, DecodeError>) {
        match cur.take(4) {
            Ok(b) => Ok(get_u32(b, 0)),
            Err(e) => Err(e),
        }
    }
}

impl Decoder for i32 {
    open spec fn spec_decode(data: Seq<u8>) -> Result<(i32, nat), DecodeError> {
        fixed(data, 4, i32_at(data, 0))
    }

    fn decode(cur: &mut DecoderCursor<'_>) -> (r: Result<i32, DecodeError>) {
        match cur.take(4) {
            Ok(b) => Ok(get_i32(b, 0)),
            Err(e) => Err(e),
        }
    }
}

/// An unsigned integer type that stores the length of a sequence.
pub trait LengthPrefix: Decoder {
    /// The length that the stored value `v` gives.
    spec fn spec_len(v: Self::V) -> nat;

    /// The stored length as a `usize`.
    fn len(&self) -> (r: usize)
        ensures
            r as nat == Self::spec_len(self@),
    ;
}

impl LengthPrefix for u8 {
    open spec fn spec_len(v: u8) -> nat {
        v as nat
    }

    fn len(&self) -> (r: usize) {
        *self as usize
    }
}

impl LengthPrefix for u16 {
    open spec fn spec_len(v: u16) -> nat {
        v as nat
    }

    fn len(&self) -> (r: usize) {
        *self as usize
    }
}

impl LengthPrefix for u32 {
    open spec fn spec_len(v: u32) -> nat {
        v as nat
    }

    fn len(&self) -> (r: usize) {
        *self as usize
    }
}

/// What decoding a sequence of `T` preceded by its length, stored as an `L`,
/// gives.
pub open spec fn spec_prefixed<L: LengthPrefix, T: Decoder>(data: Seq<u8>) -> Result<
    (Seq<T::V>, nat),
    DecodeError,
> {
    match L::spec_decode(data) {
        Err(e) => Err(e),
        Ok((len, n)) => chain(seq![], n, spec_decode_n::<T>(data.skip(n as int), L::spec_len(len))),
    }
}

/// Decoding of a sequence whose length is stored before it as an `L`.
pub struct WithSizePrefix<L> {
    len: core::marker::PhantomData<L>,
}

impl<L: LengthPrefix> WithSizePrefix<L> {
    pub fn new() -> (r: Self) {
        WithSizePrefix { len: core::marker::PhantomData }
    }

    /// Reads the length, then that many values of type `T`; on an error
    /// nothing is consumed.
    pub fn decode<T: Decoder>(&self, cur: &mut DecoderCursor<'_>) -> (r: Result<Vec<T>, DecodeError>)
        ensures
            seq_decoded_from(old(cur)@, spec_prefixed::<L, T>(old(cur)@), r, final(cur)@),
    {
        let start = *cur;
        let len = match cur.decode::<L>() {
            Ok(len) => len,
            Err(e) => return Err(e),
        };
        let ghost after = cur@;
        match cur.decode_n::<T>(len.len()) {
            Ok(v) => {
                proof {
                    let n = L::spec_decode(start@).unwrap().1;
                    let m = spec_decode_n::<T>(after, L::spec_len(len@)).unwrap().1;
                    assert(seq![] + views(v@) =~= views(v@));
                    assert(after.skip(m as int) =~= start@.skip((n + m) as int));
                }
                Ok(v)
            },
            Err(e) => {
                *cur = start;
                Err(e)
            },
        }
    }
}

/// Decoding of a sequence whose length the caller knows.
pub struct WithSize {
    count: usize,
}

impl WithSize {
    pub fn new(count: usize) -> (r: Self)
        ensures
            r.count() == count,
    {
        WithSize { count }
    }

    pub closed spec fn count(&self) -> usize {
        self.count
    }

    /// Reads `count` values of type `T`; on an error nothing is consumed.
    pub fn decode<T: Decoder>(&self, cur: &mut DecoderCursor<'_>) -> (r: Result<Vec<T>, DecodeError>)
        ensures
            seq_decoded_from(old(cur)@, spec_decode_n::<T>(old(cur)@, self.count() as nat), r, final(cur)@),
    {
        cur.decode_n(self.count)
    }
}

} // verus!
