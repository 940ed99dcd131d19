//! Big-endian integer layouts and the errors of decoding.
use bytes::BytesMut;
use vstd::arithmetic::div_mod::{lemma_fundamental_div_mod_converse, lemma_mod_multiples_basic};
use vstd::arithmetic::mul::{lemma_mul_inequality, lemma_mul_is_distributive_add_other_way};
use vstd::prelude::*;
use crate::buf::bytes_of;

verus! {

/// Why a buffer could not be decoded.
#[derive(Debug, Clone, Copy, PartialEq, Eq, Structural)]
pub enum DecodeError {
    /// Fewer bytes than a fixed-size field or a declared length needs.
    Truncated,
    /// The header checksum disagrees with the bytes.
    ChecksumMismatch,
    /// An authentication type other than 0.
    UnsupportedAuthType,
    /// A list that does not fit its region, a length field that disagrees with
    /// the bytes, or bytes left over in a region.
    Malformed,
}

/// Two bytes holding `v`, most significant first.
pub open spec fn be16_bytes(v: u16) -> Seq<u8> {
    seq![(v / 0x100) as u8, (v % 0x100) as u8]
}

/// The low 24 bits of `v` in three bytes, most significant first.
pub open spec fn be24_bytes(v: u32) -> Seq<u8> {
    seq![((v / 0x10000) % 0x100) as u8, ((v / 0x100) % 0x100) as u8, (v % 0x100) as u8]
}

/// Four bytes holding `v`, most significant first.
pub open spec fn be32_bytes(v: u32) -> Seq<u8> {
    seq![
        (v / 0x1000000) as u8,
        ((v / 0x10000) % 0x100) as u8,
        ((v / 0x100) % 0x100) as u8,
        (v % 0x100) as u8,
    ]
}

/// Eight bytes holding `v`, most significant first.
pub open spec fn be64_bytes(v: u64) -> Seq<u8> {
    be32_bytes((v / 0x1_0000_0000) as u32) + be32_bytes((v % 0x1_0000_0000) as u32)
}

/// The big-endian integer in `b[i]`, `b[i + 1]`.
pub open spec fn be16_at(b: Seq<u8>, i: int) -> u16 {
    (b[i] * 0x100 + b[i + 1]) as u16
}

/// The big-endian integer in `b[i]` .. `b[i + 2]`.
pub open spec fn be24_at(b: Seq<u8>, i: int) -> u32 {
    (b[i] * 0x10000 + b[i + 1] * 0x100 + b[i + 2]) as u32
}

/// The big-endian integer in `b[i]` .. `b[i + 3]`.
pub open spec fn be32_at(b: Seq<u8>, i: int) -> u32 {
    (b[i] * 0x1000000 + b[i + 1] * 0x10000 + b[i + 2] * 0x100 + b[i + 3]) as u32
}

/// The big-endian integer in `b[i]` .. `b[i + 7]`.
pub open spec fn be64_at(b: Seq<u8>, i: int) -> u64 {
    (be32_at(b, i) * 0x1_0000_0000 + be32_at(b, i + 4)) as u64
}

/// Reads the big-endian integer at `b[i]`, `b[i + 1]`.
pub fn read_be16(b: &[u8], i: usize) -> (r: u16)
    requires
        i + 2 <= b@.len(),
    ensures
        r == be16_at(b@, i as int),
{
    (b[i] as u16) * 0x100 + (b[i + 1] as u16)
}

/// Reads the big-endian integer at `b[i]` .. `b[i + 2]`.
pub fn read_be24(b: &[u8], i: usize) -> (r: u32)
    requires
        i + 3 <= b@.len(),
    ensures
        r == be24_at(b@, i as int),
{
    (b[i] as u32) * 0x10000 + (b[i + 1] as u32) * 0x100 + (b[i + 2] as u32)
}

/// Reads the big-endian integer at `b[i]` .. `b[i + 3]`.
pub fn read_be32(b: &[u8], i: usize) -> (r: u32)
    requires
        i + 4 <= b@.len(),
    ensures
        r == be32_at(b@, i as int),
{
    (b[i] as u32) * 0x1000000 + (b[i + 1] as u32) * 0x10000 + (b[i + 2] as u32) * 0x100 + (
    b[i + 3] as u32)
}

/// Reads the big-endian integer at `b[i]` .. `b[i + 7]`.
pub fn read_be64(b: &[u8], i: usize) -> (r: u64)
    requires
        i + 8 <= b@.len(),
    ensures
        r == be64_at(b@, i as int),
{
    // The slice's length is a usize, so `i + 4` cannot overflow.
    let _n = b.len();
    let hi = read_be32(b, i);
    let lo = read_be32(b, i + 4);
    (hi as u64) * 0x1_0000_0000 + (lo as u64)
}

/// A number written as two bytes reads back as itself.
pub proof fn lemma_be16(v: u16)
    ensures
        be16_bytes(v).len() == 2,
        be16_at(be16_bytes(v), 0) == v,
{
}

/// A number below 2^24 written as three bytes reads back as itself.
pub proof fn lemma_be24(v: u32)
    requires
        v < 0x100_0000,
    ensures
        be24_bytes(v).len() == 3,
        be24_at(be24_bytes(v), 0) == v,
{
}

/// A number written as four bytes reads back as itself.
pub proof fn lemma_be32(v: u32)
    ensures
        be32_bytes(v).len() == 4,
        be32_at(be32_bytes(v), 0) == v,
{
    let b = be32_bytes(v);
    assert(v / 0x1000000 < 0x100) by (bit_vector);
    assert(b[0] == v / 0x1000000 && b[1] == (v / 0x10000) % 0x100 && b[2] == (v / 0x100) % 0x100
        && b[3] == v % 0x100);
    assert((v / 0x1000000) * 0x1000000 + ((v / 0x10000) % 0x100) * 0x10000 + ((v / 0x100) % 0x100)
        * 0x100 + v % 0x100 == v) by (bit_vector);
}

/// A number written as eight bytes reads back as itself.
pub proof fn lemma_be64(v: u64)
    ensures
        be64_bytes(v).len() == 8,
        be64_at(be64_bytes(v), 0) == v,
{
    let hi = (v / 0x1_0000_0000) as u32;
    let lo = (v % 0x1_0000_0000) as u32;
    lemma_be32(hi);
    lemma_be32(lo);
    let b = be64_bytes(v);
    assert(b.subrange(0, 4) == be32_bytes(hi));
    assert(be32_at(b, 0) == be32_at(be32_bytes(hi), 0));
    assert(be32_at(b, 4) == be32_at(be32_bytes(lo), 0));
}


/// Two bytes read as a number and written back are the same two bytes.
pub proof fn lemma_be16_bytes(b: Seq<u8>, i: int)
    requires
        0 <= i && i + 2 <= b.len(),
    ensures
        be16_bytes(be16_at(b, i)) == b.subrange(i, i + 2),
{
    let x = b[i];
    let y = b[i + 1];
    assert(((x as u16) * 0x100 + y as u16) / 0x100 == x && ((x as u16) * 0x100 + y as u16) % 0x100
        == y) by (bit_vector);
    assert(be16_bytes(be16_at(b, i)) =~= b.subrange(i, i + 2));
}

/// Four bytes read as a number and written back are the same four bytes.
pub proof fn lemma_be32_bytes(b: Seq<u8>, i: int)
    requires
        0 <= i && i + 4 <= b.len(),
    ensures
        be32_bytes(be32_at(b, i)) == b.subrange(i, i + 4),
{
    let w = b[i];
    let x = b[i + 1];
    let y = b[i + 2];
    let z = b[i + 3];
    let v = be32_at(b, i);
    assert(v == (w as u32) * 0x1000000 + (x as u32) * 0x10000 + (y as u32) * 0x100 + z as u32);
    assert(v / 0x1000000 == w && (v / 0x10000) % 0x100 == x && (v / 0x100) % 0x100 == y && v
        % 0x100 == z) by (bit_vector)
        requires
            v == (w as u32) * 0x1000000 + (x as u32) * 0x10000 + (y as u32) * 0x100 + z as u32,
    ;
    assert(be32_bytes(v) =~= b.subrange(i, i + 4));
}

/// Eight bytes read as a number and written back are the same eight bytes.
pub proof fn lemma_be64_bytes(b: Seq<u8>, i: int)
    requires
        0 <= i && i + 8 <= b.len(),
    ensures
        be64_bytes(be64_at(b, i)) == b.subrange(i, i + 8),
{
    let hi = be32_at(b, i);
    let lo = be32_at(b, i + 4);
    let v = be64_at(b, i);
    assert(v == (hi as u64) * 0x1_0000_0000 + lo as u64);
    assert(v / 0x1_0000_0000 == hi && v % 0x1_0000_0000 == lo) by (bit_vector)
        requires
            v == (hi as u64) * 0x1_0000_0000 + lo as u64,
    ;
    lemma_be32_bytes(b, i);
    lemma_be32_bytes(b, i + 4);
    assert(be64_bytes(v) =~= b.subrange(i, i + 8));
}

/// Three bytes read as a number and written back are the same three bytes.
pub proof fn lemma_be24_bytes(b: Seq<u8>, i: int)
    requires
        0 <= i && i + 3 <= b.len(),
    ensures
        be24_bytes(be24_at(b, i)) == b.subrange(i, i + 3),
{
    let x = b[i];
    let y = b[i + 1];
    let z = b[i + 2];
    let v = be24_at(b, i);
    assert(v == (x as u32) * 0x10000 + (y as u32) * 0x100 + z as u32);
    assert((v / 0x10000) % 0x100 == x && (v / 0x100) % 0x100 == y && v % 0x100 == z) by (bit_vector)
        requires
            v == (x as u32) * 0x10000 + (y as u32) * 0x100 + z as u32,
    ;
    assert(be24_bytes(v) =~= b.subrange(i, i + 3));
}

/// A value with a wire image of its own: what `emit` appends to a buffer.
pub trait Emit {
    /// The bytes that `emit` appends.
    spec fn spec_wire(&self) -> Seq<u8>;

    fn emit(&self, buf: &mut BytesMut)
        requires
            bytes_of(*old(buf)).len() + self.spec_wire().len() <= isize::MAX,
        ensures
            bytes_of(*final(buf)) == bytes_of(*old(buf)) + self.spec_wire(),
    ;
}

/// A value that occupies a fixed number of bytes on the wire.
pub trait ParseBe: Sized + Emit {
    /// How many bytes one value occupies.
    spec fn wire_size() -> nat;

    /// The value that the first `wire_size()` bytes of `b` hold.
    spec fn spec_from_be(b: Seq<u8>) -> Self;

    /// Whether decoding can give this value (a tag in its one spelling).
    spec fn spec_canonical(&self) -> bool;

    proof fn lemma_wire_size()
        ensures
            1 <= Self::wire_size() <= 20,
    ;

    proof fn lemma_from_be(b: Seq<u8>)
        requires
            b.len() >= Self::wire_size(),
        ensures
            Self::spec_from_be(b) == Self::spec_from_be(b.subrange(0, Self::wire_size() as int)),
            Self::spec_from_be(b).spec_canonical(),
    ;

    proof fn lemma_round_trip(&self)
        requires
            self.spec_canonical(),
        ensures
            self.spec_wire().len() == Self::wire_size(),
            Self::spec_from_be(self.spec_wire()) == *self,
    ;

    /// Writing back a value that was read gives the bytes it was read from.
    proof fn lemma_wire_of_read(b: Seq<u8>)
        requires
            b.len() >= Self::wire_size(),
        ensures
            Self::spec_from_be(b).spec_wire() == b.subrange(0, Self::wire_size() as int),
    ;

    /// Reads one value from the front of `input`.
    fn parse_be(input: &[u8]) -> (r: Result<(&[u8], Self), DecodeError>)
        ensures
            input@.len() < Self::wire_size() ==> (r matches Err(e) && e == DecodeError::Truncated),
            input@.len() >= Self::wire_size() ==> (r matches Ok((rest, v)) && v
                == Self::spec_from_be(input@) && rest@ == input@.subrange(
                Self::wire_size() as int,
                input@.len() as int,
            )),
    ;
}

/// The wire images of `s`, one after the other.
pub open spec fn wires<T: Emit>(s: Seq<T>) -> Seq<u8> {
    s.map_values(|x: T| x.spec_wire()).flatten()
}

/// A region that holds nothing but values of `T`: its length must be a multiple
/// of the size of one.
pub open spec fn spec_many0<T: ParseBe>(b: Seq<u8>) -> Result<Seq<T>, DecodeError> {
    let k = T::wire_size();
    if b.len() % k == 0 {
        Ok(Seq::new(b.len() / k, |i: int| T::spec_from_be(b.subrange(i * k, b.len() as int))))
    } else {
        Err(DecodeError::Malformed)
    }
}

/// Reads values of `T` until `input` is used up; a value cut short at the end
/// is `Malformed`.
pub fn many0<'a, T: ParseBe>(input: &'a [u8]) -> (r: Result<(&'a [u8], Vec<T>), DecodeError>)
    ensures
        match r {
            Ok((rest, v)) => spec_many0::<T>(input@) == Ok::<Seq<T>, DecodeError>(v@) && rest@.len()
                == 0,
            Err(e) => spec_many0::<T>(input@) == Err::<Seq<T>, DecodeError>(e),
        },
{
    proof {
        T::lemma_wire_size();
    }
    let ghost k = T::wire_size() as int;
    let mut res: Vec<T> = Vec::new();
    let mut remaining = input;
    while remaining.len() > 0
        invariant
            k == T::wire_size(),
            1 <= k,
            remaining@.len() + res@.len() * k == input@.len(),
            remaining@ == input@.subrange(res@.len() * k, input@.len() as int),
            forall|i: int|
                0 <= i < res@.len() ==> #[trigger] res@[i] == T::spec_from_be(
                    input@.subrange(i * k, input@.len() as int),
                ),
        decreases remaining@.len(),
    {
        match T::parse_be(remaining) {
            Ok((rest, v)) => {
                proof {
                    lemma_mul_is_distributive_add_other_way(k, res@.len() as int, 1);
                }
                remaining = rest;
                res.push(v);
            },
            Err(_) => {
                proof {
                    lemma_fundamental_div_mod_converse(
                        input@.len() as int,
                        k,
                        res@.len() as int,
                        remaining@.len() as int,
                    );
                }
                return Err(DecodeError::Malformed);
            },
        }
    }
    proof {
        lemma_fundamental_div_mod_converse(input@.len() as int, k, res@.len() as int, 0);
        assert(res@ =~= Seq::new(
            input@.len() / k as nat,
            |i: int| T::spec_from_be(input@.subrange(i * k, input@.len() as int)),
        ));
    }
    Ok((remaining, res))
}

/// Appends the wire image of each item, in order.
pub fn emit_all<T: Emit>(items: &Vec<T>, buf: &mut BytesMut)
    requires
        bytes_of(*old(buf)).len() + wires(items@).len() <= isize::MAX,
    ensures
        bytes_of(*final(buf)) == bytes_of(*old(buf)) + wires(items@),
{
    let ghost start = bytes_of(*buf);
    let mut i: usize = 0;
    while i < items.len()
        invariant
            i <= items@.len(),
            start.len() + wires(items@).len() <= isize::MAX,
            bytes_of(*buf) == start + wires(items@.subrange(0, i as int)),
        decreases items@.len() - i,
    {
        proof {
            lemma_wires_push(items@.subrange(0, i as int), items@[i as int]);
            assert(items@.subrange(0, i as int).push(items@[i as int]) =~= items@.subrange(
                0,
                i + 1,
            ));
            lemma_wires_prefix(items@, i + 1);
        }
        items[i].emit(buf);
        i = i + 1;
    }
    proof {
        assert(items@.subrange(0, i as int) =~= items@);
    }
}

/// Appending a value appends its image.
pub proof fn lemma_wires_push<T: Emit>(s: Seq<T>, x: T)
    ensures
        wires(s.push(x)) == wires(s) + x.spec_wire(),
{
    let f = |y: T| y.spec_wire();
    assert(s.push(x).map_values(f) =~= s.map_values(f).push(x.spec_wire()));
    s.map_values(f).lemma_flatten_push(x.spec_wire());
}

/// The image of a non-empty sequence is that of its first value, then the rest.
pub proof fn lemma_wires_cons<T: Emit>(s: Seq<T>)
    requires
        s.len() > 0,
    ensures
        wires(s) == s[0].spec_wire() + wires(s.drop_first()),
{
    let f = |y: T| y.spec_wire();
    assert(s.map_values(f).drop_first() =~= s.drop_first().map_values(f));
}

/// A prefix of a sequence has no longer an image than the whole.
pub proof fn lemma_wires_prefix<T: Emit>(s: Seq<T>, n: int)
    requires
        0 <= n <= s.len(),
    ensures
        wires(s.subrange(0, n)).len() <= wires(s).len(),
    decreases s.len() - n,
{
    if n < s.len() {
        lemma_wires_prefix(s, n + 1);
        lemma_wires_push(s.subrange(0, n), s[n]);
        assert(s.subrange(0, n).push(s[n]) =~= s.subrange(0, n + 1));
    } else {
        assert(s.subrange(0, n) =~= s);
    }
}

/// Decoding the images of canonical values gives the values back.
#[verifier::spinoff_prover]
pub proof fn lemma_many0_round_trip<T: ParseBe>(s: Seq<T>)
    requires
        forall|i: int| 0 <= i < s.len() ==> #[trigger] s[i].spec_canonical(),
    ensures
        spec_many0::<T>(wires(s)) == Ok::<Seq<T>, DecodeError>(s),
    decreases s.len(),
{
    T::lemma_wire_size();
    let k = T::wire_size() as int;
    let w = wires(s);
    lemma_wires_len(s);
    lemma_mod_multiples_basic(s.len() as int, k);
    assert(w.len() as int / k == s.len() as int) by {
        lemma_fundamental_div_mod_converse(w.len() as int, k, s.len() as int, 0);
    }
    assert forall|i: int| 0 <= i < s.len() implies T::spec_from_be(
        #[trigger] w.subrange(i * k, w.len() as int),
    ) == s[i] by {
        lemma_wires_at(s, i);
    }
    assert(Seq::new(s.len(), |i: int| T::spec_from_be(w.subrange(i * k, w.len() as int))) =~= s);
}

/// Canonical values take `wire_size()` bytes each.
pub proof fn lemma_wires_len<T: ParseBe>(s: Seq<T>)
    requires
        forall|i: int| 0 <= i < s.len() ==> #[trigger] s[i].spec_canonical(),
    ensures
        wires(s).len() == s.len() * T::wire_size(),
    decreases s.len(),
{
    if s.len() > 0 {
        lemma_wires_cons(s);
        s[0].lemma_round_trip();
        lemma_wires_len(s.drop_first());
        lemma_mul_is_distributive_add_other_way(T::wire_size() as int, s.len() - 1, 1);
    } else {
        assert(s.map_values(|y: T| y.spec_wire()) =~= Seq::<Seq<u8>>::empty());
    }
}

/// The image of `s` from its `i`-th value on decodes to that value.
#[verifier::spinoff_prover]
pub proof fn lemma_wires_at<T: ParseBe>(s: Seq<T>, i: int)
    requires
        forall|j: int| 0 <= j < s.len() ==> #[trigger] s[j].spec_canonical(),
        0 <= i < s.len(),
    ensures
        T::spec_from_be(wires(s).subrange(i * T::wire_size(), wires(s).len() as int)) == s[i],
    decreases i,
{
    T::lemma_wire_size();
    let k = T::wire_size() as int;
    let w = wires(s);
    lemma_wires_cons(s);
    s[0].lemma_round_trip();
    let tail = s.drop_first();
    lemma_wires_len(tail);
    if i == 0 {
        T::lemma_from_be(w);
        assert(w.subrange(0, k) =~= s[0].spec_wire());
        assert(w.subrange(0, w.len() as int) =~= w);
    } else {
        lemma_wires_at(tail, i - 1);
        lemma_mul_is_distributive_add_other_way(k, i - 1, 1);
        lemma_mul_inequality(i - 1, tail.len() as int, k);
        assert(w.subrange(i * k, w.len() as int) =~= wires(tail).subrange(
            (i - 1) * k,
            wires(tail).len() as int,
        ));
    }
}


/// Writing back the values that a region decodes to gives the region.
#[verifier::spinoff_prover]
pub proof fn lemma_many0_exact<T: ParseBe>(b: Seq<u8>)
    requires
        spec_many0::<T>(b) is Ok,
    ensures
        wires(spec_many0::<T>(b)->Ok_0) == b,
    decreases b.len(),
{
    T::lemma_wire_size();
    let k = T::wire_size() as int;
    let s = spec_many0::<T>(b)->Ok_0;
    if b.len() == 0 {
        assert(s.map_values(|y: T| y.spec_wire()) =~= Seq::<Seq<u8>>::empty());
        assert(wires(s) =~= b);
    } else {
        let rest = b.subrange(k, b.len() as int);
        let n = b.len() as int / k;
        let blen = b.len() as int;
        assert(blen == n * k) by {
            vstd::arithmetic::div_mod::lemma_fundamental_div_mod(blen, k);
        }
        assert(n >= 1) by {
            if n <= 0 {
                lemma_mul_inequality(n, 0, k);
            }
        }
        lemma_mul_is_distributive_add_other_way(k, n - 1, 1);
        assert(rest.len() == (n - 1) * k);
        lemma_mod_multiples_basic(n - 1, k);
        lemma_fundamental_div_mod_converse(rest.len() as int, k, n - 1, 0);
        lemma_many0_exact::<T>(rest);
        let tail = spec_many0::<T>(rest)->Ok_0;
        assert forall|i: int| 0 <= i < tail.len() implies tail[i] == s.drop_first()[i] by {
            lemma_mul_is_distributive_add_other_way(k, i, 1);
            lemma_mul_inequality(i, n - 1, k);
            vstd::arithmetic::mul::lemma_mul_nonnegative(i, k);
            assert(rest.subrange(i * k, rest.len() as int) =~= b.subrange(
                (i + 1) * k,
                b.len() as int,
            ));
        }
        assert(tail =~= s.drop_first());
        lemma_wires_cons(s);
        T::lemma_wire_of_read(b);
        T::lemma_from_be(b);
        assert(b.subrange(0, b.len() as int) =~= b);
        assert(b =~= b.subrange(0, k) + rest);
    }
}

} // verus!
