//! Binary wire format of the engine's messages. Integers are little-endian;
//! a byte string is its length as four bytes followed by the bytes; a list is
//! its length as four bytes followed by its items; an optional value is a
//! byte 0 (absent) or 1 followed by the value; a variant is its tag byte
//! followed by its contents. Each decoder accepts exactly what its spec-level
//! parser accepts, and parsing an encoding gives back the value encoded.
use vstd::prelude::*;
use crate::messages::{opts_view, BroadcastVerificationMessage, Comm1, LocalSig3, SigningCommitment};
use crate::primitives::CeremonyId;
use crate::stages::{
    KeygenData, KeygenDataView, MultisigData, MultisigDataView, SigningData, SigningDataView,
};

verus! {

/// Little-endian bytes of a 32-bit integer.
pub open spec fn u32_bytes(x: u32) -> Seq<u8> {
    seq![
        (x & 0xff) as u8,
        ((x >> 8u32) & 0xff) as u8,
        ((x >> 16u32) & 0xff) as u8,
        ((x >> 24u32) & 0xff) as u8,
    ]
}

/// The 32-bit integer whose little-endian bytes start `b`.
pub open spec fn u32_of(b: Seq<u8>) -> u32 {
    (b[0] as u32) | ((b[1] as u32) << 8u32) | ((b[2] as u32) << 16u32) | ((b[3] as u32) << 24u32)
}

/// Little-endian bytes of a 64-bit integer.
pub open spec fn u64_bytes(x: u64) -> Seq<u8> {
    seq![
        (x & 0xff) as u8,
        ((x >> 8u64) & 0xff) as u8,
        ((x >> 16u64) & 0xff) as u8,
        ((x >> 24u64) & 0xff) as u8,
        ((x >> 32u64) & 0xff) as u8,
        ((x >> 40u64) & 0xff) as u8,
        ((x >> 48u64) & 0xff) as u8,
        ((x >> 56u64) & 0xff) as u8,
    ]
}

/// The 64-bit integer whose little-endian bytes start `b`.
pub open spec fn u64_of(b: Seq<u8>) -> u64 {
    (b[0] as u64) | ((b[1] as u64) << 8u64) | ((b[2] as u64) << 16u64) | ((b[3] as u64) << 24u64)
        | ((b[4] as u64) << 32u64) | ((b[5] as u64) << 40u64) | ((b[6] as u64) << 48u64) | ((
    b[7] as u64) << 56u64)
}

pub proof fn lemma_u32_round_trip(x: u32, rest: Seq<u8>)
    ensures
        u32_of(u32_bytes(x) + rest) == x,
{
    let b = u32_bytes(x) + rest;
    assert(b[0] == (x & 0xff) as u8 && b[1] == ((x >> 8u32) & 0xff) as u8 && b[2] == ((x
        >> 16u32) & 0xff) as u8 && b[3] == ((x >> 24u32) & 0xff) as u8);
    assert(((((x & 0xff) as u8) as u32) | (((((x >> 8u32) & 0xff) as u8) as u32) << 8u32) | ((
    (((x >> 16u32) & 0xff) as u8) as u32) << 16u32) | (((((x >> 24u32) & 0xff) as u8) as u32)
        << 24u32)) == x) by (bit_vector);
}

pub proof fn lemma_u64_round_trip(x: u64, rest: Seq<u8>)
    ensures
        u64_of(u64_bytes(x) + rest) == x,
{
    let b = u64_bytes(x) + rest;
    assert(b[0] == (x & 0xff) as u8 && b[1] == ((x >> 8u64) & 0xff) as u8 && b[2] == ((x
        >> 16u64) & 0xff) as u8 && b[3] == ((x >> 24u64) & 0xff) as u8 && b[4] == ((x >> 32u64)
        & 0xff) as u8 && b[5] == ((x >> 40u64) & 0xff) as u8 && b[6] == ((x >> 48u64) & 0xff) as u8
        && b[7] == ((x >> 56u64) & 0xff) as u8);
    assert(((((x & 0xff) as u8) as u64) | (((((x >> 8u64) & 0xff) as u8) as u64) << 8u64) | ((
    (((x >> 16u64) & 0xff) as u8) as u64) << 16u64) | (((((x >> 24u64) & 0xff) as u8) as u64)
        << 24u64) | (((((x >> 32u64) & 0xff) as u8) as u64) << 32u64) | (((((x >> 40u64) & 0xff)
        as u8) as u64) << 40u64) | (((((x >> 48u64) & 0xff) as u8) as u64) << 48u64) | (((((x
        >> 56u64) & 0xff) as u8) as u64) << 56u64)) == x) by (bit_vector);
}

/// Appends the bytes of `x`.
pub fn write_u32(out: &mut Vec<u8>, x: u32)
    ensures
        final(out)@ == old(out)@ + u32_bytes(x),
{
    out.push((x & 0xff) as u8);
    out.push(((x >> 8) & 0xff) as u8);
    out.push(((x >> 16) & 0xff) as u8);
    out.push(((x >> 24) & 0xff) as u8);
    assert(final(out)@ =~= old(out)@ + u32_bytes(x));
}

/// Appends the bytes of `x`.
pub fn write_u64(out: &mut Vec<u8>, x: u64)
    ensures
        final(out)@ == old(out)@ + u64_bytes(x),
{
    out.push((x & 0xff) as u8);
    out.push(((x >> 8) & 0xff) as u8);
    out.push(((x >> 16) & 0xff) as u8);
    out.push(((x >> 24) & 0xff) as u8);
    out.push(((x >> 32) & 0xff) as u8);
    out.push(((x >> 40) & 0xff) as u8);
    out.push(((x >> 48) & 0xff) as u8);
    out.push(((x >> 56) & 0xff) as u8);
    assert(final(out)@ =~= old(out)@ + u64_bytes(x));
}

/// Reads a 32-bit integer at `pos`, if four bytes remain.
pub fn read_u32(b: &Vec<u8>, pos: usize) -> (r: Option<u32>)
    requires
        pos <= b@.len(),
    ensures
        b@.len() - pos >= 4 ==> r == Some(u32_of(b@.skip(pos as int))),
        b@.len() - pos < 4 ==> r is None,
{
    if b.len() - pos < 4 {
        return None;
    }
    Some((b[pos] as u32) | ((b[pos + 1] as u32) << 8) | ((b[pos + 2] as u32) << 16) | ((b[pos
        + 3] as u32) << 24))
}

/// Reads a 64-bit integer at `pos`, if eight bytes remain.
pub fn read_u64(b: &Vec<u8>, pos: usize) -> (r: Option<u64>)
    requires
        pos <= b@.len(),
    ensures
        b@.len() - pos >= 8 ==> r == Some(u64_of(b@.skip(pos as int))),
        b@.len() - pos < 8 ==> r is None,
{
    if b.len() - pos < 8 {
        return None;
    }
    Some((b[pos] as u64) | ((b[pos + 1] as u64) << 8) | ((b[pos + 2] as u64) << 16) | ((b[pos
        + 3] as u64) << 24) | ((b[pos + 4] as u64) << 32) | ((b[pos + 5] as u64) << 40) | ((b[pos
        + 6] as u64) << 48) | ((b[pos + 7] as u64) << 56))
}

/// A value with a binary encoding and a parser that inverts it.
pub trait Codec: View + Sized {
    /// Values that fit the format: every length fits four bytes.
    spec fn encodable(v: Self::V) -> bool;

    spec fn enc(v: Self::V) -> Seq<u8>;

    /// The value at the start of `b` and the number of bytes it takes.
    spec fn parse(b: Seq<u8>) -> Option<(Self::V, nat)>;

    proof fn lemma_round_trip(v: Self::V, rest: Seq<u8>)
        requires
            Self::encodable(v),
        ensures
            Self::parse(Self::enc(v) + rest) == Some((v, Self::enc(v).len())),
    ;

    proof fn lemma_parse_within(b: Seq<u8>)
        ensures
            Self::parse(b) matches Some((v, c)) ==> c <= b.len(),
    ;

    fn is_encodable(&self) -> (r: bool)
        ensures
            r == Self::encodable(self@),
    ;

    fn encode_into(&self, out: &mut Vec<u8>)
        requires
            Self::encodable(self@),
        ensures
            final(out)@ == old(out)@ + Self::enc(self@),
    ;

    fn decode_at(b: &Vec<u8>, pos: usize) -> (r: Option<(Self, usize)>)
        requires
            pos <= b@.len(),
        ensures
            match Self::parse(b@.skip(pos as int)) {
                Some((v, c)) => r matches Some((x, p)) && x@ == v && p == pos + c,
                None => r is None,
            },
    ;
}

impl Codec for Vec<u8> {
    open spec fn encodable(v: Seq<u8>) -> bool {
        v.len() <= u32::MAX
    }

    open spec fn enc(v: Seq<u8>) -> Seq<u8> {
        u32_bytes(v.len() as u32) + v
    }

    open spec fn parse(b: Seq<u8>) -> Option<(Seq<u8>, nat)> {
        if b.len() >= 4 && b.len() - 4 >= u32_of(b) {
            Some((b.subrange(4, 4 + u32_of(b)), (4 + u32_of(b)) as nat))
        } else {
            None
        }
    }

    proof fn lemma_round_trip(v: Seq<u8>, rest: Seq<u8>) {
        let b = Self::enc(v) + rest;
        lemma_u32_round_trip(v.len() as u32, v + rest);
        assert(b =~= u32_bytes(v.len() as u32) + (v + rest));
        assert(b.subrange(4, 4 + v.len() as int) =~= v);
    }

    proof fn lemma_parse_within(b: Seq<u8>) {
    }

    fn is_encodable(&self) -> (r: bool) {
        self.len() <= u32::MAX as usize
    }

    fn encode_into(&self, out: &mut Vec<u8>) {
        write_u32(out, self.len() as u32);
        let mut i: usize = 0;
        let ghost start = out@;
        while i < self.len()
            invariant
                i <= self@.len(),
                out@ == start + self@.subrange(0, i as int),
            decreases self@.len() - i,
        {
            out.push(self[i]);
            i = i + 1;
            assert(out@ =~= start + self@.subrange(0, i as int));
        }
        assert(self@.subrange(0, self@.len() as int) =~= self@);
        assert(out@ =~= old(out)@ + Self::enc(self@));
    }

    fn decode_at(b: &Vec<u8>, pos: usize) -> (r: Option<(Self, usize)>) {
        let ghost s = b@.skip(pos as int);
        let n = match read_u32(b, pos) {
            Some(n) => n,
            None => return None,
        };
        assert(u32_of(s) == n);
        if b.len() - pos - 4 < n as usize {
            return None;
        }
        let mut v: Vec<u8> = Vec::new();
        let mut i: usize = 0;
        let start = pos + 4;
        let blen = b.len();
        while i < n as usize
            invariant
                blen == b@.len(),
                start == pos + 4,
                start + n <= b@.len(),
                i <= n,
                v@ == b@.subrange(start as int, start + i),
            decreases n - i,
        {
            v.push(b[start + i]);
            i = i + 1;
            assert(v@ =~= b@.subrange(start as int, start + i));
        }
        assert(v@ =~= s.subrange(4, 4 + n));
        Some((v, start + n as usize))
    }
}

/// Encoding of the items of a list, one after another.
pub open spec fn enc_items<V>(s: Seq<V>, item: spec_fn(V) -> Seq<u8>) -> Seq<u8>
    decreases s.len(),
{
    if s.len() == 0 {
        Seq::empty()
    } else {
        item(s[0]) + enc_items(s.skip(1), item)
    }
}

/// Parses `count` items one after another.
pub open spec fn parse_items<V>(
    b: Seq<u8>,
    count: nat,
    item: spec_fn(Seq<u8>) -> Option<(V, nat)>,
) -> Option<(Seq<V>, nat)>
    decreases count,
{
    if count == 0 {
        Some((Seq::empty(), 0))
    } else {
        match item(b) {
            Some((v, c)) => if c <= b.len() {
                match parse_items(b.skip(c as int), (count - 1) as nat, item) {
                    Some((vs, c2)) => Some((seq![v] + vs, c + c2)),
                    None => None,
                }
            } else {
                None
            },
            None => None,
        }
    }
}

/// A list: its length, then its items.
pub open spec fn enc_list<V>(s: Seq<V>, item: spec_fn(V) -> Seq<u8>) -> Seq<u8> {
    u32_bytes(s.len() as u32) + enc_items(s, item)
}

pub open spec fn parse_list<V>(b: Seq<u8>, item: spec_fn(Seq<u8>) -> Option<(V, nat)>) -> Option<
    (Seq<V>, nat),
> {
    if b.len() >= 4 {
        match parse_items(b.skip(4), u32_of(b) as nat, item) {
            Some((vs, c)) => Some((vs, c + 4)),
            None => None,
        }
    } else {
        None
    }
}

pub proof fn lemma_items_round_trip<V>(
    s: Seq<V>,
    enc: spec_fn(V) -> Seq<u8>,
    parse: spec_fn(Seq<u8>) -> Option<(V, nat)>,
    ok: spec_fn(V) -> bool,
    rest: Seq<u8>,
)
    requires
        forall|v: V, r: Seq<u8>| #[trigger] ok(v) ==> #[trigger] parse(enc(v) + r) == Some((v, enc(v).len())),
        forall|i: int| 0 <= i < s.len() ==> #[trigger] ok(s[i]),
    ensures
        parse_items(enc_items(s, enc) + rest, s.len(), parse) == Some((s, enc_items(s, enc).len())),
    decreases s.len(),
{
    if s.len() > 0 {
        let tail = s.skip(1);
        assert forall|i: int| 0 <= i < tail.len() implies #[trigger] ok(tail[i]) by {
            assert(ok(s[i + 1]));
        }
        lemma_items_round_trip(tail, enc, parse, ok, rest);
        let b = enc_items(s, enc) + rest;
        assert(ok(s[0]));
        assert(b =~= enc(s[0]) + (enc_items(tail, enc) + rest));
        assert(parse(enc(s[0]) + (enc_items(tail, enc) + rest)) == Some((s[0], enc(s[0]).len())));
        assert(b.skip(enc(s[0]).len() as int) =~= enc_items(tail, enc) + rest);
        assert(seq![s[0]] + tail =~= s);
    }
}

pub proof fn lemma_list_round_trip<V>(
    s: Seq<V>,
    enc: spec_fn(V) -> Seq<u8>,
    parse: spec_fn(Seq<u8>) -> Option<(V, nat)>,
    ok: spec_fn(V) -> bool,
    rest: Seq<u8>,
)
    requires
        s.len() <= u32::MAX,
        forall|v: V, r: Seq<u8>| #[trigger] ok(v) ==> #[trigger] parse(enc(v) + r) == Some((v, enc(v).len())),
        forall|i: int| 0 <= i < s.len() ==> #[trigger] ok(s[i]),
    ensures
        parse_list(enc_list(s, enc) + rest, parse) == Some((s, enc_list(s, enc).len())),
{
    let b = enc_list(s, enc) + rest;
    lemma_items_round_trip(s, enc, parse, ok, rest);
    lemma_u32_round_trip(s.len() as u32, enc_items(s, enc) + rest);
    assert(b =~= u32_bytes(s.len() as u32) + (enc_items(s, enc) + rest));
    assert(b.skip(4) =~= enc_items(s, enc) + rest);
}

pub proof fn lemma_items_within<V>(b: Seq<u8>, count: nat, parse: spec_fn(Seq<u8>) -> Option<(V, nat)>)
    ensures
        parse_items(b, count, parse) matches Some((vs, c)) ==> c <= b.len() && vs.len() == count,
    decreases count,
{
    if count > 0 {
        if let Some((v, c)) = parse(b) {
            if c <= b.len() {
                lemma_items_within(b.skip(c as int), (count - 1) as nat, parse);
            }
        }
    }
}

/// The parser of `T`, as a function value.
pub open spec fn parser_of<T: Codec>() -> spec_fn(Seq<u8>) -> Option<(T::V, nat)> {
    |x: Seq<u8>| T::parse(x)
}

/// The encoder of `T`, as a function value.
pub open spec fn encoder_of<T: Codec>() -> spec_fn(T::V) -> Seq<u8> {
    |v: T::V| T::enc(v)
}

/// Views of the items of a list.
pub open spec fn views<T: View>(s: Seq<T>) -> Seq<T::V> {
    s.map_values(|x: T| x@)
}

/// Encodes a list of values.
pub fn encode_list<T: Codec>(items: &Vec<T>, out: &mut Vec<u8>)
    requires
        items@.len() <= u32::MAX,
        forall|i: int| 0 <= i < items@.len() ==> T::encodable(#[trigger] items@[i]@),
    ensures
        final(out)@ == old(out)@ + enc_list(views(items@), encoder_of::<T>()),
{
    let ghost f = encoder_of::<T>();
    write_u32(out, items.len() as u32);
    let ghost start = out@;
    let mut i: usize = 0;
    assert(views(items@).skip(0) =~= views(items@));
    while i < items.len()
        invariant
            f == encoder_of::<T>(),
            i <= items@.len(),
            forall|k: int| 0 <= k < items@.len() ==> T::encodable(#[trigger] items@[k]@),
            start + enc_items(views(items@), f) == out@ + enc_items(views(items@).skip(i as int), f),
        decreases items@.len() - i,
    {
        let ghost tail = views(items@).skip(i as int);
        let ghost out0 = out@;
        assert(tail[0] == items@[i as int]@);
        assert(tail.skip(1) =~= views(items@).skip(i + 1));
        items[i].encode_into(out);
        proof {
            assert(enc_items(tail, f) == f(tail[0]) + enc_items(tail.skip(1), f));
            assert(out0 + enc_items(tail, f) =~= out@ + enc_items(tail.skip(1), f));
        }
        i = i + 1;
    }
    assert(views(items@).skip(i as int) =~= Seq::<T::V>::empty());
    assert(enc_items(Seq::<T::V>::empty(), f) =~= Seq::<u8>::empty());
    assert(views(items@).skip(0) =~= views(items@));
}

/// Decodes a list of values at `pos`.
pub fn decode_list<T: Codec>(b: &Vec<u8>, pos: usize) -> (r: Option<(Vec<T>, usize)>)
    requires
        pos <= b@.len(),
    ensures
        match parse_list(b@.skip(pos as int), parser_of::<T>()) {
            Some((vs, c)) => r matches Some((xs, p)) && views(xs@) == vs && p == pos + c,
            None => r is None,
        },
{
    let ghost f = parser_of::<T>();
    let ghost s = b@.skip(pos as int);
    let blen = b.len();
    let n = match read_u32(b, pos) {
        Some(n) => n,
        None => return None,
    };
    let mut items: Vec<T> = Vec::new();
    let mut p: usize = pos + 4;
    let mut i: u32 = 0;
    assert(b@.skip(p as int) =~= s.skip(4));
    while i < n
        invariant
            pos + 4 <= p <= b@.len(),
            i <= n,
            f == parser_of::<T>(),
            blen == b@.len(),
            s.len() >= 4,
            u32_of(s) == n,
            parse_items(s.skip(4), n as nat, f) == match parse_items(b@.skip(p as int), (n - i) as nat, f) {
                Some((vs, c)) => Some((views(items@) + vs, ((p - pos - 4) + c) as nat)),
                None => None,
            },
            s == b@.skip(pos as int),
        decreases n - i,
    {
        let ghost rem = b@.skip(p as int);
        proof {
            T::lemma_parse_within(rem);
        }
        match T::decode_at(b, p) {
            Some((x, q)) => {
                proof {
                    assert(rem.skip(q - p) =~= b@.skip(q as int));
                    let ghost old_items = views(items@);
                    assert(views(items@.push(x)) =~= old_items.push(x@));
                    match parse_items(b@.skip(q as int), (n - i - 1) as nat, f) {
                        Some((vs, c)) => {
                            assert(old_items + (seq![x@] + vs) =~= old_items.push(x@) + vs);
                        },
                        None => {},
                    }
                }
                items.push(x);
                p = q;
            },
            None => {
                assert(f(rem) is None);
                assert(parse_items(rem, (n - i) as nat, f) is None);
                assert(parse_items(s.skip(4), n as nat, f) is None);
                assert(u32_of(s) == n);
                assert(parse_list(s, f) is None);
                return None;
            },
        }
        i = i + 1;
    }
    assert(views(items@) + Seq::<T::V>::empty() =~= views(items@));
    Some((items, p))
}

/// An optional value: a byte 0, or a byte 1 and the value.
pub open spec fn enc_opt<T: Codec>(o: Option<T::V>) -> Seq<u8> {
    match o {
        Some(v) => seq![1u8] + T::enc(v),
        None => seq![0u8],
    }
}

pub open spec fn parse_opt<T: Codec>(b: Seq<u8>) -> Option<(Option<T::V>, nat)> {
    if b.len() >= 1 && b[0] == 0 {
        Some((None, 1))
    } else if b.len() >= 1 && b[0] == 1 {
        match T::parse(b.skip(1)) {
            Some((v, c)) => Some((Some(v), c + 1)),
            None => None,
        }
    } else {
        None
    }
}

pub open spec fn opt_encodable<T: Codec>(o: Option<T::V>) -> bool {
    match o {
        Some(v) => T::encodable(v),
        None => true,
    }
}

pub open spec fn opt_parser_of<T: Codec>() -> spec_fn(Seq<u8>) -> Option<(Option<T::V>, nat)> {
    |x: Seq<u8>| parse_opt::<T>(x)
}

pub open spec fn opt_encoder_of<T: Codec>() -> spec_fn(Option<T::V>) -> Seq<u8> {
    |o: Option<T::V>| enc_opt::<T>(o)
}

pub open spec fn opt_encodable_of<T: Codec>() -> spec_fn(Option<T::V>) -> bool {
    |o: Option<T::V>| opt_encodable::<T>(o)
}

pub open spec fn encodable_of<T: Codec>() -> spec_fn(T::V) -> bool {
    |v: T::V| T::encodable(v)
}

pub proof fn lemma_opt_round_trip<T: Codec>(o: Option<T::V>, rest: Seq<u8>)
    requires
        opt_encodable::<T>(o),
    ensures
        parse_opt::<T>(enc_opt::<T>(o) + rest) == Some((o, enc_opt::<T>(o).len())),
{
    if let Some(v) = o {
        T::lemma_round_trip(v, rest);
        assert((enc_opt::<T>(o) + rest).skip(1) =~= T::enc(v) + rest);
    }
}

pub proof fn lemma_opt_within<T: Codec>(b: Seq<u8>)
    ensures
        parse_opt::<T>(b) matches Some((v, c)) ==> c <= b.len(),
{
    if b.len() >= 1 {
        T::lemma_parse_within(b.skip(1));
    }
}

/// Encodes an optional value.
pub fn encode_opt<T: Codec>(o: &Option<T>, out: &mut Vec<u8>)
    requires
        opt_encodable::<T>(crate::messages::opt_view(*o)),
    ensures
        final(out)@ == old(out)@ + enc_opt::<T>(crate::messages::opt_view(*o)),
{
    match o {
        Some(v) => {
            out.push(1u8);
            let ghost mid = out@;
            v.encode_into(out);
            assert(final(out)@ =~= old(out)@ + enc_opt::<T>(crate::messages::opt_view(*o)));
        },
        None => {
            out.push(0u8);
            assert(final(out)@ =~= old(out)@ + enc_opt::<T>(crate::messages::opt_view(*o)));
        },
    }
}

/// Decodes an optional value at `pos`.
pub fn decode_opt<T: Codec>(b: &Vec<u8>, pos: usize) -> (r: Option<(Option<T>, usize)>)
    requires
        pos <= b@.len(),
    ensures
        match parse_opt::<T>(b@.skip(pos as int)) {
            Some((v, c)) => r matches Some((x, p)) && crate::messages::opt_view(x) == v && p == pos + c,
            None => r is None,
        },
{
    let ghost s = b@.skip(pos as int);
    if pos >= b.len() {
        return None;
    }
    let tag = b[pos];
    assert(s[0] == tag);
    if tag == 0 {
        Some((None, pos + 1))
    } else if tag == 1 {
        assert(b@.skip(pos + 1) =~= s.skip(1));
        match T::decode_at(b, pos + 1) {
            Some((v, p)) => Some((Some(v), p)),
            None => None,
        }
    } else {
        None
    }
}

impl<T: Codec> Codec for BroadcastVerificationMessage<T> {
    open spec fn encodable(v: Seq<Option<T::V>>) -> bool {
        &&& v.len() <= u32::MAX
        &&& forall|i: int| 0 <= i < v.len() ==> opt_encodable::<T>(#[trigger] v[i])
    }

    open spec fn enc(v: Seq<Option<T::V>>) -> Seq<u8> {
        enc_list(v, opt_encoder_of::<T>())
    }

    open spec fn parse(b: Seq<u8>) -> Option<(Seq<Option<T::V>>, nat)> {
        parse_list(b, opt_parser_of::<T>())
    }

    proof fn lemma_round_trip(v: Seq<Option<T::V>>, rest: Seq<u8>) {
        let ok = opt_encodable_of::<T>();
        assert forall|o: Option<T::V>, r: Seq<u8>| #[trigger] ok(o) implies #[trigger] opt_parser_of::<
            T,
        >()(opt_encoder_of::<T>()(o) + r) == Some((o, opt_encoder_of::<T>()(o).len())) by {
            lemma_opt_round_trip::<T>(o, r);
        }
        assert forall|i: int| 0 <= i < v.len() implies #[trigger] ok(v[i]) by {
            assert(opt_encodable::<T>(v[i]));
        }
        lemma_list_round_trip(v, opt_encoder_of::<T>(), opt_parser_of::<T>(), ok, rest);
    }

    proof fn lemma_parse_within(b: Seq<u8>) {
        if b.len() >= 4 {
            lemma_items_within(b.skip(4), u32_of(b) as nat, opt_parser_of::<T>());
        }
    }

    fn is_encodable(&self) -> (r: bool) {
        if self.data.len() > u32::MAX as usize {
            return false;
        }
        let mut i: usize = 0;
        while i < self.data.len()
            invariant
                i <= self.data@.len(),
                forall|k: int| 0 <= k < i ==> opt_encodable::<T>(#[trigger] self@[k]),
            decreases self.data@.len() - i,
        {
            assert(self@[i as int] == crate::messages::opt_view(self.data@[i as int]));
            match &self.data[i] {
                Some(v) => {
                    if !v.is_encodable() {
                        return false;
                    }
                },
                None => {},
            }
            i = i + 1;
        }
        true
    }

    fn encode_into(&self, out: &mut Vec<u8>) {
        let ghost f = opt_encoder_of::<T>();
        let ghost vs = self@;
        write_u32(out, self.data.len() as u32);
        let ghost start = out@;
        let mut i: usize = 0;
        assert(vs.skip(0) =~= vs);
        while i < self.data.len()
            invariant
                f == opt_encoder_of::<T>(),
                vs == self@,
                vs.len() == self.data@.len(),
                i <= self.data@.len(),
                Self::encodable(vs),
                start + enc_items(vs, f) == out@ + enc_items(vs.skip(i as int), f),
            decreases self.data@.len() - i,
        {
            let ghost tail = vs.skip(i as int);
            let ghost out0 = out@;
            assert(tail[0] == crate::messages::opt_view(self.data@[i as int]));
            assert(opt_encodable::<T>(vs[i as int]));
            assert(tail.skip(1) =~= vs.skip(i + 1));
            encode_opt(&self.data[i], out);
            proof {
                assert(enc_items(tail, f) == f(tail[0]) + enc_items(tail.skip(1), f));
                assert(out0 + enc_items(tail, f) =~= out@ + enc_items(tail.skip(1), f));
            }
            i = i + 1;
        }
        assert(vs.skip(i as int) =~= Seq::<Option<T::V>>::empty());
        assert(enc_items(Seq::<Option<T::V>>::empty(), f) =~= Seq::<u8>::empty());
    }

    fn decode_at(b: &Vec<u8>, pos: usize) -> (r: Option<(Self, usize)>) {
        let ghost f = opt_parser_of::<T>();
        let ghost s = b@.skip(pos as int);
        let blen = b.len();
        let n = match read_u32(b, pos) {
            Some(n) => n,
            None => return None,
        };
        let mut items: Vec<Option<T>> = Vec::new();
        let mut p: usize = pos + 4;
        let mut i: u32 = 0;
        assert(b@.skip(p as int) =~= s.skip(4));
        while i < n
            invariant
                pos + 4 <= p <= b@.len(),
                i <= n,
                f == opt_parser_of::<T>(),
                blen == b@.len(),
                s.len() >= 4,
                u32_of(s) == n,
                parse_items(s.skip(4), n as nat, f) == match parse_items(
                    b@.skip(p as int),
                    (n - i) as nat,
                    f,
                ) {
                    Some((vs, c)) => Some((opts_view(items@) + vs, ((p - pos - 4) + c) as nat)),
                    None => None,
                },
                s == b@.skip(pos as int),
            decreases n - i,
        {
            let ghost rem = b@.skip(p as int);
            proof {
                lemma_opt_within::<T>(rem);
            }
            match decode_opt::<T>(b, p) {
                Some((x, q)) => {
                    proof {
                        assert(rem.skip(q - p) =~= b@.skip(q as int));
                        let ghost old_items = opts_view(items@);
                        assert(opts_view(items@.push(x)) =~= old_items.push(
                            crate::messages::opt_view(x),
                        ));
                        match parse_items(b@.skip(q as int), (n - i - 1) as nat, f) {
                            Some((vs, c)) => {
                                assert(old_items + (seq![crate::messages::opt_view(x)] + vs)
                                    =~= old_items.push(crate::messages::opt_view(x)) + vs);
                            },
                            None => {},
                        }
                    }
                    items.push(x);
                    p = q;
                },
                None => {
                    assert(f(rem) is None);
                    assert(parse_items(rem, (n - i) as nat, f) is None);
                    assert(parse_items(s.skip(4), n as nat, f) is None);
                    return None;
                },
            }
            i = i + 1;
        }
        assert(opts_view(items@) + Seq::<Option<T::V>>::empty() =~= opts_view(items@));
        Some((BroadcastVerificationMessage { data: items }, p))
    }
}

impl Codec for SigningCommitment {
    open spec fn encodable(v: (Seq<u8>, Seq<u8>)) -> bool {
        v.0.len() <= u32::MAX && v.1.len() <= u32::MAX
    }

    open spec fn enc(v: (Seq<u8>, Seq<u8>)) -> Seq<u8> {
        Vec::<u8>::enc(v.0) + Vec::<u8>::enc(v.1)
    }

    open spec fn parse(b: Seq<u8>) -> Option<((Seq<u8>, Seq<u8>), nat)> {
        match Vec::<u8>::parse(b) {
            Some((d, c1)) => match Vec::<u8>::parse(b.skip(c1 as int)) {
                Some((e, c2)) => Some(((d, e), c1 + c2)),
                None => None,
            },
            None => None,
        }
    }

    proof fn lemma_round_trip(v: (Seq<u8>, Seq<u8>), rest: Seq<u8>) {
        let b = Self::enc(v) + rest;
        assert(b =~= Vec::<u8>::enc(v.0) + (Vec::<u8>::enc(v.1) + rest));
        Vec::<u8>::lemma_round_trip(v.0, Vec::<u8>::enc(v.1) + rest);
        assert(b.skip(Vec::<u8>::enc(v.0).len() as int) =~= Vec::<u8>::enc(v.1) + rest);
        Vec::<u8>::lemma_round_trip(v.1, rest);
    }

    proof fn lemma_parse_within(b: Seq<u8>) {
    }

    fn is_encodable(&self) -> (r: bool) {
        self.d.is_encodable() && self.e.is_encodable()
    }

    fn encode_into(&self, out: &mut Vec<u8>) {
        self.d.encode_into(out);
        self.e.encode_into(out);
        assert(final(out)@ =~= old(out)@ + Self::enc(self@));
    }

    fn decode_at(b: &Vec<u8>, pos: usize) -> (r: Option<(Self, usize)>) {
        let ghost s = b@.skip(pos as int);
        match Vec::<u8>::decode_at(b, pos) {
            Some((d, p)) => {
                assert(b@.skip(p as int) =~= s.skip(p - pos));
                match Vec::<u8>::decode_at(b, p) {
                    Some((e, q)) => Some((SigningCommitment { d, e }, q)),
                    None => None,
                }
            },
            None => None,
        }
    }
}

impl Codec for Comm1 {
    open spec fn encodable(v: Seq<(Seq<u8>, Seq<u8>)>) -> bool {
        &&& v.len() <= u32::MAX
        &&& forall|i: int| 0 <= i < v.len() ==> SigningCommitment::encodable(#[trigger] v[i])
    }

    open spec fn enc(v: Seq<(Seq<u8>, Seq<u8>)>) -> Seq<u8> {
        enc_list(v, encoder_of::<SigningCommitment>())
    }

    open spec fn parse(b: Seq<u8>) -> Option<(Seq<(Seq<u8>, Seq<u8>)>, nat)> {
        parse_list(b, parser_of::<SigningCommitment>())
    }

    proof fn lemma_round_trip(v: Seq<(Seq<u8>, Seq<u8>)>, rest: Seq<u8>) {
        let ok = encodable_of::<SigningCommitment>();
        assert forall|x: (Seq<u8>, Seq<u8>), r: Seq<u8>| #[trigger] ok(x) implies #[trigger] parser_of::<
            SigningCommitment,
        >()(encoder_of::<SigningCommitment>()(x) + r) == Some(
            (x, encoder_of::<SigningCommitment>()(x).len()),
        ) by {
            SigningCommitment::lemma_round_trip(x, r);
        }
        assert forall|i: int| 0 <= i < v.len() implies #[trigger] ok(v[i]) by {
            assert(SigningCommitment::encodable(v[i]));
        }
        lemma_list_round_trip(v, encoder_of::<SigningCommitment>(), parser_of::<SigningCommitment>(), ok, rest);
    }

    proof fn lemma_parse_within(b: Seq<u8>) {
        if b.len() >= 4 {
            lemma_items_within(b.skip(4), u32_of(b) as nat, parser_of::<SigningCommitment>());
        }
    }

    fn is_encodable(&self) -> (r: bool) {
        if self.0.len() > u32::MAX as usize {
            return false;
        }
        let mut i: usize = 0;
        while i < self.0.len()
            invariant
                i <= self.0@.len(),
                forall|k: int| 0 <= k < i ==> SigningCommitment::encodable(#[trigger] self@[k]),
            decreases self.0@.len() - i,
        {
            assert(self@[i as int] == self.0@[i as int]@);
            if !self.0[i].is_encodable() {
                return false;
            }
            i = i + 1;
        }
        true
    }

    fn encode_into(&self, out: &mut Vec<u8>) {
        assert(views(self.0@) =~= self@);
        assert forall|i: int| 0 <= i < self.0@.len() implies SigningCommitment::encodable(
            #[trigger] self.0@[i]@,
        ) by {
            assert(self@[i] == self.0@[i]@);
        }
        encode_list(&self.0, out);
    }

    fn decode_at(b: &Vec<u8>, pos: usize) -> (r: Option<(Self, usize)>) {
        match decode_list::<SigningCommitment>(b, pos) {
            Some((items, p)) => {
                let r = Comm1(items);
                assert(views(r.0@) =~= r@);
                Some((r, p))
            },
            None => None,
        }
    }
}

impl Codec for LocalSig3 {
    open spec fn encodable(v: Seq<Seq<u8>>) -> bool {
        &&& v.len() <= u32::MAX
        &&& forall|i: int| 0 <= i < v.len() ==> (#[trigger] v[i]).len() <= u32::MAX
    }

    open spec fn enc(v: Seq<Seq<u8>>) -> Seq<u8> {
        enc_list(v, encoder_of::<Vec<u8>>())
    }

    open spec fn parse(b: Seq<u8>) -> Option<(Seq<Seq<u8>>, nat)> {
        parse_list(b, parser_of::<Vec<u8>>())
    }

    proof fn lemma_round_trip(v: Seq<Seq<u8>>, rest: Seq<u8>) {
        let ok = encodable_of::<Vec<u8>>();
        assert forall|x: Seq<u8>, r: Seq<u8>| #[trigger] ok(x) implies #[trigger] parser_of::<Vec<u8>>()(
            encoder_of::<Vec<u8>>()(x) + r,
        ) == Some((x, encoder_of::<Vec<u8>>()(x).len())) by {
            Vec::<u8>::lemma_round_trip(x, r);
        }
        assert forall|i: int| 0 <= i < v.len() implies #[trigger] ok(v[i]) by {
            assert(v[i].len() <= u32::MAX);
        }
        lemma_list_round_trip(v, encoder_of::<Vec<u8>>(), parser_of::<Vec<u8>>(), ok, rest);
    }

    proof fn lemma_parse_within(b: Seq<u8>) {
        if b.len() >= 4 {
            lemma_items_within(b.skip(4), u32_of(b) as nat, parser_of::<Vec<u8>>());
        }
    }

    fn is_encodable(&self) -> (r: bool) {
        if self.responses.len() > u32::MAX as usize {
            return false;
        }
        let mut i: usize = 0;
        while i < self.responses.len()
            invariant
                i <= self.responses@.len(),
                forall|k: int| 0 <= k < i ==> (#[trigger] self@[k]).len() <= u32::MAX,
            decreases self.responses@.len() - i,
        {
            assert(self@[i as int] == self.responses@[i as int]@);
            if self.responses[i].len() > u32::MAX as usize {
                return false;
            }
            i = i + 1;
        }
        true
    }

    fn encode_into(&self, out: &mut Vec<u8>) {
        assert(views(self.responses@) =~= self@);
        assert forall|i: int| 0 <= i < self.responses@.len() implies Vec::<u8>::encodable(
            #[trigger] self.responses@[i]@,
        ) by {
            assert(self@[i] == self.responses@[i]@);
        }
        encode_list(&self.responses, out);
    }

    fn decode_at(b: &Vec<u8>, pos: usize) -> (r: Option<(Self, usize)>) {
        match decode_list::<Vec<u8>>(b, pos) {
            Some((items, p)) => {
                let r = LocalSig3 { responses: items };
                assert(views(r.responses@) =~= r@);
                Some((r, p))
            },
            None => None,
        }
    }
}

/// A tag byte followed by contents.
pub open spec fn tagged(tag: u8, body: Seq<u8>) -> Seq<u8> {
    seq![tag] + body
}

pub proof fn lemma_tagged_skip(tag: u8, body: Seq<u8>, rest: Seq<u8>)
    ensures
        (tagged(tag, body) + rest)[0] == tag,
        (tagged(tag, body) + rest).skip(1) == body + rest,
        (tagged(tag, body) + rest).len() >= 1,
{
    assert((tagged(tag, body) + rest).skip(1) =~= body + rest);
}

/// Reads the tag byte at `pos`, if any byte remains.
pub fn read_tag(b: &Vec<u8>, pos: usize) -> (r: Option<u8>)
    requires
        pos <= b@.len(),
    ensures
        b@.len() > pos ==> r == Some(b@.skip(pos as int)[0]),
        b@.len() <= pos ==> r is None,
{
    if pos < b.len() {
        Some(b[pos])
    } else {
        None
    }
}

impl Codec for SigningData {
    open spec fn encodable(v: SigningDataView) -> bool {
        match v {
            SigningDataView::CommStage1(m) => Comm1::encodable(m),
            SigningDataView::BroadcastVerificationStage2(m) => BroadcastVerificationMessage::<
                Comm1,
            >::encodable(m),
            SigningDataView::LocalSigStage3(m) => LocalSig3::encodable(m),
            SigningDataView::VerifyLocalSigsStage4(m) => BroadcastVerificationMessage::<
                LocalSig3,
            >::encodable(m),
        }
    }

    open spec fn enc(v: SigningDataView) -> Seq<u8> {
        match v {
            SigningDataView::CommStage1(m) => tagged(0, Comm1::enc(m)),
            SigningDataView::BroadcastVerificationStage2(m) => tagged(
                1,
                BroadcastVerificationMessage::<Comm1>::enc(m),
            ),
            SigningDataView::LocalSigStage3(m) => tagged(2, LocalSig3::enc(m)),
            SigningDataView::VerifyLocalSigsStage4(m) => tagged(
                3,
                BroadcastVerificationMessage::<LocalSig3>::enc(m),
            ),
        }
    }

    open spec fn parse(b: Seq<u8>) -> Option<(SigningDataView, nat)> {
        if b.len() == 0 {
            None
        } else if b[0] == 0 {
            match Comm1::parse(b.skip(1)) {
                Some((m, c)) => Some((SigningDataView::CommStage1(m), c + 1)),
                None => None,
            }
        } else if b[0] == 1 {
            match BroadcastVerificationMessage::<Comm1>::parse(b.skip(1)) {
                Some((m, c)) => Some((SigningDataView::BroadcastVerificationStage2(m), c + 1)),
                None => None,
            }
        } else if b[0] == 2 {
            match LocalSig3::parse(b.skip(1)) {
                Some((m, c)) => Some((SigningDataView::LocalSigStage3(m), c + 1)),
                None => None,
            }
        } else if b[0] == 3 {
            match BroadcastVerificationMessage::<LocalSig3>::parse(b.skip(1)) {
                Some((m, c)) => Some((SigningDataView::VerifyLocalSigsStage4(m), c + 1)),
                None => None,
            }
        } else {
            None
        }
    }

    proof fn lemma_round_trip(v: SigningDataView, rest: Seq<u8>) {
        match v {
            SigningDataView::CommStage1(m) => {
                lemma_tagged_skip(0, Comm1::enc(m), rest);
                Comm1::lemma_round_trip(m, rest);
            },
            SigningDataView::BroadcastVerificationStage2(m) => {
                lemma_tagged_skip(1, BroadcastVerificationMessage::<Comm1>::enc(m), rest);
                BroadcastVerificationMessage::<Comm1>::lemma_round_trip(m, rest);
            },
            SigningDataView::LocalSigStage3(m) => {
                lemma_tagged_skip(2, LocalSig3::enc(m), rest);
                LocalSig3::lemma_round_trip(m, rest);
            },
            SigningDataView::VerifyLocalSigsStage4(m) => {
                lemma_tagged_skip(3, BroadcastVerificationMessage::<LocalSig3>::enc(m), rest);
                BroadcastVerificationMessage::<LocalSig3>::lemma_round_trip(m, rest);
            },
        }
    }

    proof fn lemma_parse_within(b: Seq<u8>) {
        if b.len() > 0 {
            Comm1::lemma_parse_within(b.skip(1));
            BroadcastVerificationMessage::<Comm1>::lemma_parse_within(b.skip(1));
            LocalSig3::lemma_parse_within(b.skip(1));
            BroadcastVerificationMessage::<LocalSig3>::lemma_parse_within(b.skip(1));
        }
    }

    fn is_encodable(&self) -> (r: bool) {
        match self {
            SigningData::CommStage1(m) => m.is_encodable(),
            SigningData::BroadcastVerificationStage2(m) => m.is_encodable(),
            SigningData::LocalSigStage3(m) => m.is_encodable(),
            SigningData::VerifyLocalSigsStage4(m) => m.is_encodable(),
        }
    }

    fn encode_into(&self, out: &mut Vec<u8>) {
        match self {
            SigningData::CommStage1(m) => {
                out.push(0u8);
                m.encode_into(out);
            },
            SigningData::BroadcastVerificationStage2(m) => {
                out.push(1u8);
                m.encode_into(out);
            },
            SigningData::LocalSigStage3(m) => {
                out.push(2u8);
                m.encode_into(out);
            },
            SigningData::VerifyLocalSigsStage4(m) => {
                out.push(3u8);
                m.encode_into(out);
            },
        }
        assert(final(out)@ =~= old(out)@ + Self::enc(self@));
    }

    fn decode_at(b: &Vec<u8>, pos: usize) -> (r: Option<(Self, usize)>) {
        let ghost s = b@.skip(pos as int);
        let _blen = b.len();
        let tag = match read_tag(b, pos) {
            Some(t) => t,
            None => return None,
        };
        assert(b@.skip(pos + 1) =~= s.skip(1));
        if tag == 0 {
            match Comm1::decode_at(b, pos + 1) {
                Some((m, p)) => Some((SigningData::CommStage1(m), p)),
                None => None,
            }
        } else if tag == 1 {
            match BroadcastVerificationMessage::<Comm1>::decode_at(b, pos + 1) {
                Some((m, p)) => Some((SigningData::BroadcastVerificationStage2(m), p)),
                None => None,
            }
        } else if tag == 2 {
            match LocalSig3::decode_at(b, pos + 1) {
                Some((m, p)) => Some((SigningData::LocalSigStage3(m), p)),
                None => None,
            }
        } else if tag == 3 {
            match BroadcastVerificationMessage::<LocalSig3>::decode_at(b, pos + 1) {
                Some((m, p)) => Some((SigningData::VerifyLocalSigsStage4(m), p)),
                None => None,
            }
        } else {
            None
        }
    }
}

impl Codec for KeygenData {
    open spec fn encodable(v: KeygenDataView) -> bool {
        match v {
            KeygenDataView::HashComm1(m) => Vec::<u8>::encodable(m),
            KeygenDataView::VerifyHashComm2(m) => BroadcastVerificationMessage::<Vec<u8>>::encodable(m),
            KeygenDataView::CoeffComm3(m) => Vec::<u8>::encodable(m),
            KeygenDataView::Complaints4(m) => Vec::<u8>::encodable(m),
            KeygenDataView::VerifyComplaints5(m) => BroadcastVerificationMessage::<Vec<u8>>::encodable(m),
            KeygenDataView::SecretShares6(m) => Vec::<u8>::encodable(m),
            KeygenDataView::BlameResponse7(m) => Vec::<u8>::encodable(m),
            KeygenDataView::VerifyBlameResponses8(m) => BroadcastVerificationMessage::<Vec<u8>>::encodable(m),
        }
    }

    open spec fn enc(v: KeygenDataView) -> Seq<u8> {
        match v {
            KeygenDataView::HashComm1(m) => tagged(0, Vec::<u8>::enc(m)),
            KeygenDataView::VerifyHashComm2(m) => tagged(1, BroadcastVerificationMessage::<Vec<u8>>::enc(m)),
            KeygenDataView::CoeffComm3(m) => tagged(2, Vec::<u8>::enc(m)),
            KeygenDataView::Complaints4(m) => tagged(3, Vec::<u8>::enc(m)),
            KeygenDataView::VerifyComplaints5(m) => tagged(4, BroadcastVerificationMessage::<Vec<u8>>::enc(m)),
            KeygenDataView::SecretShares6(m) => tagged(5, Vec::<u8>::enc(m)),
            KeygenDataView::BlameResponse7(m) => tagged(6, Vec::<u8>::enc(m)),
            KeygenDataView::VerifyBlameResponses8(m) => tagged(7, BroadcastVerificationMessage::<Vec<u8>>::enc(m)),
        }
    }

    open spec fn parse(b: Seq<u8>) -> Option<(KeygenDataView, nat)> {
        if b.len() == 0 {
            None
        } else if b[0] == 0 {
            match Vec::<u8>::parse(b.skip(1)) {
                Some((m, c)) => Some((KeygenDataView::HashComm1(m), c + 1)),
                None => None,
            }
        } else if b[0] == 1 {
            match BroadcastVerificationMessage::<Vec<u8>>::parse(b.skip(1)) {
                Some((m, c)) => Some((KeygenDataView::VerifyHashComm2(m), c + 1)),
                None => None,
            }
        } else if b[0] == 2 {
            match Vec::<u8>::parse(b.skip(1)) {
                Some((m, c)) => Some((KeygenDataView::CoeffComm3(m), c + 1)),
                None => None,
            }
        } else if b[0] == 3 {
            match Vec::<u8>::parse(b.skip(1)) {
                Some((m, c)) => Some((KeygenDataView::Complaints4(m), c + 1)),
                None => None,
            }
        } else if b[0] == 4 {
            match BroadcastVerificationMessage::<Vec<u8>>::parse(b.skip(1)) {
                Some((m, c)) => Some((KeygenDataView::VerifyComplaints5(m), c + 1)),
                None => None,
            }
        } else if b[0] == 5 {
            match Vec::<u8>::parse(b.skip(1)) {
                Some((m, c)) => Some((KeygenDataView::SecretShares6(m), c + 1)),
                None => None,
            }
        } else if b[0] == 6 {
            match Vec::<u8>::parse(b.skip(1)) {
                Some((m, c)) => Some((KeygenDataView::BlameResponse7(m), c + 1)),
                None => None,
            }
        } else if b[0] == 7 {
            match BroadcastVerificationMessage::<Vec<u8>>::parse(b.skip(1)) {
                Some((m, c)) => Some((KeygenDataView::VerifyBlameResponses8(m), c + 1)),
                None => None,
            }
        } else {
            None
        }
    }

    proof fn lemma_round_trip(v: KeygenDataView, rest: Seq<u8>) {
        match v {
            KeygenDataView::HashComm1(m) => {
                lemma_tagged_skip(0, Vec::<u8>::enc(m), rest);
                Vec::<u8>::lemma_round_trip(m, rest);
            },
            KeygenDataView::VerifyHashComm2(m) => {
                lemma_tagged_skip(1, BroadcastVerificationMessage::<Vec<u8>>::enc(m), rest);
                BroadcastVerificationMessage::<Vec<u8>>::lemma_round_trip(m, rest);
            },
            KeygenDataView::CoeffComm3(m) => {
                lemma_tagged_skip(2, Vec::<u8>::enc(m), rest);
                Vec::<u8>::lemma_round_trip(m, rest);
            },
            KeygenDataView::Complaints4(m) => {
                lemma_tagged_skip(3, Vec::<u8>::enc(m), rest);
                Vec::<u8>::lemma_round_trip(m, rest);
            },
            KeygenDataView::VerifyComplaints5(m) => {
                lemma_tagged_skip(4, BroadcastVerificationMessage::<Vec<u8>>::enc(m), rest);
                BroadcastVerificationMessage::<Vec<u8>>::lemma_round_trip(m, rest);
            },
            KeygenDataView::SecretShares6(m) => {
                lemma_tagged_skip(5, Vec::<u8>::enc(m), rest);
                Vec::<u8>::lemma_round_trip(m, rest);
            },
            KeygenDataView::BlameResponse7(m) => {
                lemma_tagged_skip(6, Vec::<u8>::enc(m), rest);
                Vec::<u8>::lemma_round_trip(m, rest);
            },
            KeygenDataView::VerifyBlameResponses8(m) => {
                lemma_tagged_skip(7, BroadcastVerificationMessage::<Vec<u8>>::enc(m), rest);
                BroadcastVerificationMessage::<Vec<u8>>::lemma_round_trip(m, rest);
            },
        }
    }

    proof fn lemma_parse_within(b: Seq<u8>) {
        if b.len() > 0 {
            Vec::<u8>::lemma_parse_within(b.skip(1));
            BroadcastVerificationMessage::<Vec<u8>>::lemma_parse_within(b.skip(1));
        }
    }

    fn is_encodable(&self) -> (r: bool) {
        match self {
            KeygenData::HashComm1(m) => m.is_encodable(),
            KeygenData::VerifyHashComm2(m) => m.is_encodable(),
            KeygenData::CoeffComm3(m) => m.is_encodable(),
            KeygenData::Complaints4(m) => m.is_encodable(),
            KeygenData::VerifyComplaints5(m) => m.is_encodable(),
            KeygenData::SecretShares6(m) => m.is_encodable(),
            KeygenData::BlameResponse7(m) => m.is_encodable(),
            KeygenData::VerifyBlameResponses8(m) => m.is_encodable(),
        }
    }

    fn encode_into(&self, out: &mut Vec<u8>) {
        match self {
            KeygenData::HashComm1(m) => {
                out.push(0u8);
                m.encode_into(out);
            },
            KeygenData::VerifyHashComm2(m) => {
                out.push(1u8);
                m.encode_into(out);
            },
            KeygenData::CoeffComm3(m) => {
                out.push(2u8);
                m.encode_into(out);
            },
            KeygenData::Complaints4(m) => {
                out.push(3u8);
                m.encode_into(out);
            },
            KeygenData::VerifyComplaints5(m) => {
                out.push(4u8);
                m.encode_into(out);
            },
            KeygenData::SecretShares6(m) => {
                out.push(5u8);
                m.encode_into(out);
            },
            KeygenData::BlameResponse7(m) => {
                out.push(6u8);
                m.encode_into(out);
            },
            KeygenData::VerifyBlameResponses8(m) => {
                out.push(7u8);
                m.encode_into(out);
            },
        }
        assert(final(out)@ =~= old(out)@ + Self::enc(self@));
    }

    fn decode_at(b: &Vec<u8>, pos: usize) -> (r: Option<(Self, usize)>) {
        let ghost s = b@.skip(pos as int);
        let _blen = b.len();
        let tag = match read_tag(b, pos) {
            Some(t) => t,
            None => return None,
        };
        assert(b@.skip(pos + 1) =~= s.skip(1));
        if tag == 0 {
            match Vec::<u8>::decode_at(b, pos + 1) {
                Some((m, p)) => Some((KeygenData::HashComm1(m), p)),
                None => None,
            }
        } else if tag == 1 {
            match BroadcastVerificationMessage::<Vec<u8>>::decode_at(b, pos + 1) {
                Some((m, p)) => Some((KeygenData::VerifyHashComm2(m), p)),
                None => None,
            }
        } else if tag == 2 {
            match Vec::<u8>::decode_at(b, pos + 1) {
                Some((m, p)) => Some((KeygenData::CoeffComm3(m), p)),
                None => None,
            }
        } else if tag == 3 {
            match Vec::<u8>::decode_at(b, pos + 1) {
                Some((m, p)) => Some((KeygenData::Complaints4(m), p)),
                None => None,
            }
        } else if tag == 4 {
            match BroadcastVerificationMessage::<Vec<u8>>::decode_at(b, pos + 1) {
                Some((m, p)) => Some((KeygenData::VerifyComplaints5(m), p)),
                None => None,
            }
        } else if tag == 5 {
            match Vec::<u8>::decode_at(b, pos + 1) {
                Some((m, p)) => Some((KeygenData::SecretShares6(m), p)),
                None => None,
            }
        } else if tag == 6 {
            match Vec::<u8>::decode_at(b, pos + 1) {
                Some((m, p)) => Some((KeygenData::BlameResponse7(m), p)),
                None => None,
            }
        } else if tag == 7 {
            match BroadcastVerificationMessage::<Vec<u8>>::decode_at(b, pos + 1) {
                Some((m, p)) => Some((KeygenData::VerifyBlameResponses8(m), p)),
                None => None,
            }
        } else {
            None
        }
    }
}

impl Codec for MultisigData {
    open spec fn encodable(v: MultisigDataView) -> bool {
        match v {
            MultisigDataView::Keygen(d) => KeygenData::encodable(d),
            MultisigDataView::Signing(d) => SigningData::encodable(d),
        }
    }

    open spec fn enc(v: MultisigDataView) -> Seq<u8> {
        match v {
            MultisigDataView::Keygen(d) => tagged(0, KeygenData::enc(d)),
            MultisigDataView::Signing(d) => tagged(1, SigningData::enc(d)),
        }
    }

    open spec fn parse(b: Seq<u8>) -> Option<(MultisigDataView, nat)> {
        if b.len() == 0 {
            None
        } else if b[0] == 0 {
            match KeygenData::parse(b.skip(1)) {
                Some((d, c)) => Some((MultisigDataView::Keygen(d), c + 1)),
                None => None,
            }
        } else if b[0] == 1 {
            match SigningData::parse(b.skip(1)) {
                Some((d, c)) => Some((MultisigDataView::Signing(d), c + 1)),
                None => None,
            }
        } else {
            None
        }
    }

    proof fn lemma_round_trip(v: MultisigDataView, rest: Seq<u8>) {
        match v {
            MultisigDataView::Keygen(d) => {
                lemma_tagged_skip(0, KeygenData::enc(d), rest);
                KeygenData::lemma_round_trip(d, rest);
            },
            MultisigDataView::Signing(d) => {
                lemma_tagged_skip(1, SigningData::enc(d), rest);
                SigningData::lemma_round_trip(d, rest);
            },
        }
    }

    proof fn lemma_parse_within(b: Seq<u8>) {
        if b.len() > 0 {
            KeygenData::lemma_parse_within(b.skip(1));
            SigningData::lemma_parse_within(b.skip(1));
        }
    }

    fn is_encodable(&self) -> (r: bool) {
        match self {
            MultisigData::Keygen(d) => d.is_encodable(),
            MultisigData::Signing(d) => d.is_encodable(),
        }
    }

    fn encode_into(&self, out: &mut Vec<u8>) {
        match self {
            MultisigData::Keygen(d) => {
                out.push(0u8);
                d.encode_into(out);
            },
            MultisigData::Signing(d) => {
                out.push(1u8);
                d.encode_into(out);
            },
        }
        assert(final(out)@ =~= old(out)@ + Self::enc(self@));
    }

    fn decode_at(b: &Vec<u8>, pos: usize) -> (r: Option<(Self, usize)>) {
        let ghost s = b@.skip(pos as int);
        let _blen = b.len();
        let tag = match read_tag(b, pos) {
            Some(t) => t,
            None => return None,
        };
        assert(b@.skip(pos + 1) =~= s.skip(1));
        if tag == 0 {
            match KeygenData::decode_at(b, pos + 1) {
                Some((d, p)) => Some((MultisigData::Keygen(d), p)),
                None => None,
            }
        } else if tag == 1 {
            match SigningData::decode_at(b, pos + 1) {
                Some((d, p)) => Some((MultisigData::Signing(d), p)),
                None => None,
            }
        } else {
            None
        }
    }
}

/// The one protocol version this engine speaks.
pub const CURRENT_PROTOCOL_VERSION: u8 = 1;

/// A message between peers: the ceremony it belongs to and its data.
#[derive(Debug)]
pub struct MultisigMessage {
    pub ceremony_id: CeremonyId,
    pub data: MultisigData,
}

/// The bytes of an envelope: the version byte, the ceremony id, the data.
pub open spec fn enc_envelope(ceremony_id: CeremonyId, data: MultisigDataView) -> Seq<u8> {
    seq![CURRENT_PROTOCOL_VERSION] + u64_bytes(ceremony_id) + MultisigData::enc(data)
}

/// The envelope that `b` holds exactly, with nothing left over.
pub open spec fn parse_envelope(b: Seq<u8>) -> Option<(CeremonyId, MultisigDataView)> {
    if b.len() >= 9 && b[0] == CURRENT_PROTOCOL_VERSION {
        match MultisigData::parse(b.skip(9)) {
            Some((d, c)) => if c == b.len() - 9 {
                Some((u64_of(b.skip(1)), d))
            } else {
                None
            },
            None => None,
        }
    } else {
        None
    }
}

/// Serialises a message for a protocol version; only the current version
/// exists, and the data must fit the format.
pub fn serialize_for_version(ceremony_id: CeremonyId, data: &MultisigData, version: u8) -> (r: Vec<u8>)
    requires
        version == CURRENT_PROTOCOL_VERSION,
        MultisigData::encodable(data@),
    ensures
        r@ == enc_envelope(ceremony_id, data@),
{
    let mut out: Vec<u8> = Vec::new();
    out.push(version);
    write_u64(&mut out, ceremony_id);
    data.encode_into(&mut out);
    assert(out@ =~= enc_envelope(ceremony_id, data@));
    out
}

/// Decodes an envelope; gives nothing for another version, a malformed
/// message or trailing bytes.
pub fn deserialize_message(b: &Vec<u8>) -> (r: Option<MultisigMessage>)
    ensures
        match parse_envelope(b@) {
            Some((id, d)) => r matches Some(m) && m.ceremony_id == id && m.data@ == d,
            None => r is None,
        },
{
    let blen = b.len();
    if blen < 9 || b[0] != CURRENT_PROTOCOL_VERSION {
        return None;
    }
    let ceremony_id = match read_u64(b, 1) {
        Some(x) => x,
        None => return None,
    };
    assert(b@.skip(1) =~= b@.skip(1));
    assert(b@.skip(9) =~= b@.skip(9 as int));
    match MultisigData::decode_at(b, 9) {
        Some((data, p)) => {
            if p == blen {
                Some(MultisigMessage { ceremony_id, data })
            } else {
                None
            }
        },
        None => None,
    }
}

/// Decoding an encoded envelope gives back the ceremony id and the data,
/// for every message that fits the format.
#[verifier::rlimit(40)]
pub proof fn lemma_envelope_round_trip(ceremony_id: CeremonyId, data: MultisigDataView)
    requires
        MultisigData::encodable(data),
    ensures
        parse_envelope(enc_envelope(ceremony_id, data)) == Some((ceremony_id, data)),
{
    let e = MultisigData::enc(data);
    let b = enc_envelope(ceremony_id, data);
    assert(b.len() == 9 + e.len());
    assert(b[0] == CURRENT_PROTOCOL_VERSION);
    assert(b.skip(9) =~= e);
    assert(e + Seq::<u8>::empty() =~= e);
    MultisigData::lemma_round_trip(data, Seq::empty());
    assert(MultisigData::parse(b.skip(9)) == Some((data, e.len())));
    assert(b.skip(1) =~= u64_bytes(ceremony_id) + e);
    lemma_u64_round_trip(ceremony_id, e);
    assert(u64_of(b.skip(1)) == ceremony_id);
}

} // verus!
