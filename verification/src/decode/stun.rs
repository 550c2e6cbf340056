//! STUN and TURN messages (RFC 5389, RFC 5766).
use crate::addr::{IpAddr, SocketAddr};
use crate::decode::rtp::{be16, be32, read_be16, read_be32};
use crate::uri::utf8_text;
use vstd::prelude::*;
use vstd::utf8::{decode_utf8, valid_utf8};

verus! {

/// The value that marks a STUN message.
pub const MAGIC_COOKIE: u32 = 0x2112_A442;

/// The Allocate method.
pub const METHOD_ALLOCATE: u16 = 0x003;

/// The Refresh method.
pub const METHOD_REFRESH: u16 = 0x004;

/// The Send method.
pub const METHOD_SEND: u16 = 0x006;

/// The Data method.
pub const METHOD_DATA: u16 = 0x007;

/// The ChannelBind method.
pub const METHOD_CHANNEL_BIND: u16 = 0x009;

/// The ERROR-CODE attribute.
pub const ATTR_ERROR_CODE: u16 = 0x0009;

/// The CHANNEL-NUMBER attribute.
pub const ATTR_CHANNEL_NUMBER: u16 = 0x000C;

/// The LIFETIME attribute.
pub const ATTR_LIFETIME: u16 = 0x000D;

/// The XOR-PEER-ADDRESS attribute.
pub const ATTR_XOR_PEER_ADDRESS: u16 = 0x0012;

/// The DATA attribute.
pub const ATTR_DATA: u16 = 0x0013;

/// The XOR-RELAYED-ADDRESS attribute.
pub const ATTR_XOR_RELAYED_ADDRESS: u16 = 0x0016;

/// The class of a message.
#[derive(Clone, Copy, PartialEq, Eq, Structural, Debug)]
pub enum StunClass {
    /// A request.
    Request,
    /// An indication, which is not answered.
    Indication,
    /// A success response.
    Success,
    /// An error response.
    Error,
}

/// One attribute of a message.
pub struct StunAttr {
    /// The attribute type.
    pub kind: u16,
    /// The value, without padding.
    pub value: Vec<u8>,
}

/// A STUN message.
pub struct StunMsg {
    /// The method.
    pub method: u16,
    /// The class.
    pub class: StunClass,
    /// The magic cookie and the transaction id: the sixteen bytes that
    /// addresses are masked with.
    pub mask: Vec<u8>,
    /// The attributes in order.
    pub attrs: Vec<StunAttr>,
}

/// A [`StunMsg`] in mathematical terms.
#[verifier::ext_equal]
pub ghost struct StunModel {
    pub method: u16,
    pub class: StunClass,
    pub mask: Seq<u8>,
    pub attrs: Seq<(u16, Seq<u8>)>,
}

/// Attributes in mathematical terms.
pub open spec fn attrs_model(attrs: Seq<StunAttr>) -> Seq<(u16, Seq<u8>)> {
    attrs.map_values(|a: StunAttr| (a.kind, a.value@))
}

impl View for StunMsg {
    type V = StunModel;

    open spec fn view(&self) -> StunModel {
        StunModel {
            method: self.method,
            class: self.class,
            mask: self.mask@,
            attrs: attrs_model(self.attrs@),
        }
    }
}

/// The length of an attribute value with its padding.
pub open spec fn padded(n: int) -> int {
    (n + 3) / 4 * 4
}

/// The attributes that stand one after the other from `i` to the end; those
/// that do not fit any more are left out.
pub open spec fn attrs_from(p: Seq<u8>, i: int) -> Seq<(u16, Seq<u8>)>
    decreases p.len() - i + 4,
{
    if i < 0 || i + 4 > p.len() || i + 4 + be16(p, i + 2) > p.len() {
        Seq::empty()
    } else {
        let n = be16(p, i + 2);
        seq![(be16(p, i) as u16, p.subrange(i + 4, i + 4 + n))] + attrs_from(p, i + 4 + padded(n))
    }
}

/// The class in the two class bits of a message type.
pub open spec fn class_of(kind: int) -> StunClass {
    let request = kind / 0x100 % 2 == 0;
    let plain = kind / 0x10 % 2 == 0;
    if request && plain {
        StunClass::Request
    } else if request {
        StunClass::Indication
    } else if plain {
        StunClass::Success
    } else {
        StunClass::Error
    }
}

/// The method in the bits of a message type around the class bits.
pub open spec fn method_in(kind: int) -> int {
    kind / 0x200 * 0x80 + kind / 0x20 % 8 * 0x10 + kind % 0x10
}

/// The message that a payload holds: a header of twenty bytes whose first two
/// bits are zero, with the magic cookie, and a body of the length it states.
pub open spec fn stun_message(p: Seq<u8>) -> Option<StunModel> {
    if p.len() < 20 || p[0] >= 0x40 || be32(p, 4) != MAGIC_COOKIE || 20 + be16(p, 2) > p.len() {
        None
    } else {
        Some(
            StunModel {
                method: method_in(be16(p, 0)) as u16,
                class: class_of(be16(p, 0)),
                mask: p.subrange(4, 20),
                attrs: attrs_from(p.subrange(0, 20 + be16(p, 2)), 20),
            },
        )
    }
}

fn copy_of(p: &[u8], lo: usize, hi: usize) -> (r: Vec<u8>)
    requires
        lo <= hi <= p@.len(),
    ensures
        r@ == p@.subrange(lo as int, hi as int),
{
    let mut r: Vec<u8> = Vec::new();
    let mut i: usize = lo;
    while i < hi
        invariant
            lo <= i <= hi <= p@.len(),
            r@ == p@.subrange(lo as int, i as int),
        decreases hi - i,
    {
        r.push(p[i]);
        i += 1;
    }
    r
}

fn class_bits(kind: u16) -> (r: StunClass)
    ensures
        r == class_of(kind as int),
{
    let request = kind / 0x100 % 2 == 0;
    let plain = kind / 0x10 % 2 == 0;
    if request && plain {
        StunClass::Request
    } else if request {
        StunClass::Indication
    } else if plain {
        StunClass::Success
    } else {
        StunClass::Error
    }
}

/// Reads a STUN message.
pub fn parse(payload: &[u8]) -> (r: Option<StunMsg>)
    ensures
        match r {
            Some(m) => stun_message(payload@) == Some(m@),
            None => stun_message(payload@) is None,
        },
{
    if payload.len() < 20 || payload[0] >= 0x40 || read_be32(payload, 4) != MAGIC_COOKIE {
        return None;
    }
    let end: usize = 20 + read_be16(payload, 2) as usize;
    if end > payload.len() {
        return None;
    }
    let kind = read_be16(payload, 0);
    let ghost body = payload@.subrange(0, end as int);
    let mut attrs: Vec<StunAttr> = Vec::new();
    let mut i: usize = 20;
    while end >= 4 && i <= end - 4
        invariant_except_break
            attrs_from(body, 20) == attrs_model(attrs@) + attrs_from(body, i as int),
        invariant
            20 <= i,
            20 <= end <= payload.len() == payload@.len(),
            body == payload@.subrange(0, end as int),
        ensures
            attrs_from(body, 20) == attrs_model(attrs@),
        decreases end + 4 - i,
    {
        let n: usize = read_be16(payload, i + 2) as usize;
        assert(be16(body, i as int) == be16(payload@, i as int));
        assert(be16(body, i + 2) == be16(payload@, i + 2));
        if n > end - 4 - i {
            assert(attrs_from(body, i as int) =~= Seq::empty());
            assert(attrs_model(attrs@) + attrs_from(body, i as int) =~= attrs_model(attrs@));
            break;
        }
        let value = copy_of(payload, i + 4, i + 4 + n);
        assert(value@ =~= body.subrange(i + 4, i + 4 + n));
        let ghost was = attrs@;
        attrs.push(StunAttr { kind: read_be16(payload, i), value });
        proof {
            let one = seq![(be16(body, i as int) as u16, value@)];
            assert(attrs_model(attrs@) =~= attrs_model(was) + one);
            assert(attrs_model(was) + (one + attrs_from(body, i + 4 + padded(n as int)))
                =~= attrs_model(attrs@) + attrs_from(body, i + 4 + padded(n as int)));
        }
        let wide: usize = (n + 3) / 4 * 4;
        if wide > end - 4 - i {
            assert(attrs_from(body, i + 4 + padded(n as int)) =~= Seq::empty());
            assert(attrs_model(attrs@) + attrs_from(body, i + 4 + padded(n as int)) =~= attrs_model(
                attrs@,
            ));
            break;
        }
        i = i + 4 + wide;
    }
    proof {
        assert(payload@.subrange(4, 20) =~= payload@.subrange(4, 20));
    }
    Some(
        StunMsg {
            method: kind / 0x200 * 0x80 + kind / 0x20 % 8 * 0x10 + kind % 0x10,
            class: class_bits(kind),
            mask: copy_of(payload, 4, 20),
            attrs,
        },
    )
}

/// The value of the first attribute of a type from position `i` on that is at
/// least `min` bytes long.
pub open spec fn attr_from(attrs: Seq<(u16, Seq<u8>)>, kind: u16, min: nat, i: int) -> Option<
    Seq<u8>,
>
    decreases attrs.len() - i,
{
    if i < 0 || i >= attrs.len() {
        None
    } else if attrs[i].0 == kind && attrs[i].1.len() >= min {
        Some(attrs[i].1)
    } else {
        attr_from(attrs, kind, min, i + 1)
    }
}

/// The value of the first attribute of a type that is long enough.
pub open spec fn attr_value(m: StunModel, kind: u16, min: nat) -> Option<Seq<u8>> {
    attr_from(m.attrs, kind, min, 0)
}

/// The allocation lifetime in seconds.
pub open spec fn lifetime_in(m: StunModel) -> Option<u32> {
    match attr_value(m, ATTR_LIFETIME, 4) {
        Some(v) => Some(be32(v, 0) as u32),
        None => None,
    }
}

/// The channel number.
pub open spec fn channel_in(m: StunModel) -> Option<u16> {
    match attr_value(m, ATTR_CHANNEL_NUMBER, 2) {
        Some(v) => Some(be16(v, 0) as u16),
        None => None,
    }
}

/// The error code and its reason phrase; the phrase is empty where it is not
/// valid text.
pub open spec fn error_in(m: StunModel) -> Option<(u16, Seq<char>)> {
    match attr_value(m, ATTR_ERROR_CODE, 4) {
        Some(v) => {
            let text = v.subrange(4, v.len() as int);
            Some(
                (
                    (v[2] as int % 8 * 100 + v[3]) as u16,
                    if valid_utf8(text) {
                        decode_utf8(text)
                    } else {
                        Seq::empty()
                    },
                ),
            )
        },
        None => None,
    }
}

/// The number that sixteen bytes write in network order.
pub open spec fn be128(p: Seq<u8>, i: int) -> int {
    ((be32(p, i) * 0x1_0000_0000 + be32(p, i + 4)) * 0x1_0000_0000 + be32(p, i + 8))
        * 0x1_0000_0000 + be32(p, i + 12)
}

/// A masked address: a family byte, then port and address, each combined bit
/// by bit with the mask.
pub open spec fn masked_addr(v: Seq<u8>, mask: Seq<u8>) -> Option<SocketAddr> {
    let port = (be16(v, 2) as u16) ^ (be16(mask, 0) as u16);
    if v[1] == 1 {
        Some(
            SocketAddr { ip: IpAddr::V4((be32(v, 4) as u32) ^ (be32(mask, 0) as u32)), port },
        )
    } else if v[1] == 2 && v.len() >= 20 {
        Some(
            SocketAddr { ip: IpAddr::V6((be128(v, 4) as u128) ^ (be128(mask, 0) as u128)), port },
        )
    } else {
        None
    }
}

/// The masked address in the first attribute of a type.
pub open spec fn addr_in(m: StunModel, kind: u16) -> Option<SocketAddr> {
    match attr_value(m, kind, 8) {
        Some(v) => masked_addr(v, m.mask),
        None => None,
    }
}

fn read_be128(p: &[u8], i: usize) -> (r: u128)
    requires
        i + 16 <= p.len(),
    ensures
        r == be128(p@, i as int),
{
    let a: u128 = read_be32(p, i) as u128;
    let b: u128 = read_be32(p, i + 4) as u128;
    let c: u128 = read_be32(p, i + 8) as u128;
    let d: u128 = read_be32(p, i + 12) as u128;
    ((a * 0x1_0000_0000 + b) * 0x1_0000_0000 + c) * 0x1_0000_0000 + d
}

impl StunMsg {
    /// Whether addresses can be unmasked.
    pub open spec fn wf(&self) -> bool {
        self.mask@.len() == 16
    }

    fn attr(&self, kind: u16, min: usize) -> (r: Option<&Vec<u8>>)
        ensures
            match r {
                Some(v) => attr_value(self@, kind, min as nat) == Some(v@) && v@.len() >= min,
                None => attr_value(self@, kind, min as nat) is None,
            },
    {
        let mut i: usize = 0;
        while i < self.attrs.len()
            invariant
                i <= self.attrs@.len(),
                attr_value(self@, kind, min as nat) == attr_from(
                    self@.attrs,
                    kind,
                    min as nat,
                    i as int,
                ),
            decreases self.attrs@.len() - i,
        {
            let a = &self.attrs[i];
            assert(self@.attrs[i as int] == (a.kind, a.value@));
            if a.kind == kind && a.value.len() >= min {
                return Some(&a.value);
            }
            i += 1;
        }
        None
    }

    /// The allocation lifetime in seconds.
    pub fn lifetime(&self) -> (r: Option<u32>)
        ensures
            r == lifetime_in(self@),
    {
        match self.attr(ATTR_LIFETIME, 4) {
            Some(v) => Some(read_be32(v.as_slice(), 0)),
            None => None,
        }
    }

    /// The channel number.
    pub fn channel_number(&self) -> (r: Option<u16>)
        ensures
            r == channel_in(self@),
    {
        match self.attr(ATTR_CHANNEL_NUMBER, 2) {
            Some(v) => Some(read_be16(v.as_slice(), 0)),
            None => None,
        }
    }

    /// The error code and its reason phrase.
    pub fn error_code(&self) -> (r: Option<(u16, String)>)
        ensures
            match r {
                Some(e) => error_in(self@) == Some((e.0, e.1@)),
                None => error_in(self@) is None,
            },
    {
        match self.attr(ATTR_ERROR_CODE, 4) {
            Some(v) => {
                let code: u16 = (v[2] % 8) as u16 * 100 + v[3] as u16;
                let text = vstd::slice::slice_subrange(v.as_slice(), 4, v.len());
                let reason = match utf8_text(text) {
                    Some(t) => t.to_owned(),
                    None => String::new(),
                };
                Some((code, reason))
            },
            None => None,
        }
    }

    fn address(&self, kind: u16) -> (r: Option<SocketAddr>)
        requires
            self.wf(),
        ensures
            r == addr_in(self@, kind),
    {
        match self.attr(kind, 8) {
            Some(v) => {
                let v = v.as_slice();
                let mask = self.mask.as_slice();
                let port: u16 = read_be16(v, 2) ^ read_be16(mask, 0);
                if v[1] == 1 {
                    Some(
                        SocketAddr { ip: IpAddr::V4(read_be32(v, 4) ^ read_be32(mask, 0)), port },
                    )
                } else if v[1] == 2 && v.len() >= 20 {
                    Some(
                        SocketAddr { ip: IpAddr::V6(read_be128(v, 4) ^ read_be128(mask, 0)), port },
                    )
                } else {
                    None
                }
            },
            None => None,
        }
    }

    /// The relayed transport address.
    pub fn relayed_address(&self) -> (r: Option<SocketAddr>)
        requires
            self.wf(),
        ensures
            r == addr_in(self@, ATTR_XOR_RELAYED_ADDRESS),
    {
        self.address(ATTR_XOR_RELAYED_ADDRESS)
    }

    /// The peer address.
    pub fn peer_address(&self) -> (r: Option<SocketAddr>)
        requires
            self.wf(),
        ensures
            r == addr_in(self@, ATTR_XOR_PEER_ADDRESS),
    {
        self.address(ATTR_XOR_PEER_ADDRESS)
    }

    /// The relayed payload.
    pub fn data_payload(&self) -> (r: Option<Vec<u8>>)
        ensures
            match r {
                Some(d) => attr_value(self@, ATTR_DATA, 0) == Some(d@),
                None => attr_value(self@, ATTR_DATA, 0) is None,
            },
    {
        match self.attr(ATTR_DATA, 0) {
            Some(v) => {
                let d = copy_of(v.as_slice(), 0, v.len());
                assert(d@ =~= v@);
                Some(d)
            },
            None => None,
        }
    }
}

/// A payload is a message of STUN exactly where it has a header of twenty bytes that
/// starts with two zero bits, holds the magic cookie and tells no more bytes than
/// there are. What addresses are masked with is the cookie and the transaction.
pub proof fn a_message_has_the_magic_cookie(p: Seq<u8>)
    ensures
        stun_message(p) is Some <==> p.len() >= 20 && p[0] < 64 && p[4] == 0x21 && p[5] == 0x12
            && p[6] == 0xa4 && p[7] == 0x42 && 20 + p[2] * 256 + p[3] <= p.len(),
        stun_message(p) matches Some(m) ==> m.mask.len() == 16 && forall|i: int|
            0 <= i < 16 ==> #[trigger] m.mask[i] == p[4 + i],
{
}

/// Reading the type of a message undoes writing it: the twelve bits of the method
/// stand round the two of the class.
pub proof fn reading_a_type_undoes_writing_it(p: Seq<u8>, m: StunModel, low: int, mid: int, high: int)
    requires
        stun_message(p) == Some(m),
        0 <= low < 16,
        0 <= mid < 8,
        0 <= high < 32,
    ensures
        p[0] == high * 2 && p[1] == mid * 32 + low ==> m.method == high * 128 + mid * 16 + low
            && m.class == StunClass::Request,
        p[0] == high * 2 && p[1] == mid * 32 + 16 + low ==> m.method == high * 128 + mid * 16 + low
            && m.class == StunClass::Indication,
        p[0] == high * 2 + 1 && p[1] == mid * 32 + low ==> m.method == high * 128 + mid * 16 + low
            && m.class == StunClass::Success,
        p[0] == high * 2 + 1 && p[1] == mid * 32 + 16 + low ==> m.method == high * 128 + mid * 16
            + low && m.class == StunClass::Error,
{
}

/// An attribute is a type, a length and as many bytes, with the next one behind it
/// at a multiple of four. Where the bytes end before it does, there is none.
pub proof fn an_attribute_is_type_length_and_value(p: Seq<u8>, i: int, n: int, next: int)
    requires
        0 <= i,
        i + 4 <= p.len(),
        n == p[i + 2] * 256 + p[i + 3],
        i + 4 + n <= next < i + 8 + n,
        (next - i) % 4 == 0,
    ensures
        i + 4 + n <= p.len() ==> {
            let a = attrs_from(p, i);
            &&& a.len() == 1 + attrs_from(p, next).len()
            &&& a[0].0 == p[i] * 256 + p[i + 1]
            &&& a[0].1 == p.subrange(i + 4, i + 4 + n)
            &&& a.skip(1) == attrs_from(p, next)
        },
        i + 4 + n > p.len() ==> attrs_from(p, i).len() == 0,
        attrs_from(p, p.len() as int).len() == 0,
{
    assert(padded(n) == next - i - 4);
    if i + 4 + n <= p.len() {
        assert(attrs_from(p, i).skip(1) =~= attrs_from(p, next));
    }
}

/// Whether an attribute is the first of a type that is long enough.
pub open spec fn first_attr(m: StunModel, kind: u16, min: nat, i: int) -> bool {
    &&& 0 <= i < m.attrs.len()
    &&& m.attrs[i].0 == kind && m.attrs[i].1.len() >= min
    &&& forall|j: int|
        0 <= j < i ==> (#[trigger] m.attrs[j]).0 != kind || m.attrs[j].1.len() < min
}

/// Whether no attribute is of a type and long enough.
pub open spec fn no_attr(m: StunModel, kind: u16, min: nat) -> bool {
    forall|j: int|
        0 <= j < m.attrs.len() ==> (#[trigger] m.attrs[j]).0 != kind || m.attrs[j].1.len() < min
}

proof fn lemma_attr_from(m: StunModel, kind: u16, min: nat, from: int)
    requires
        0 <= from <= m.attrs.len(),
    ensures
        forall|i: int|
            from <= i && #[trigger] first_attr(m, kind, min, i) ==> attr_from(
                m.attrs,
                kind,
                min,
                from,
            ) == Some(m.attrs[i].1),
        (forall|j: int|
            from <= j < m.attrs.len() ==> (#[trigger] m.attrs[j]).0 != kind || m.attrs[j].1.len()
                < min) ==> attr_from(m.attrs, kind, min, from) is None,
    decreases m.attrs.len() - from,
{
    if from < m.attrs.len() && !(m.attrs[from].0 == kind && m.attrs[from].1.len() >= min) {
        lemma_attr_from(m, kind, min, from + 1);
    }
}

/// What a message says in its attributes, each read from the first of its type that
/// is long enough: the lifetime from type 13, the channel from type 12, the error
/// from type 9 and the data from type 19.
pub proof fn attributes_are_read_by_their_type(m: StunModel)
    ensures
        forall|i: int| #[trigger]
            first_attr(m, 13, 4, i) ==> lifetime_in(m) is Some && {
                let v = m.attrs[i].1;
                lifetime_in(m)->0 == v[0] * 0x100_0000 + v[1] * 0x1_0000 + v[2] * 0x100 + v[3]
            },
        no_attr(m, 13, 4) ==> lifetime_in(m) is None,
        forall|i: int| #[trigger]
            first_attr(m, 12, 2, i) ==> channel_in(m) is Some && channel_in(m)->0
                == m.attrs[i].1[0] * 0x100 + m.attrs[i].1[1],
        no_attr(m, 12, 2) ==> channel_in(m) is None,
        forall|i: int| #[trigger]
            first_attr(m, 9, 4, i) ==> error_in(m) is Some && {
                let v = m.attrs[i].1;
                let e = error_in(m)->0;
                &&& v[2] < 8 ==> e.0 == v[2] * 100 + v[3]
                &&& valid_utf8(v.skip(4)) ==> e.1 == decode_utf8(v.skip(4))
                &&& !valid_utf8(v.skip(4)) ==> e.1.len() == 0
            },
        no_attr(m, 9, 4) ==> error_in(m) is None,
        forall|i: int| #[trigger]
            first_attr(m, 19, 0, i) ==> attr_value(m, ATTR_DATA, 0) == Some(m.attrs[i].1),
        no_attr(m, 19, 0) ==> attr_value(m, ATTR_DATA, 0) is None,
{
    lemma_attr_from(m, 13, 4, 0);
    lemma_attr_from(m, 12, 2, 0);
    lemma_attr_from(m, 9, 4, 0);
    lemma_attr_from(m, 19, 0, 0);
    assert forall|i: int| #[trigger] first_attr(m, 9, 4, i) implies error_in(m) is Some && {
        let v = m.attrs[i].1;
        let e = error_in(m)->0;
        &&& v[2] < 8 ==> e.0 == v[2] * 100 + v[3]
        &&& valid_utf8(v.skip(4)) ==> e.1 == decode_utf8(v.skip(4))
        &&& !valid_utf8(v.skip(4)) ==> e.1.len() == 0
    } by {
        let v = m.attrs[i].1;
        assert(v.skip(4) =~= v.subrange(4, v.len() as int));
    }
}

proof fn lemma_unmask16(a: u16, b: u16)
    ensures
        (a ^ b) ^ b == a,
{
    assert((a ^ b) ^ b == a) by (bit_vector);
}

proof fn lemma_unmask32(a: u32, b: u32)
    ensures
        (a ^ b) ^ b == a,
{
    assert((a ^ b) ^ b == a) by (bit_vector);
}

proof fn lemma_unmask128(a: u128, b: u128)
    ensures
        (a ^ b) ^ b == a,
{
    assert((a ^ b) ^ b == a) by (bit_vector);
}

/// Reading a masked address undoes writing it: the port is masked with the first two
/// bytes of the mask, an address of four bytes with the first four and one of sixteen
/// with all. Other families are no address.
pub proof fn reading_a_masked_address_undoes_writing_it(
    v: Seq<u8>,
    mask: Seq<u8>,
    port: u16,
    four: u32,
    sixteen: u128,
)
    requires
        mask.len() == 16,
        v.len() >= 8,
        be16(v, 2) as u16 == port ^ (be16(mask, 0) as u16),
    ensures
        v[1] == 1 && be32(v, 4) as u32 == four ^ (be32(mask, 0) as u32) ==> masked_addr(v, mask)
            == Some(SocketAddr { ip: IpAddr::V4(four), port }),
        v[1] == 2 && v.len() >= 20 && be128(v, 4) as u128 == sixteen ^ (be128(mask, 0) as u128)
            ==> masked_addr(v, mask) == Some(SocketAddr { ip: IpAddr::V6(sixteen), port }),
        v[1] != 1 && v[1] != 2 ==> masked_addr(v, mask) is None,
        v[1] == 2 && v.len() < 20 ==> masked_addr(v, mask) is None,
{
    lemma_unmask16(port, be16(mask, 0) as u16);
    lemma_unmask32(four, be32(mask, 0) as u32);
    lemma_unmask128(sixteen, be128(mask, 0) as u128);
}

/// An address of a type is the masked address in the first attribute of that type of
/// eight bytes or more.
pub proof fn an_address_is_read_by_its_type(m: StunModel, kind: u16, i: int)
    ensures
        first_attr(m, kind, 8, i) ==> addr_in(m, kind) == masked_addr(m.attrs[i].1, m.mask),
        no_attr(m, kind, 8) ==> addr_in(m, kind) is None,
{
    lemma_attr_from(m, kind, 8, 0);
}

} // verus!
