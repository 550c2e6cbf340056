//! SIP messages from their bytes.
use crate::addr::Flow5Tuple;
use crate::digits::{parse_u32, u32_of};
use crate::model::sip::{text_of, Method, MsgModel, SipMsg};
use crate::octets::copy_octets;
use crate::text::{
    a_word_is_a_run_without_white_space, chars_of, fold_eq, next_word, same_fold, same_text, space,
    trim_span, trimming_takes_both_ends, word_from, Range, Span, Trim,
};
use crate::uri::{addr_of, extract_sockaddr, param, param_in};
use rsipstack::sip::parser::parse_message;
use rsipstack::sip::{HasHeaders, SipMessage, Via};
use vstd::prelude::*;
use vstd::string::StrSliceExecFns;

verus! {

/// Whether `p` starts with the characters of `text`, one byte each.
pub open spec fn starts(p: Seq<u8>, text: Seq<char>) -> bool {
    p.len() >= text.len() && forall|i: int|
        0 <= i < text.len() ==> (#[trigger] p[i]) as char == text[i]
}

/// The methods that a request line can start with.
pub open spec fn method_names() -> Seq<Seq<char>> {
    seq![
        "INVITE "@,
        "ACK "@,
        "BYE "@,
        "CANCEL "@,
        "REGISTER "@,
        "OPTIONS "@,
        "PRACK "@,
        "UPDATE "@,
        "SUBSCRIBE "@,
        "NOTIFY "@,
        "PUBLISH "@,
        "INFO "@,
        "REFER "@,
        "MESSAGE "@,
    ]
}

/// Whether a payload starts with a request method and a blank.
pub open spec fn method_first(p: Seq<u8>) -> bool {
    exists|i: int| 0 <= i < method_names().len() && starts(p, #[trigger] method_names()[i])
}

/// Whether a payload begins like a SIP message: at least eight bytes, of
/// which the first are `SIP/` or a request method.
pub open spec fn sip_like(p: Seq<u8>) -> bool {
    p.len() >= 8 && (starts(p, "SIP/"@) || method_first(p))
}

fn starts_with_text(p: &[u8], text: &str) -> (r: bool)
    ensures
        r == starts(p@, text@),
{
    let t = chars_of(text);
    if p.len() < t.len() {
        return false;
    }
    let mut i: usize = 0;
    while i < t.len()
        invariant
            i <= t@.len() <= p@.len(),
            t@ == text@,
            forall|j: int| 0 <= j < i ==> (#[trigger] p@[j]) as char == text@[j],
        decreases t@.len() - i,
    {
        if p[i] as char != t[i] {
            assert(p@[i as int] as char != text@[i as int]);
            return false;
        }
        i += 1;
    }
    true
}

fn starts_with_method(payload: &[u8]) -> (r: bool)
    ensures
        r == method_first(payload@),
{
    let names = [
        "INVITE ",
        "ACK ",
        "BYE ",
        "CANCEL ",
        "REGISTER ",
        "OPTIONS ",
        "PRACK ",
        "UPDATE ",
        "SUBSCRIBE ",
        "NOTIFY ",
        "PUBLISH ",
        "INFO ",
        "REFER ",
        "MESSAGE ",
    ];
    let mut i: usize = 0;
    while i < 14
        invariant
            i <= 14,
            names@.len() == 14,
            forall|j: int| 0 <= j < 14 ==> names@[j]@ == #[trigger] method_names()[j],
            forall|j: int| 0 <= j < i ==> !starts(payload@, #[trigger] method_names()[j]),
        decreases 14 - i,
    {
        if starts_with_text(payload, names[i]) {
            assert(starts(payload@, method_names()[i as int]));
            return true;
        }
        i += 1;
    }
    false
}

/// Whether a payload begins like a SIP message.
pub fn looks_like_sip(payload: &[u8]) -> (r: bool)
    ensures
        r == sip_like(payload@),
{
    payload.len() >= 8 && (starts_with_text(payload, "SIP/") || starts_with_method(payload))
}

/// A SIP message taken apart: the start line, and the headers in order.
pub struct WireMessage {
    /// The method of a request, in capitals.
    pub method: Option<String>,
    /// The status code of a response.
    pub status: Option<u16>,
    /// The headers, each by its name and its value. A compact name is given
    /// in its long form.
    pub headers: Vec<(String, String)>,
}

/// A [`WireMessage`] in mathematical terms.
pub ghost struct WireModel {
    pub method: Option<Seq<char>>,
    pub status: Option<u16>,
    pub headers: Seq<(Seq<char>, Seq<char>)>,
}

impl View for WireMessage {
    type V = WireModel;

    open spec fn view(&self) -> WireModel {
        WireModel {
            method: text_of(self.method),
            status: self.status,
            headers: self.headers@.map_values(|h: (String, String)| (h.0@, h.1@)),
        }
    }
}

/// What `rsipstack` reads in the bytes of a message; nothing where it refuses
/// them.
pub uninterp spec fn wire_message(raw: Seq<u8>) -> Option<WireModel>;

/// `rsipstack::sip::parser::parse_message`, with the start line and the
/// headers of what it returns made plain. The contract gives the result a
/// name, which the bytes alone decide, and says that a message is a request
/// with one of the known methods or a response with a status, never both.
#[verifier::external_body]
pub(crate) fn parse_wire(raw: &[u8]) -> (r: Option<WireMessage>)
    ensures
        match r {
            Some(w) => {
                &&& wire_message(raw@) == Some(w@)
                &&& w.method is Some <==> w.status is None
                &&& w.method matches Some(m) ==> method_of(m@) is Some
            },
            None => wire_message(raw@) is None,
        },
{
    let m = parse_message(raw).ok()?;
    let (method, status) = match &m {
        SipMessage::Request(r) => (Some(r.method().to_string()), None),
        SipMessage::Response(r) => (None, Some(r.status_code().code())),
    };
    let headers = m.headers().iter().map(|h| (h.name().to_owned(), h.value().to_owned())).collect();
    Some(WireMessage { method, status, headers })
}

/// Where the first of several values ends, from position `i` on: at the first
/// comma that is not in double quotes, else at the end of the text. In quotes a
/// backslash takes the next character with it. None where quotes stay open.
pub open spec fn value_end(s: Seq<char>, i: int, quoted: bool) -> Option<int>
    decreases s.len() - i,
{
    if i < 0 || i >= s.len() {
        if quoted {
            None
        } else {
            Some(s.len() as int)
        }
    } else if quoted && s[i] == '\\' {
        if i + 1 < s.len() {
            value_end(s, i + 2, quoted)
        } else {
            None
        }
    } else if s[i] == '"' {
        value_end(s, i + 1, !quoted)
    } else if s[i] == ',' && !quoted {
        Some(i)
    } else {
        value_end(s, i + 1, quoted)
    }
}

/// The first of the values in a Via header value, without white space at its
/// ends; none where there is nothing in it or quotes stay open.
pub open spec fn via_first(value: Seq<char>) -> Option<Seq<char>> {
    let all = trimmed(value);
    match value_end(all, 0, false) {
        Some(n) => {
            let first = if n < all.len() {
                trimmed(all.take(n))
            } else {
                all
            };
            if first.len() > 0 {
                Some(first)
            } else {
                None
            }
        },
        None => None,
    }
}

/// `rsipstack::sip::Via::first_value`: the part of the header value before the
/// first comma outside double quotes, trimmed. It is refused where that part is
/// empty or where quotes stay open.
#[verifier::external_body]
pub(crate) fn first_via(value: &str) -> (r: Option<String>)
    ensures
        match r {
            Some(t) => via_first(value@) == Some(t@),
            None => via_first(value@) is None,
        },
{
    Via::new(value).first_value().ok().map(|v| v.value().to_owned())
}

/// The method of a name in capitals.
pub open spec fn method_of(name: Seq<char>) -> Option<Method> {
    if name == "INVITE"@ {
        Some(Method::Invite)
    } else if name == "ACK"@ {
        Some(Method::Ack)
    } else if name == "BYE"@ {
        Some(Method::Bye)
    } else if name == "CANCEL"@ {
        Some(Method::Cancel)
    } else if name == "REGISTER"@ {
        Some(Method::Register)
    } else if name == "OPTIONS"@ {
        Some(Method::Options)
    } else if name == "PRACK"@ {
        Some(Method::Prack)
    } else if name == "UPDATE"@ {
        Some(Method::Update)
    } else if name == "SUBSCRIBE"@ {
        Some(Method::Subscribe)
    } else if name == "NOTIFY"@ {
        Some(Method::Notify)
    } else if name == "PUBLISH"@ {
        Some(Method::Publish)
    } else if name == "INFO"@ {
        Some(Method::Info)
    } else if name == "REFER"@ {
        Some(Method::Refer)
    } else if name == "MESSAGE"@ {
        Some(Method::Message)
    } else {
        None
    }
}

/// The method of a name in capitals.
pub fn map_method(name: &str) -> (r: Option<Method>)
    ensures
        r == method_of(name@),
{
    if same_text(name, "INVITE") {
        Some(Method::Invite)
    } else if same_text(name, "ACK") {
        Some(Method::Ack)
    } else if same_text(name, "BYE") {
        Some(Method::Bye)
    } else if same_text(name, "CANCEL") {
        Some(Method::Cancel)
    } else if same_text(name, "REGISTER") {
        Some(Method::Register)
    } else if same_text(name, "OPTIONS") {
        Some(Method::Options)
    } else if same_text(name, "PRACK") {
        Some(Method::Prack)
    } else if same_text(name, "UPDATE") {
        Some(Method::Update)
    } else if same_text(name, "SUBSCRIBE") {
        Some(Method::Subscribe)
    } else if same_text(name, "NOTIFY") {
        Some(Method::Notify)
    } else if same_text(name, "PUBLISH") {
        Some(Method::Publish)
    } else if same_text(name, "INFO") {
        Some(Method::Info)
    } else if same_text(name, "REFER") {
        Some(Method::Refer)
    } else if same_text(name, "MESSAGE") {
        Some(Method::Message)
    } else {
        None
    }
}

/// The value of the first header of a name from position `i` on.
pub open spec fn header_value_from(
    headers: Seq<(Seq<char>, Seq<char>)>,
    name: Seq<char>,
    i: int,
) -> Option<Seq<char>>
    decreases headers.len() - i,
{
    if i < 0 || i >= headers.len() {
        None
    } else if fold_eq(headers[i].0, name) {
        Some(headers[i].1)
    } else {
        header_value_from(headers, name, i + 1)
    }
}

/// The value of the first header of a name.
pub open spec fn header_value(w: WireModel, name: Seq<char>) -> Option<Seq<char>> {
    header_value_from(w.headers, name, 0)
}

/// How many of the first `n` headers have a name.
pub open spec fn headers_named(
    headers: Seq<(Seq<char>, Seq<char>)>,
    name: Seq<char>,
    n: int,
) -> nat
    decreases n,
{
    if n <= 0 {
        0
    } else {
        headers_named(headers, name, n - 1) + if fold_eq(headers[n - 1].0, name) {
            1nat
        } else {
            0nat
        }
    }
}

impl WireMessage {
    /// The value of the first header of a name, the case of the name ignored.
    pub fn header(&self, name: &str) -> (r: Option<&str>)
        ensures
            match r {
                Some(v) => header_value(self@, name@) == Some(v@),
                None => header_value(self@, name@) is None,
            },
    {
        let mut i: usize = 0;
        while i < self.headers.len()
            invariant
                i <= self.headers@.len(),
                header_value(self@, name@) == header_value_from(self@.headers, name@, i as int),
            decreases self.headers@.len() - i,
        {
            let h = &self.headers[i];
            assert(self@.headers[i as int] == (h.0@, h.1@));
            if same_fold(h.0.as_str(), name) {
                return Some(h.1.as_str());
            }
            i += 1;
        }
        None
    }

    /// How many headers have a name, the case of the name ignored.
    pub fn count(&self, name: &str) -> (r: usize)
        ensures
            r == headers_named(self@.headers, name@, self@.headers.len() as int),
    {
        let mut i: usize = 0;
        let mut n: usize = 0;
        while i < self.headers.len()
            invariant
                n <= i <= self.headers@.len(),
                n == headers_named(self@.headers, name@, i as int),
            decreases self.headers@.len() - i,
        {
            let h = &self.headers[i];
            assert(self@.headers[i as int] == (h.0@, h.1@));
            if same_fold(h.0.as_str(), name) {
                n += 1;
            }
            i += 1;
        }
        n
    }
}

/// The number that the first word of a CSeq value writes.
pub open spec fn cseq_number_in(s: Seq<char>) -> Option<u32> {
    match word_from(s, 0) {
        Some(w) => u32_of(s, w),
        None => None,
    }
}

/// The second word of a CSeq value.
pub open spec fn cseq_method_in(s: Seq<char>) -> Option<Seq<char>> {
    match word_from(s, 0) {
        Some(w) => match word_from(s, w.hi) {
            Some(m) => Some(m.of(s)),
            None => None,
        },
        None => None,
    }
}

fn cseq_number(value: &str) -> (r: Option<u32>)
    ensures
        r == cseq_number_in(value@),
{
    let s = chars_of(value);
    match next_word(&s, 0) {
        Some(w) => parse_u32(&s, w),
        None => None,
    }
}

fn cseq_method(value: &str) -> (r: Option<String>)
    ensures
        text_of(r) == cseq_method_in(value@),
{
    let s = chars_of(value);
    match next_word(&s, 0) {
        Some(w) => match next_word(&s, w.hi) {
            Some(m) => Some(value.substring_char(m.lo, m.hi).to_owned()),
            None => None,
        },
        None => None,
    }
}

/// A text without the white space at its ends.
pub open spec fn trimmed(s: Seq<char>) -> Seq<char> {
    (Range { lo: 0, hi: s.len() as int }).trimmed(s, Trim::Space).of(s)
}

/// A text without the white space at its ends.
pub fn trim_text(t: &str) -> (r: &str)
    ensures
        r@ == trimmed(t@),
{
    let s = chars_of(t);
    let w = trim_span(&s, Trim::Space, Span { lo: 0, hi: s.len() });
    t.substring_char(w.lo, w.hi)
}

/// Where the body of a message starts: after the first empty line from
/// position `i` on, or at the end where there is none.
pub open spec fn body_start(p: Seq<u8>, i: int) -> int
    decreases p.len() - i,
{
    if i + 4 > p.len() {
        p.len() as int
    } else if p[i] == 13 && p[i + 1] == 10 && p[i + 2] == 13 && p[i + 3] == 10 {
        i + 4
    } else {
        body_start(p, i + 1)
    }
}

/// Whether the body of a message starts like a session description.
pub open spec fn sdp_body(p: Seq<u8>) -> bool {
    let b = body_start(p, 0);
    b + 3 <= p.len() && p[b] as char == 'v' && p[b + 1] as char == '=' && p[b + 2] as char == '0'
}

fn has_sdp_body(raw: &[u8]) -> (r: bool)
    ensures
        r == sdp_body(raw@),
{
    let n = raw.len();
    let mut b: usize = n;
    let mut i: usize = 0;
    while i < n && n - i >= 4
        invariant_except_break
            i <= n == raw@.len(),
            b == n,
            body_start(raw@, 0) == body_start(raw@, i as int),
        ensures
            b == body_start(raw@, 0),
            b <= n == raw@.len(),
        decreases n - i,
    {
        if raw[i] == 13 && raw[i + 1] == 10 && raw[i + 2] == 13 && raw[i + 3] == 10 {
            b = i + 4;
            break;
        }
        i += 1;
    }
    n - b >= 3 && raw[b] as char == 'v' && raw[b + 1] as char == '=' && raw[b + 2] as char == '0'
}

/// The value of a parameter of an optional header value.
pub open spec fn param_of(value: Option<Seq<char>>, name: Seq<char>) -> Option<Seq<char>> {
    match value {
        Some(v) => param_in(v, name),
        None => None,
    }
}

/// An optional header value without white space at its ends.
pub open spec fn trimmed_opt(value: Option<Seq<char>>) -> Option<Seq<char>> {
    match value {
        Some(v) => Some(trimmed(v)),
        None => None,
    }
}

/// The bytes that are kept of a message: at most `limit`, where there is one.
pub open spec fn kept_bytes(raw: Seq<u8>, limit: Option<usize>) -> Seq<u8> {
    match limit {
        Some(n) if raw.len() > n => raw.subrange(0, n as int),
        _ => raw,
    }
}

/// Whether a message carries a session description: its content type or its
/// body says so.
pub open spec fn carries_sdp(raw: Seq<u8>, w: WireModel) -> bool {
    ||| header_value(w, "content-type"@) matches Some(v) && fold_eq(trimmed(v), "application/sdp"@)
    ||| header_value(w, "c"@) is Some
    ||| sdp_body(raw)
}

/// The message that a taken-apart message makes; none where it has no
/// Call-ID. `top_via` is the first of its Via values.
pub open spec fn message_from(
    ts_us: u64,
    flow: Flow5Tuple,
    raw: Seq<u8>,
    limit: Option<usize>,
    w: WireModel,
    top_via: Option<Seq<char>>,
) -> Option<MsgModel> {
    let from = header_value(w, "From"@);
    let to = header_value(w, "To"@);
    let cseq = header_value(w, "CSeq"@);
    match header_value(w, "Call-ID"@) {
        None => None,
        Some(id) => Some(
            MsgModel {
                ts_us: ts_us as int,
                flow,
                is_request: w.method is Some,
                method: match w.method {
                    Some(m) => method_of(m),
                    None => None,
                },
                status: w.status,
                call_id: trimmed(id),
                cseq: match cseq {
                    Some(v) => cseq_number_in(v),
                    None => None,
                },
                cseq_method: match cseq {
                    Some(v) => cseq_method_in(v),
                    None => None,
                },
                branch: param_of(top_via, "branch"@),
                from_tag: param_of(from, "tag"@),
                to_tag: param_of(to, "tag"@),
                from_uri: trimmed_opt(from),
                to_uri: trimmed_opt(to),
                raw: kept_bytes(raw, limit),
                contact_addr: match header_value(w, "Contact"@) {
                    Some(v) => addr_of(v),
                    None => None,
                },
                route_count: headers_named(w.headers, "Route"@, w.headers.len() as int),
                record_route_count: headers_named(
                    w.headers,
                    "Record-Route"@,
                    w.headers.len() as int,
                ),
                has_sdp: carries_sdp(raw, w),
            },
        ),
    }
}

fn param_text(value: Option<&str>, name: &str) -> (r: Option<String>)
    ensures
        text_of(r) == param_of(
            match value {
                Some(v) => Some(v@),
                None => None,
            },
            name@,
        ),
{
    match value {
        Some(v) => match param(v, name) {
            Some(t) => Some(t.to_owned()),
            None => None,
        },
        None => None,
    }
}

fn trim_opt(value: Option<&str>) -> (r: Option<String>)
    ensures
        text_of(r) == trimmed_opt(
            match value {
                Some(v) => Some(v@),
                None => None,
            },
        ),
{
    match value {
        Some(v) => Some(trim_text(v).to_owned()),
        None => None,
    }
}

/// Makes a message of one that was taken apart.
pub fn message_of(
    ts_us: u64,
    flow: Flow5Tuple,
    raw: &[u8],
    raw_truncate: Option<usize>,
    wire: &WireMessage,
    top_via: Option<&str>,
) -> (r: Option<SipMsg>)
    ensures
        ({
            let via = match top_via {
                Some(v) => Some(v@),
                None => None,
            };
            match r {
                Some(m) => message_from(ts_us, flow, raw@, raw_truncate, wire@, via) == Some(m@),
                None => message_from(ts_us, flow, raw@, raw_truncate, wire@, via) is None,
            }
        }),
{
    let call_id = match wire.header("Call-ID") {
        Some(id) => trim_text(id).to_owned(),
        None => {
            return None;
        },
    };
    let from = wire.header("From");
    let to = wire.header("To");
    let (cseq, cseq_m) = match wire.header("CSeq") {
        Some(v) => (cseq_number(v), cseq_method(v)),
        None => (None, None),
    };
    let stored = match raw_truncate {
        Some(n) => if raw.len() > n {
            copy_octets(vstd::slice::slice_subrange(raw, 0, n))
        } else {
            copy_octets(raw)
        },
        None => copy_octets(raw),
    };
    let contact_addr = match wire.header("Contact") {
        Some(v) => extract_sockaddr(v),
        None => None,
    };
    let sdp_type = match wire.header("content-type") {
        Some(v) => same_fold(trim_text(v), "application/sdp"),
        None => false,
    };
    let method = match &wire.method {
        Some(m) => map_method(m.as_str()),
        None => None,
    };
    Some(
        SipMsg {
            ts_us,
            flow,
            is_request: wire.method.is_some(),
            method,
            status: wire.status,
            call_id,
            cseq,
            cseq_method: cseq_m,
            branch: param_text(top_via, "branch"),
            from_tag: param_text(from, "tag"),
            to_tag: param_text(to, "tag"),
            from_uri: trim_opt(from),
            to_uri: trim_opt(to),
            raw: stored,
            contact_addr,
            route_count: wire.count("Route"),
            record_route_count: wire.count("Record-Route"),
            has_sdp: sdp_type || wire.header("c").is_some() || has_sdp_body(raw),
        },
    )
}

/// What a payload says as a SIP message; nothing where it does not begin like
/// one, `rsipstack` refuses it, or it has no Call-ID.
pub open spec fn sip_message(
    ts_us: u64,
    flow: Flow5Tuple,
    raw: Seq<u8>,
    limit: Option<usize>,
) -> Option<MsgModel> {
    if !sip_like(raw) {
        None
    } else {
        match wire_message(raw) {
            None => None,
            Some(w) => message_from(
                ts_us,
                flow,
                raw,
                limit,
                w,
                match header_value(w, "Via"@) {
                    Some(v) => via_first(v),
                    None => None,
                },
            ),
        }
    }
}

/// Tries to decode a payload as a SIP message. A message is a request with a
/// method or a response with a status, never both.
pub fn parse_sip(
    ts_us: u64,
    flow: Flow5Tuple,
    raw: &[u8],
    raw_truncate: Option<usize>,
) -> (r: Option<SipMsg>)
    ensures
        match r {
            Some(m) => {
                &&& sip_message(ts_us, flow, raw@, raw_truncate) == Some(m@)
                &&& m.is_request == (m.method is Some)
                &&& m.is_request == (m.status is None)
            },
            None => sip_message(ts_us, flow, raw@, raw_truncate) is None,
        },
{
    if !looks_like_sip(raw) {
        return None;
    }
    let wire = match parse_wire(raw) {
        Some(w) => w,
        None => {
            return None;
        },
    };
    let via = match wire.header("Via") {
        Some(v) => first_via(v),
        None => None,
    };
    match &via {
        Some(v) => message_of(ts_us, flow, raw, raw_truncate, &wire, Some(v.as_str())),
        None => message_of(ts_us, flow, raw, raw_truncate, &wire, None),
    }
}

/// How much is kept of a message changes nothing but the bytes that are kept:
/// a limit cuts them short, and what the message says is read before that.
pub proof fn a_limit_cuts_only_what_is_kept(
    ts_us: u64,
    flow: Flow5Tuple,
    raw: Seq<u8>,
    limit: usize,
)
    ensures
        match (sip_message(ts_us, flow, raw, None), sip_message(ts_us, flow, raw, Some(limit))) {
            (Some(a), Some(b)) => {
                &&& a.raw == raw
                &&& b.raw == raw.take(
                    if raw.len() > limit {
                        limit as int
                    } else {
                        raw.len() as int
                    },
                )
                &&& b == (MsgModel { raw: b.raw, ..a })
                &&& a.ts_us == ts_us
                &&& a.flow == flow
            },
            (a, b) => a is None && b is None,
        },
        !sip_like(raw) ==> sip_message(ts_us, flow, raw, None) is None,
{
    assert(raw.take(raw.len() as int) =~= raw);
    assert(raw.len() > limit ==> raw.take(limit as int) =~= raw.subrange(0, limit as int));
}

/// The name that a method is written with.
pub open spec fn name_of(m: Method) -> Seq<char> {
    match m {
        Method::Invite => "INVITE"@,
        Method::Ack => "ACK"@,
        Method::Bye => "BYE"@,
        Method::Cancel => "CANCEL"@,
        Method::Register => "REGISTER"@,
        Method::Options => "OPTIONS"@,
        Method::Prack => "PRACK"@,
        Method::Update => "UPDATE"@,
        Method::Subscribe => "SUBSCRIBE"@,
        Method::Notify => "NOTIFY"@,
        Method::Publish => "PUBLISH"@,
        Method::Info => "INFO"@,
        Method::Refer => "REFER"@,
        Method::Message => "MESSAGE"@,
    }
}

/// The names of the methods differ, each from the others.
proof fn lemma_names_differ(m: Method, n: Method)
    requires
        m != n,
    ensures
        name_of(m) != name_of(n),
{
    reveal_strlit("INVITE");
    reveal_strlit("ACK");
    reveal_strlit("BYE");
    reveal_strlit("CANCEL");
    reveal_strlit("REGISTER");
    reveal_strlit("OPTIONS");
    reveal_strlit("PRACK");
    reveal_strlit("UPDATE");
    reveal_strlit("SUBSCRIBE");
    reveal_strlit("NOTIFY");
    reveal_strlit("PUBLISH");
    reveal_strlit("INFO");
    reveal_strlit("REFER");
    reveal_strlit("MESSAGE");
    let a = name_of(m);
    let b = name_of(n);
    assert(a.len() != b.len() || a[0] != b[0] || a[1] != b[1]);
}

/// Reading a method undoes writing it: from the name that a method is written with
/// that method is read and no other, and from any other name none.
pub proof fn reading_a_method_undoes_writing_it(m: Method, name: Seq<char>)
    ensures
        method_of(name_of(m)) == Some(m),
        method_of(name) == Some(m) <==> name == name_of(m),
        method_of(name) is None <==> forall|k: Method| name != #[trigger] name_of(k),
{
    assert forall|k: Method| method_of(#[trigger] name_of(k)) == Some(k) by {
        if k != Method::Invite {
            lemma_names_differ(k, Method::Invite);
        }
        if k != Method::Ack {
            lemma_names_differ(k, Method::Ack);
        }
        if k != Method::Bye {
            lemma_names_differ(k, Method::Bye);
        }
        if k != Method::Cancel {
            lemma_names_differ(k, Method::Cancel);
        }
        if k != Method::Register {
            lemma_names_differ(k, Method::Register);
        }
        if k != Method::Options {
            lemma_names_differ(k, Method::Options);
        }
        if k != Method::Prack {
            lemma_names_differ(k, Method::Prack);
        }
        if k != Method::Update {
            lemma_names_differ(k, Method::Update);
        }
        if k != Method::Subscribe {
            lemma_names_differ(k, Method::Subscribe);
        }
        if k != Method::Notify {
            lemma_names_differ(k, Method::Notify);
        }
        if k != Method::Publish {
            lemma_names_differ(k, Method::Publish);
        }
        if k != Method::Info {
            lemma_names_differ(k, Method::Info);
        }
        if k != Method::Refer {
            lemma_names_differ(k, Method::Refer);
        }
    }
    if method_of(name) is Some {
        assert(name == name_of(method_of(name)->0));
    }
}

/// A payload can be SIP where it is of eight bytes or more and starts like a
/// response, or with the name of a method and a blank.
pub proof fn sip_starts_with_its_version_or_a_method(p: Seq<u8>, m: Method)
    ensures
        p.len() < 8 ==> !sip_like(p),
        p.len() >= 8 && p[0] == 83 && p[1] == 73 && p[2] == 80 && p[3] == 47 ==> sip_like(p),
        p.len() >= 8 && p.len() > name_of(m).len() && p[name_of(m).len() as int] == 32 && (forall|
            i: int,
        |
            0 <= i < name_of(m).len() ==> (#[trigger] p[i]) as int == name_of(m)[i] as int)
            ==> sip_like(p),
{
    reveal_strlit("SIP/");
    assert('S' as int == 83 && 'I' as int == 73 && 'P' as int == 80 && '/' as int == 47);
    assert(p.len() >= 8 && p[0] == 83 && p[1] == 73 && p[2] == 80 && p[3] == 47 ==> starts(
        p,
        "SIP/"@,
    ));
    reveal_strlit("INVITE");
    reveal_strlit("ACK");
    reveal_strlit("BYE");
    reveal_strlit("CANCEL");
    reveal_strlit("REGISTER");
    reveal_strlit("OPTIONS");
    reveal_strlit("PRACK");
    reveal_strlit("UPDATE");
    reveal_strlit("SUBSCRIBE");
    reveal_strlit("NOTIFY");
    reveal_strlit("PUBLISH");
    reveal_strlit("INFO");
    reveal_strlit("REFER");
    reveal_strlit("MESSAGE");
    reveal_strlit("INVITE ");
    reveal_strlit("ACK ");
    reveal_strlit("BYE ");
    reveal_strlit("CANCEL ");
    reveal_strlit("REGISTER ");
    reveal_strlit("OPTIONS ");
    reveal_strlit("PRACK ");
    reveal_strlit("UPDATE ");
    reveal_strlit("SUBSCRIBE ");
    reveal_strlit("NOTIFY ");
    reveal_strlit("PUBLISH ");
    reveal_strlit("INFO ");
    reveal_strlit("REFER ");
    reveal_strlit("MESSAGE ");
    let k: int = match m {
        Method::Invite => 0,
        Method::Ack => 1,
        Method::Bye => 2,
        Method::Cancel => 3,
        Method::Register => 4,
        Method::Options => 5,
        Method::Prack => 6,
        Method::Update => 7,
        Method::Subscribe => 8,
        Method::Notify => 9,
        Method::Publish => 10,
        Method::Info => 11,
        Method::Refer => 12,
        Method::Message => 13,
    };
    let line = method_names()[k];
    let n = name_of(m);
    assert(line =~= n.push(' '));
    if p.len() >= 8 && p.len() > n.len() && p[n.len() as int] == 32 && forall|i: int|
        0 <= i < n.len() ==> (#[trigger] p[i]) as int == n[i] as int {
        assert(' ' as int == 32);
        assert forall|i: int| 0 <= i < line.len() implies (#[trigger] p[i]) as char == line[i] by {
            if i < n.len() {
                assert(line[i] == n[i]);
            }
        }
        assert(starts(p, method_names()[k]));
    }
}

/// Whether a header is the first that bears a name, the case ignored.
pub open spec fn first_named(
    headers: Seq<(Seq<char>, Seq<char>)>,
    name: Seq<char>,
    i: int,
) -> bool {
    &&& 0 <= i < headers.len()
    &&& fold_eq(headers[i].0, name)
    &&& forall|j: int| 0 <= j < i ==> !fold_eq((#[trigger] headers[j]).0, name)
}

/// Whether no header bears a name.
pub open spec fn none_named(headers: Seq<(Seq<char>, Seq<char>)>, name: Seq<char>) -> bool {
    forall|j: int| 0 <= j < headers.len() ==> !fold_eq((#[trigger] headers[j]).0, name)
}

proof fn lemma_header_value_from(
    headers: Seq<(Seq<char>, Seq<char>)>,
    name: Seq<char>,
    from: int,
)
    requires
        0 <= from <= headers.len(),
    ensures
        forall|i: int|
            from <= i < headers.len() && #[trigger] first_named(headers, name, i)
                ==> header_value_from(headers, name, from) == Some(headers[i].1),
        (forall|j: int| from <= j < headers.len() ==> !fold_eq((#[trigger] headers[j]).0, name))
            ==> header_value_from(headers, name, from) is None,
    decreases headers.len() - from,
{
    if from < headers.len() && !fold_eq(headers[from].0, name) {
        lemma_header_value_from(headers, name, from + 1);
    }
}

/// The value of a header is that of the first that bears its name.
pub proof fn a_header_is_the_first_of_its_name(w: WireModel, name: Seq<char>)
    ensures
        forall|i: int| #[trigger]
            first_named(w.headers, name, i) ==> header_value(w, name) == Some(w.headers[i].1),
        none_named(w.headers, name) ==> header_value(w, name) is None,
{
    lemma_header_value_from(w.headers, name, 0);
}

/// The headers of a name are counted one by one.
pub proof fn headers_are_counted_one_by_one(
    headers: Seq<(Seq<char>, Seq<char>)>,
    name: Seq<char>,
)
    ensures
        headers_named(headers, name, headers.len() as int) == headers.filter(
            |h: (Seq<char>, Seq<char>)| fold_eq(h.0, name),
        ).len(),
    decreases headers.len(),
{
    reveal(Seq::filter);
    if headers.len() > 0 {
        headers_are_counted_one_by_one(headers.drop_last(), name);
        lemma_counted_part(headers, headers.drop_last(), name, headers.len() - 1);
    }
}

proof fn lemma_counted_part(
    a: Seq<(Seq<char>, Seq<char>)>,
    b: Seq<(Seq<char>, Seq<char>)>,
    name: Seq<char>,
    n: int,
)
    requires
        0 <= n <= a.len(),
        n <= b.len(),
        forall|i: int| 0 <= i < n ==> #[trigger] a[i] == b[i],
    ensures
        headers_named(a, name, n) == headers_named(b, name, n),
    decreases n,
{
    if n > 0 {
        lemma_counted_part(a, b, name, n - 1);
    }
}

/// Trimming a value takes away the white space round it and nothing else.
pub proof fn trimming_takes_the_white_space_round_a_value(s: Seq<char>)
    ensures
        exists|lo: int, hi: int|
            {
                &&& 0 <= lo <= hi <= s.len()
                &&& trimmed(s) == #[trigger] s.subrange(lo, hi)
                &&& forall|i: int| 0 <= i < lo || hi <= i < s.len() ==> space(#[trigger] s[i])
                &&& lo < hi ==> !space(s[lo]) && !space(s[hi - 1])
            },
{
    let r = Range { lo: 0, hi: s.len() as int };
    trimming_takes_both_ends(s, Trim::Space, r);
    let t = r.trimmed(s, Trim::Space);
    assert(trimmed(s) == s.subrange(t.lo, t.hi));
}

/// A message is read where there is a Call-ID. Each of its fields comes from the
/// header of its own name, the first of them: the Call-ID, who it is from and to
/// with their tags, the sequence number and its method, and the contact. A header
/// that is missing leaves its fields empty. A request has a method and a response a
/// status; both come from the first line.
pub proof fn each_field_comes_from_its_header(
    ts_us: u64,
    flow: Flow5Tuple,
    raw: Seq<u8>,
    limit: Option<usize>,
    w: WireModel,
    top_via: Option<Seq<char>>,
)
    ensures
        ({
            let h = w.headers;
            let r = message_from(ts_us, flow, raw, limit, w, top_via);
            &&& none_named(h, "Call-ID"@) ==> r is None
            &&& forall|i: int| #[trigger]
                first_named(h, "Call-ID"@, i) ==> r is Some && r->0.call_id == trimmed(h[i].1)
            &&& r matches Some(m) ==> {
                &&& m.ts_us == ts_us && m.flow == flow && m.status == w.status
                &&& m.is_request <==> w.method is Some
                &&& w.method is None ==> m.method is None
                &&& w.method matches Some(name) ==> m.method == method_of(name)
                &&& forall|i: int| #[trigger]
                    first_named(h, "From"@, i) ==> m.from_uri == Some(trimmed(h[i].1)) && m.from_tag
                        == param_in(h[i].1, "tag"@)
                &&& none_named(h, "From"@) ==> m.from_uri is None && m.from_tag is None
                &&& forall|i: int| #[trigger]
                    first_named(h, "To"@, i) ==> m.to_uri == Some(trimmed(h[i].1)) && m.to_tag
                        == param_in(h[i].1, "tag"@)
                &&& none_named(h, "To"@) ==> m.to_uri is None && m.to_tag is None
                &&& forall|i: int| #[trigger]
                    first_named(h, "CSeq"@, i) ==> m.cseq == cseq_number_in(h[i].1)
                        && m.cseq_method == cseq_method_in(h[i].1)
                &&& none_named(h, "CSeq"@) ==> m.cseq is None && m.cseq_method is None
                &&& forall|i: int| #[trigger]
                    first_named(h, "Contact"@, i) ==> m.contact_addr == addr_of(h[i].1)
                &&& none_named(h, "Contact"@) ==> m.contact_addr is None
                &&& top_via matches Some(v) ==> m.branch == param_in(v, "branch"@)
                &&& top_via is None ==> m.branch is None
                &&& m.route_count == h.filter(
                    |x: (Seq<char>, Seq<char>)| fold_eq(x.0, "Route"@),
                ).len()
                &&& m.record_route_count == h.filter(
                    |x: (Seq<char>, Seq<char>)| fold_eq(x.0, "Record-Route"@),
                ).len()
                &&& limit is None ==> m.raw == raw
                &&& limit matches Some(n) ==> m.raw.len() <= n && m.raw == raw.take(
                    m.raw.len() as int,
                ) && (raw.len() <= n ==> m.raw == raw) && (raw.len() > n ==> m.raw.len() == n)
            }
        }),
{
    a_header_is_the_first_of_its_name(w, "Call-ID"@);
    a_header_is_the_first_of_its_name(w, "From"@);
    a_header_is_the_first_of_its_name(w, "To"@);
    a_header_is_the_first_of_its_name(w, "CSeq"@);
    a_header_is_the_first_of_its_name(w, "Contact"@);
    headers_are_counted_one_by_one(w.headers, "Route"@);
    headers_are_counted_one_by_one(w.headers, "Record-Route"@);
    if let Some(n) = limit {
        if raw.len() > n {
            assert(raw.subrange(0, n as int) =~= raw.take(n as int));
        } else {
            assert(raw.take(raw.len() as int) =~= raw);
        }
    }
}

/// A message carries SDP where its content type says so, where it has a header of
/// the compact name of that type, or where its body starts like SDP.
pub proof fn sdp_is_told_by_type_or_body(raw: Seq<u8>, w: WireModel)
    ensures
        forall|i: int| #[trigger]
            first_named(w.headers, "content-type"@, i) && fold_eq(
                trimmed(w.headers[i].1),
                "application/sdp"@,
            ) ==> carries_sdp(raw, w),
        forall|i: int| #[trigger] first_named(w.headers, "c"@, i) ==> carries_sdp(raw, w),
        forall|b: int|
            first_body(raw, b) && b + 3 <= raw.len() && raw[b] == 118 && #[trigger] raw[b + 1] == 61
                && raw[b + 2] == 48 ==> carries_sdp(raw, w),
        none_named(w.headers, "content-type"@) && none_named(w.headers, "c"@) && carries_sdp(raw, w)
            ==> exists|b: int|
            first_body(raw, b) && b + 3 <= raw.len() && raw[b] == 118 && #[trigger] raw[b + 1] == 61
                && raw[b + 2] == 48,
{
    a_header_is_the_first_of_its_name(w, "content-type"@);
    a_header_is_the_first_of_its_name(w, "c"@);
    lemma_body_start(raw, 0);
    assert('v' as int == 118 && '=' as int == 61 && '0' as int == 48);
    let b0 = body_start(raw, 0);
    assert forall|b: int|
        first_body(raw, b) && b + 3 <= raw.len() && raw[b] == 118 && #[trigger] raw[b + 1] == 61
            && raw[b + 2] == 48 implies carries_sdp(raw, w) by {
        assert(b == b0);
        assert(raw[b] as char == 'v' && raw[b + 1] as char == '=' && raw[b + 2] as char == '0');
        assert(sdp_body(raw));
    }
    if sdp_body(raw) {
        assert(raw[b0] as char == 'v' && raw[b0 + 1] as char == '=' && raw[b0 + 2] as char == '0');
        assert(first_body(raw, b0) && raw[b0 + 1] == 61);
    }
}

/// Whether an empty line ends at a place: two line breaks in a row stand before it.
pub open spec fn breaks_before(p: Seq<u8>, b: int) -> bool {
    4 <= b <= p.len() && p[b - 4] == 13 && p[b - 3] == 10 && p[b - 2] == 13 && p[b - 1] == 10
}

/// Whether the body of a message starts at a place: behind the first empty line.
pub open spec fn first_body(p: Seq<u8>, b: int) -> bool {
    breaks_before(p, b) && forall|c: int| 0 <= c < b ==> !#[trigger] breaks_before(p, c)
}

proof fn lemma_body_start(p: Seq<u8>, i: int)
    requires
        0 <= i <= p.len(),
        forall|c: int| 0 <= c < i + 4 ==> !#[trigger] breaks_before(p, c),
    ensures
        forall|b: int| #[trigger] first_body(p, b) ==> body_start(p, i) == b,
        body_start(p, i) < p.len() ==> first_body(p, body_start(p, i)),
        body_start(p, i) <= p.len(),
    decreases p.len() - i,
{
    if i + 4 > p.len() {
        assert forall|b: int| #[trigger] first_body(p, b) implies false by {
            assert(breaks_before(p, b));
        }
    } else if p[i] == 13 && p[i + 1] == 10 && p[i + 2] == 13 && p[i + 3] == 10 {
        assert(breaks_before(p, i + 4));
        assert(first_body(p, i + 4));
    } else {
        assert(!breaks_before(p, i + 4));
        lemma_body_start(p, i + 1);
    }
}

/// A sequence header is a number and a method: its first word and its second.
pub proof fn a_sequence_is_a_number_and_a_method(s: Seq<char>, a: int, b: int, c: int, d: int)
    requires
        0 <= a < b < c < d <= s.len(),
        forall|i: int| 0 <= i < a || b <= i < c ==> space(#[trigger] s[i]),
        forall|i: int| a <= i < b || c <= i < d ==> !space(#[trigger] s[i]),
        d < s.len() ==> space(s[d]),
    ensures
        cseq_number_in(s) == u32_of(s, Range { lo: a, hi: b }),
        cseq_method_in(s) == Some(s.subrange(c, d)),
{
    a_word_is_a_run_without_white_space(s, 0);
    assert(!space(s[a]));
    let w = word_from(s, 0)->0;
    assert(w.lo == a) by {
        if w.lo < a {
            assert(space(s[w.lo]));
        } else if w.lo > a {
            assert(space(s[a]));
        }
    }
    assert(w.hi == b) by {
        if w.hi < b {
            assert(space(s[w.hi]));
        } else if w.hi > b {
            assert(!space(s[b]));
        }
    }
    a_word_is_a_run_without_white_space(s, b);
    assert(!space(s[c]));
    let v = word_from(s, b)->0;
    assert(v.lo == c) by {
        if v.lo < c {
            assert(space(s[v.lo]));
        } else if v.lo > c {
            assert(space(s[c]));
        }
    }
    assert(v.hi == d) by {
        if v.hi < d {
            assert(space(s[v.hi]));
        } else if v.hi > d {
            assert(!space(s[d]));
        }
    }
}

/// Outside quotes a value ends at the first comma, or with the text.
pub proof fn a_value_ends_at_its_comma(s: Seq<char>, i: int, end: int)
    requires
        0 <= i <= end <= s.len(),
        forall|j: int| i <= j < end ==> (#[trigger] s[j]) as int != 34 && s[j] as int != 44,
        end < s.len() ==> s[end] as int == 44,
    ensures
        value_end(s, i, false) == Some(end),
    decreases end - i,
{
    assert('"' as int == 34 && ',' as int == 44);
    if i < end {
        a_value_ends_at_its_comma(s, i + 1, end);
    }
}

/// Inside quotes commas do not end a value: it goes on behind the closing quote, and
/// there is none where the quote is never closed.
pub proof fn a_quote_hides_its_commas(s: Seq<char>, i: int, end: int)
    requires
        0 <= i <= end <= s.len(),
        forall|j: int| i <= j < end ==> (#[trigger] s[j]) as int != 34 && s[j] as int != 92,
        end < s.len() ==> s[end] as int == 34,
    ensures
        end < s.len() ==> value_end(s, i, true) == value_end(s, end + 1, false),
        end == s.len() ==> value_end(s, i, true) is None,
        i > 0 && s[i - 1] as int == 34 ==> value_end(s, i - 1, false) == value_end(s, i, true),
    decreases end - i,
{
    assert('"' as int == 34 && '\\' as int == 92);
    if i < end {
        a_quote_hides_its_commas(s, i + 1, end);
    }
}

/// The first of the values of a Via header: all of it where it has one value, and
/// what stands before the comma where it has more.
pub proof fn the_first_via_is_the_first_value(value: Seq<char>)
    ensures
        ({
            let all = trimmed(value);
            match value_end(all, 0, false) {
                None => via_first(value) is None,
                Some(n) => {
                    &&& n == all.len() && all.len() > 0 ==> via_first(value) == Some(all)
                    &&& n < all.len() && trimmed(all.take(n)).len() > 0 ==> via_first(value) == Some(
                        trimmed(all.take(n)),
                    )
                    &&& via_first(value) matches Some(v) ==> v.len() > 0
                },
            }
        }),
{
}

/// The branch of a message is that of the first value of its first Via.
pub proof fn the_branch_is_of_the_first_via(
    ts_us: u64,
    flow: Flow5Tuple,
    raw: Seq<u8>,
    limit: Option<usize>,
    w: WireModel,
    i: int,
)
    requires
        sip_like(raw),
        wire_message(raw) == Some(w),
        first_named(w.headers, "Via"@, i),
        !none_named(w.headers, "Call-ID"@),
    ensures
        sip_message(ts_us, flow, raw, limit) is Some,
        via_first(w.headers[i].1) matches Some(v) ==> sip_message(ts_us, flow, raw, limit)->0.branch
            == param_in(v, "branch"@),
        via_first(w.headers[i].1) is None ==> sip_message(ts_us, flow, raw, limit)->0.branch is None,
{
    a_header_is_the_first_of_its_name(w, "Via"@);
    lemma_some_named(w.headers, "Call-ID"@, 0);
}

proof fn lemma_some_named(headers: Seq<(Seq<char>, Seq<char>)>, name: Seq<char>, from: int)
    requires
        0 <= from <= headers.len(),
        exists|j: int| from <= j < headers.len() && fold_eq((#[trigger] headers[j]).0, name),
    ensures
        header_value_from(headers, name, from) is Some,
    decreases headers.len() - from,
{
    if !fold_eq(headers[from].0, name) {
        lemma_some_named(headers, name, from + 1);
    }
}

/// A character behind a backslash in quotes is passed over with it.
pub proof fn an_escaped_character_ends_no_quote(s: Seq<char>, i: int)
    requires
        0 <= i < s.len(),
        s[i] as int == 92,
    ensures
        i + 1 < s.len() ==> value_end(s, i, true) == value_end(s, i + 2, true),
        i + 1 == s.len() ==> value_end(s, i, true) is None,
        value_end(s, i, false) == value_end(s, i + 1, false),
{
    assert('"' as int == 34 && '\\' as int == 92 && ',' as int == 44);
}

/// A message of another content type does not carry SDP, unless its body starts like
/// it or a header of the compact name says so.
pub proof fn another_type_is_no_sdp(raw: Seq<u8>, w: WireModel, i: int)
    requires
        first_named(w.headers, "content-type"@, i),
        !fold_eq(trimmed(w.headers[i].1), "application/sdp"@),
        none_named(w.headers, "c"@),
        forall|b: int| #[trigger]
            first_body(raw, b) && b + 3 <= raw.len() ==> !(raw[b] == 118 && raw[b + 1] == 61 && raw[b
                + 2] == 48),
    ensures
        !carries_sdp(raw, w),
{
    a_header_is_the_first_of_its_name(w, "content-type"@);
    a_header_is_the_first_of_its_name(w, "c"@);
    lemma_body_start(raw, 0);
    assert('v' as int == 118 && '=' as int == 61 && '0' as int == 48);
    let b = body_start(raw, 0);
    if sdp_body(raw) {
        assert(raw[b] as char == 'v' && raw[b + 1] as char == '=' && raw[b + 2] as char == '0');
        assert(first_body(raw, b));
    }
}

} // verus!
