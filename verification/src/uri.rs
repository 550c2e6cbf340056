//! The parts of an address header value, and the attributes of a header.
use crate::addr::SocketAddr;
use crate::endpoint::{read_sock, sock_in};
use crate::text::{
    a_search_ends_at_the_first, a_search_from_the_back_ends_at_the_last, after_last, chars_of,
    find_any, find_in, is_at, letters_at, rfind_in, space, stands_at, stands_where_its_letters_do,
    trim_span, trimming_takes_both_ends, Range, Span, Trim,
};
use vstd::prelude::*;
use vstd::string::StrSliceExecFns;
use vstd::utf8::{decode_utf8, valid_utf8};

verus! {

/// The characters that end an attribute value.
pub open spec fn value_ends() -> Seq<char> {
    seq![';', ' ', '\t', '\r', '\n']
}

/// The span between the first `<` and the `>` after it; the whole text where
/// it has no `<`.
pub open spec fn bracketed(s: Seq<char>) -> Range {
    let a = find_in(s, seq!['<'], 0, s.len() as int);
    if a < s.len() {
        (Range { lo: a + 1, hi: s.len() as int }).until(s, seq!['>'])
    } else {
        Range { lo: 0, hi: s.len() as int }
    }
}

/// Where a `sips:` or `sip:` scheme at the start of a span ends.
pub open spec fn after_scheme(s: Seq<char>, r: Range) -> int {
    if stands_at(s, "sips:"@, false, r.lo, r.hi) {
        r.lo + 5
    } else if stands_at(s, "sip:"@, false, r.lo, r.hi) {
        r.lo + 4
    } else {
        r.lo
    }
}

/// The span of `user@host` in an address header value: what stands in angle
/// brackets, without the scheme and without parameters.
pub open spec fn addr_spec(s: Seq<char>) -> Range {
    let r = bracketed(s);
    (Range { lo: after_scheme(s, r), hi: r.hi }).until(s, seq![';'])
}

/// The span of the user part: what stands before the last `@`, or everything
/// where there is none, without white space around it.
pub open spec fn user_span(s: Seq<char>) -> Range {
    let r = addr_spec(s);
    let at = rfind_in(s, '@', r.lo, r.hi);
    let hi = if at >= r.lo {
        at
    } else {
        r.hi
    };
    (Range { lo: r.lo, hi }).trimmed(s, Trim::Space)
}

/// The span of host and port: what stands after the last `@`, or everything
/// where there is none, without white space around it.
pub open spec fn host_span(s: Seq<char>) -> Range {
    let r = addr_spec(s);
    (Range { lo: rfind_in(s, '@', r.lo, r.hi) + 1, hi: r.hi }).trimmed(s, Trim::Space)
}

/// The user that an address header value names.
pub open spec fn user_in(s: Seq<char>) -> Option<Seq<char>> {
    let r = user_span(s);
    if r.lo < r.hi {
        Some(r.of(s))
    } else {
        None
    }
}

/// Whether an attribute can start at position `at` of a span: at the start, or
/// after a character that ends a value.
pub open spec fn attr_start(s: Seq<char>, r: Range, at: int) -> bool {
    at == r.lo || value_ends().contains(s[at - 1])
}

/// The first position from `at` on at which an attribute starts with `needle`;
/// none where there is none in the span.
pub open spec fn find_attr(s: Seq<char>, needle: Seq<char>, any_case: bool, r: Range, at: int) -> Option<
    int,
>
    decreases r.hi - at + 1,
{
    if at > r.hi {
        None
    } else if attr_start(s, r, at) && stands_at(s, needle, any_case, at, r.hi) {
        Some(at)
    } else {
        find_attr(s, needle, any_case, r, at + 1)
    }
}

/// Where a text in double quotes ends: the first double quote from `at` on that
/// no backslash stands before, else `hi`.
pub open spec fn closing_quote(s: Seq<char>, at: int, hi: int) -> int
    decreases hi - at,
{
    if at >= hi {
        hi
    } else if s[at] == '"' {
        at
    } else if s[at] == '\\' && at + 1 < hi {
        closing_quote(s, at + 2, hi)
    } else {
        closing_quote(s, at + 1, hi)
    }
}

/// The span of an attribute value: what stands in double quotes where it starts
/// with one that is closed, else everything up to the next `;`, blank or line
/// end, without double quotes around it.
pub open spec fn value_span(s: Seq<char>, r: Range) -> Range {
    if r.lo < r.hi && s[r.lo] == '"' && closing_quote(s, r.lo + 1, r.hi) < r.hi {
        Range { lo: r.lo + 1, hi: closing_quote(s, r.lo + 1, r.hi) }
    } else {
        r.until(s, value_ends()).trimmed(s, Trim::Quote)
    }
}

/// The span of the value of the first attribute `name=` in a span.
pub open spec fn attr_span(s: Seq<char>, name: Seq<char>, any_case: bool, r: Range) -> Option<
    Range,
> {
    match find_attr(s, name.push('='), any_case, r, r.lo) {
        Some(at) => Some(value_span(s, Range { lo: at + name.len() + 1, hi: r.hi })),
        None => None,
    }
}

/// The value of the attribute `name=` in a text, the case of the name ignored.
pub open spec fn param_in(s: Seq<char>, name: Seq<char>) -> Option<Seq<char>> {
    match attr_span(s, name, true, Range { lo: 0, hi: s.len() as int }) {
        Some(r) => Some(r.of(s)),
        None => None,
    }
}

fn addr_spec_span(s: &Vec<char>) -> (r: Span)
    ensures
        r@ == addr_spec(s@),
        r@.within(s@.len()),
{
    let n = s.len();
    let a = find_any(s, &['<'], 0, n);
    let (lo, hi) = if a < n {
        (a + 1, find_any(s, &['>'], a + 1, n))
    } else {
        (0, n)
    };
    let sips = chars_of("sips:");
    let sip = chars_of("sip:");
    proof {
        reveal_strlit("sips:");
        reveal_strlit("sip:");
        assert(['<']@ =~= seq!['<']);
        assert(['>']@ =~= seq!['>']);
        assert([';']@ =~= seq![';']);
    }
    let start: usize = if is_at(s, &sips, false, lo, hi) {
        lo + 5
    } else if is_at(s, &sip, false, lo, hi) {
        lo + 4
    } else {
        lo
    };
    Span { lo: start, hi: find_any(s, &[';'], start, hi) }
}

/// Extracts the user part of a From or To header value.
pub fn user_of(value: &str) -> (r: Option<String>)
    ensures
        match r {
            Some(t) => user_in(value@) == Some(t@),
            None => user_in(value@) is None,
        },
{
    let s = chars_of(value);
    let a = addr_spec_span(&s);
    let at = after_last(&s, '@', a.lo, a.hi);
    let hi: usize = if at > a.lo {
        at - 1
    } else {
        a.hi
    };
    let u = trim_span(&s, Trim::Space, Span { lo: a.lo, hi });
    if u.lo < u.hi {
        Some(value.substring_char(u.lo, u.hi).to_owned())
    } else {
        None
    }
}

/// Extracts the host and port that an address header value names.
pub fn host_of(value: &str) -> (r: &str)
    ensures
        r@ == host_span(value@).of(value@),
{
    let s = chars_of(value);
    let a = addr_spec_span(&s);
    let at = after_last(&s, '@', a.lo, a.hi);
    let h = trim_span(&s, Trim::Space, Span { lo: at, hi: a.hi });
    value.substring_char(h.lo, h.hi)
}

fn is_value_end(c: char) -> (r: bool)
    ensures
        r == value_ends().contains(c),
{
    proof {
        let ends = value_ends();
        assert(ends[0] == ';' && ends[1] == ' ' && ends[2] == '\t' && ends[3] == '\r' && ends[4]
            == '\n');
    }
    c == ';' || c == ' ' || c == '\t' || c == '\r' || c == '\n'
}

fn attr_at(s: &Vec<char>, needle: &Vec<char>, any_case: bool, lo: usize, hi: usize) -> (p: Option<
    usize,
>)
    requires
        lo <= hi <= s@.len(),
    ensures
        ({
            let r = Range { lo: lo as int, hi: hi as int };
            match p {
                Some(at) => {
                    &&& find_attr(s@, needle@, any_case, r, lo as int) == Some(at as int)
                    &&& lo <= at
                    &&& at + needle@.len() <= hi
                },
                None => find_attr(s@, needle@, any_case, r, lo as int) is None,
            }
        }),
{
    let ghost r = Range { lo: lo as int, hi: hi as int };
    let mut at: usize = lo;
    loop
        invariant
            lo <= at <= hi <= s@.len(),
            r == (Range { lo: lo as int, hi: hi as int }),
            find_attr(s@, needle@, any_case, r, lo as int) == find_attr(
                s@,
                needle@,
                any_case,
                r,
                at as int,
            ),
        decreases hi - at,
    {
        if (at == lo || is_value_end(s[at - 1])) && is_at(s, needle, any_case, at, hi) {
            return Some(at);
        }
        if at == hi {
            assert(find_attr(s@, needle@, any_case, r, at + 1) is None);
            return None;
        }
        at += 1;
    }
}

fn quote_end(s: &Vec<char>, lo: usize, hi: usize) -> (r: usize)
    requires
        lo <= hi <= s@.len(),
    ensures
        r == closing_quote(s@, lo as int, hi as int),
        lo <= r <= hi,
{
    let mut i: usize = lo;
    while i < hi && s[i] != '"'
        invariant
            lo <= i <= hi <= s@.len(),
            closing_quote(s@, lo as int, hi as int) == closing_quote(s@, i as int, hi as int),
        decreases hi - i,
    {
        if s[i] == '\\' && hi - i >= 2 {
            i += 2;
        } else {
            i += 1;
        }
    }
    i
}

fn value_at(s: &Vec<char>, lo: usize, hi: usize) -> (r: Span)
    requires
        lo <= hi <= s@.len(),
    ensures
        r@ == value_span(s@, Range { lo: lo as int, hi: hi as int }),
        lo <= r.lo <= r.hi <= hi,
{
    if lo < hi && s[lo] == '"' {
        let end = quote_end(s, lo + 1, hi);
        if end < hi {
            return Span { lo: lo + 1, hi: end };
        }
    }
    let end = find_any(s, &[';', ' ', '\t', '\r', '\n'], lo, hi);
    assert([';', ' ', '\t', '\r', '\n']@ =~= value_ends());
    trim_span(s, Trim::Quote, Span { lo, hi: end })
}

/// The address and port that an address header value names.
pub open spec fn addr_of(s: Seq<char>) -> Option<SocketAddr> {
    let h = host_span(s).of(s);
    sock_in(h, Range { lo: 0, hi: h.len() as int })
}

/// Extracts the address and port that an address header value names; none where
/// it names a host otherwise, or no port.
pub fn extract_sockaddr(value: &str) -> (r: Option<SocketAddr>)
    ensures
        r == addr_of(value@),
{
    read_sock(host_of(value))
}

/// Finds the value of the first attribute `name=` in a span.
pub fn attr_value(s: &Vec<char>, name: &str, any_case: bool, r: Span) -> (v: Option<Span>)
    requires
        r@.within(s@.len()),
    ensures
        match v {
            Some(x) => {
                &&& attr_span(s@, name@, any_case, r@) == Some(x@)
                &&& x@.within(s@.len())
            },
            None => attr_span(s@, name@, any_case, r@) is None,
        },
{
    let mut needle = chars_of(name);
    needle.push('=');
    match attr_at(s, &needle, any_case, r.lo, r.hi) {
        None => None,
        Some(at) => Some(value_at(s, at + needle.len(), r.hi)),
    }
}

/// Extracts the value of a `name=value` parameter of a header value. The case
/// of the name is ignored.
pub fn param<'a>(value: &'a str, name: &str) -> (r: Option<&'a str>)
    ensures
        match r {
            Some(t) => param_in(value@, name@) == Some(t@),
            None => param_in(value@, name@) is None,
        },
{
    let s = chars_of(value);
    match attr_value(&s, name, true, Span { lo: 0, hi: s.len() }) {
        Some(v) => Some(value.substring_char(v.lo, v.hi)),
        None => None,
    }
}

/// `core::str::from_utf8`: the text that the bytes encode, where they are
/// valid UTF-8.
#[verifier::external_body]
pub(crate) fn utf8_text(raw: &[u8]) -> (r: Option<&str>)
    ensures
        match r {
            Some(t) => valid_utf8(raw@) && t@ == decode_utf8(raw@),
            None => !valid_utf8(raw@),
        },
{
    core::str::from_utf8(raw).ok()
}

/// Whether a character ends an attribute value: a semicolon or white space.
pub open spec fn ends_value(c: char) -> bool {
    c as int == 59 || c as int == 32 || c as int == 9 || c as int == 13 || c as int == 10
}

/// Values end at a semicolon, a blank, a tab, a carriage return or a line feed.
pub proof fn values_end_at_separators(c: char)
    ensures
        value_ends().contains(c) <==> ends_value(c),
{
    let e = value_ends();
    assert(e[0] as int == 59 && e[1] as int == 32 && e[2] as int == 9 && e[3] as int == 13 && e[4] as int == 10);
    if ends_value(c) {
        assert(c == e[0] || c == e[1] || c == e[2] || c == e[3] || c == e[4]);
    }
}

/// Whether an attribute with a value starts at a place of a header: its name and an
/// equals sign stand there, at the start or behind a separator.
pub open spec fn named_at(s: Seq<char>, name: Seq<char>, any_case: bool, r: Range, at: int) -> bool {
    &&& r.lo <= at <= r.hi
    &&& at == r.lo || ends_value(s[at - 1])
    &&& letters_at(s, name.push('='), any_case, at, r.hi)
}

/// The search for an attribute ends at the first.
proof fn lemma_find_attr(s: Seq<char>, name: Seq<char>, any_case: bool, r: Range, from: int)
    requires
        r.within(s.len()),
        r.lo <= from <= r.hi,
    ensures
        ({
            let f = find_attr(s, name.push('='), any_case, r, from);
            &&& f matches Some(at) ==> from <= at && named_at(s, name, any_case, r, at) && forall|
                b: int,
            |
                from <= b < at ==> !#[trigger] named_at(s, name, any_case, r, b)
            &&& f is None ==> forall|b: int|
                from <= b <= r.hi ==> !#[trigger] named_at(s, name, any_case, r, b)
        }),
    decreases r.hi - from,
{
    stands_where_its_letters_do(s, name.push('='), any_case, from, r.hi);
    if from > r.lo {
        values_end_at_separators(s[from - 1]);
    }
    if !named_at(s, name, any_case, r, from) {
        if from < r.hi {
            lemma_find_attr(s, name, any_case, r, from + 1);
        } else {
            assert(find_attr(s, name.push('='), any_case, r, from + 1) is None);
        }
    }
}

/// An attribute is the first that bears its name. Without quotes its value goes up
/// to the next separator or the end. Where none bears the name, there is no value.
pub proof fn an_attribute_is_read_up_to_the_separator(
    s: Seq<char>,
    name: Seq<char>,
    any_case: bool,
    r: Range,
    at: int,
    end: int,
)
    requires
        r.within(s.len()),
        named_at(s, name, any_case, r, at),
        forall|b: int| r.lo <= b < at ==> !#[trigger] named_at(s, name, any_case, r, b),
        at + name.len() + 1 <= end <= r.hi,
        forall|i: int|
            at + name.len() + 1 <= i < end ==> !ends_value(#[trigger] s[i]) && s[i] as int != 34,
        end < r.hi ==> ends_value(s[end]),
    ensures
        attr_span(s, name, any_case, r) == Some(Range { lo: at + name.len() + 1, hi: end }),
{
    assert('"' as int == 34);
    lemma_find_attr(s, name, any_case, r, r.lo);
    let f = find_attr(s, name.push('='), any_case, r, r.lo);
    assert(f is Some);
    let lo = at + name.len() + 1;
    assert(f == Some(at));
    let v = Range { lo, hi: r.hi };
    a_search_ends_at_the_first(s, value_ends(), lo, r.hi);
    let e = find_in(s, value_ends(), lo, r.hi);
    assert(e == end) by {
        if e < end {
            values_end_at_separators(s[e]);
        }
        if end < e {
            values_end_at_separators(s[end]);
        }
    }
    let u = Range { lo, hi: end };
    assert(v.until(s, value_ends()) == u);
    trimming_takes_both_ends(s, Trim::Quote, u);
    let t = u.trimmed(s, Trim::Quote);
    assert(t.lo == lo) by {
        if t.lo > lo {
            assert(s[lo] as int == 34);
        }
    }
    assert(t.hi == end) by {
        if t.hi < end {
            assert(s[t.hi] as int == 34);
        }
    }
    if lo < r.hi && s[lo] == '"' {
        assert(lo < end ==> s[lo] as int != 34);
        assert(ends_value(s[end]));
    }
}

/// The closing quote is the next quote, where nothing is escaped before it.
proof fn lemma_closing_quote(s: Seq<char>, at: int, end: int, hi: int)
    requires
        0 <= at <= end < hi <= s.len(),
        s[end] as int == 34,
        forall|i: int| at <= i < end ==> (#[trigger] s[i]) as int != 34 && s[i] as int != 92,
    ensures
        closing_quote(s, at, hi) == end,
    decreases end - at,
{
    assert('"' as int == 34 && '\\' as int == 92);
    if at < end {
        lemma_closing_quote(s, at + 1, end, hi);
    }
}

/// The value of an attribute in quotes is what stands between them, separators
/// too.
pub proof fn a_quoted_attribute_is_read_up_to_the_quote(
    s: Seq<char>,
    name: Seq<char>,
    any_case: bool,
    r: Range,
    at: int,
    end: int,
)
    requires
        r.within(s.len()),
        named_at(s, name, any_case, r, at),
        forall|b: int| r.lo <= b < at ==> !#[trigger] named_at(s, name, any_case, r, b),
        at + name.len() + 2 <= end < r.hi,
        s[at + name.len() + 1] as int == 34,
        s[end] as int == 34,
        forall|i: int|
            at + name.len() + 2 <= i < end ==> (#[trigger] s[i]) as int != 34 && s[i] as int != 92,
    ensures
        attr_span(s, name, any_case, r) == Some(Range { lo: at + name.len() + 2, hi: end }),
{
    assert('"' as int == 34);
    lemma_find_attr(s, name, any_case, r, r.lo);
    assert(find_attr(s, name.push('='), any_case, r, r.lo) == Some(at));
    lemma_closing_quote(s, at + name.len() + 2, end, r.hi);
}

/// There is no value where no attribute bears the name.
pub proof fn a_missing_attribute_has_no_value(
    s: Seq<char>,
    name: Seq<char>,
    any_case: bool,
    r: Range,
)
    requires
        r.within(s.len()),
        forall|b: int| r.lo <= b <= r.hi ==> !#[trigger] named_at(s, name, any_case, r, b),
    ensures
        attr_span(s, name, any_case, r) is None,
{
    lemma_find_attr(s, name, any_case, r, r.lo);
}

/// A parameter of a header is its attribute of that name, the case ignored.
pub proof fn a_parameter_is_an_attribute(s: Seq<char>, name: Seq<char>)
    ensures
        ({
            let a = attr_span(s, name, true, Range { lo: 0, hi: s.len() as int });
            &&& a is None <==> param_in(s, name) is None
            &&& a matches Some(v) ==> param_in(s, name) == Some(s.subrange(v.lo, v.hi))
        }),
{
}

/// A search for one character ends at the place that is the first to hold it.
proof fn lemma_first_place(s: Seq<char>, c: char, lo: int, hi: int, at: int)
    requires
        0 <= lo <= at <= hi <= s.len(),
        at < hi ==> s[at] == c,
        forall|i: int| lo <= i < at ==> #[trigger] s[i] != c,
    ensures
        find_in(s, seq![c], lo, hi) == at,
{
    let stops = seq![c];
    assert(stops[0] == c);
    assert(stops.contains(c));
    a_search_ends_at_the_first(s, stops, lo, hi);
    let f = find_in(s, stops, lo, hi);
    if f < at {
        assert(stops.contains(s[f]));
        assert(s[f] == c);
    } else if at < f {
        assert(!stops.contains(s[at]));
    }
}

/// Of an address in angle brackets, the user stands between the scheme and the last
/// at sign before the bracket or the parameters, and the host behind it. The scheme
/// may be missing.
pub proof fn an_address_is_user_at_host(
    s: Seq<char>,
    open: int,
    start: int,
    at: int,
    end: int,
    close: int,
)
    requires
        0 <= open < start < at < end <= close <= s.len(),
        at + 1 < end,
        s[open] == '<',
        s[at] == '@',
        close < s.len() ==> s[close] == '>',
        end < close ==> s[end] == ';',
        forall|i: int| 0 <= i < open ==> #[trigger] s[i] != '<',
        forall|i: int| open < i < close ==> #[trigger] s[i] != '>',
        forall|i: int| start <= i < end ==> #[trigger] s[i] != ';' && !space(s[i]),
        forall|i: int| at < i < end ==> #[trigger] s[i] != '@',
        s.subrange(open + 1, start) == "sip:"@ || s.subrange(open + 1, start) == "sips:"@,
    ensures
        user_in(s) == Some(s.subrange(start, at)),
        host_span(s) == (Range { lo: at + 1, hi: end }),
{
    reveal_strlit("sip:");
    reveal_strlit("sips:");
    let n = s.len() as int;
    lemma_first_place(s, '<', 0, n, open);
    lemma_first_place(s, '>', open + 1, n, close);
    let b = bracketed(s);
    assert(b == (Range { lo: open + 1, hi: close }));
    let cut = s.subrange(open + 1, start);
    stands_where_its_letters_do(s, "sip:"@, false, open + 1, close);
    stands_where_its_letters_do(s, "sips:"@, false, open + 1, close);
    assert forall|i: int| 0 <= i < cut.len() implies s[open + 1 + i] == #[trigger] cut[i] by {}
    if cut == "sip:"@ {
        assert(s[open + 1 + 3] == cut[3]);
        assert("sips:"@[3] == 's');
        assert(!letters_at(s, "sips:"@, false, open + 1, close));
        assert(forall|i: int| 0 <= i < 4 ==> s[open + 1 + i] == #[trigger] "sip:"@[i]);
    } else {
        assert(forall|i: int| 0 <= i < 5 ==> s[open + 1 + i] == #[trigger] "sips:"@[i]);
    }
    assert(after_scheme(s, b) == start);
    lemma_first_place(s, ';', start, close, end);
    assert(addr_spec(s) == (Range { lo: start, hi: end }));
    a_search_from_the_back_ends_at_the_last(s, '@', start, end);
    assert(rfind_in(s, '@', start, end) == at);
    let u = Range { lo: start, hi: at };
    let h = Range { lo: at + 1, hi: end };
    trimming_takes_both_ends(s, Trim::Space, u);
    trimming_takes_both_ends(s, Trim::Space, h);
    assert(!space(s[start]) && !space(s[at - 1]) && !space(s[at + 1]) && !space(s[end - 1]));
    assert(u.trimmed(s, Trim::Space) == u) by {
        let t = u.trimmed(s, Trim::Space);
        if t.lo > u.lo {
            assert(space(s[u.lo]));
        }
        if t.hi < u.hi {
            assert(space(s[u.hi - 1]));
        }
    }
    assert(h.trimmed(s, Trim::Space) == h) by {
        let t = h.trimmed(s, Trim::Space);
        if t.lo > h.lo {
            assert(space(s[h.lo]));
        }
        if t.hi < h.hi {
            assert(space(s[h.hi - 1]));
        }
    }
}

/// An address without angle brackets is read in the same way from its start.
pub proof fn a_bare_address_is_user_at_host(s: Seq<char>, start: int, at: int, end: int)
    requires
        0 <= start < at < end <= s.len(),
        at + 1 < end,
        s[at] == '@',
        end < s.len() ==> s[end] == ';',
        forall|i: int| 0 <= i < s.len() ==> #[trigger] s[i] != '<',
        forall|i: int| start <= i < end ==> #[trigger] s[i] != ';' && !space(s[i]),
        forall|i: int| at < i < end ==> #[trigger] s[i] != '@',
        s.subrange(0, start) == "sip:"@ || s.subrange(0, start) == "sips:"@,
    ensures
        user_in(s) == Some(s.subrange(start, at)),
        host_span(s) == (Range { lo: at + 1, hi: end }),
{
    reveal_strlit("sip:");
    reveal_strlit("sips:");
    let n = s.len() as int;
    lemma_first_place(s, '<', 0, n, n);
    let b = bracketed(s);
    assert(b == (Range { lo: 0, hi: n }));
    let cut = s.subrange(0, start);
    stands_where_its_letters_do(s, "sip:"@, false, 0, n);
    stands_where_its_letters_do(s, "sips:"@, false, 0, n);
    assert forall|i: int| 0 <= i < cut.len() implies s[0 + i] == #[trigger] cut[i] by {}
    if cut == "sip:"@ {
        assert(s[3] == cut[3]);
        assert("sips:"@[3] == 's');
        assert(!letters_at(s, "sips:"@, false, 0, n));
        assert(forall|i: int| 0 <= i < 4 ==> s[0 + i] == #[trigger] "sip:"@[i]);
    } else {
        assert(forall|i: int| 0 <= i < 5 ==> s[0 + i] == #[trigger] "sips:"@[i]);
    }
    assert(after_scheme(s, b) == start);
    lemma_first_place(s, ';', start, n, end);
    assert(addr_spec(s) == (Range { lo: start, hi: end }));
    a_search_from_the_back_ends_at_the_last(s, '@', start, end);
    assert(rfind_in(s, '@', start, end) == at);
    let u = Range { lo: start, hi: at };
    let h = Range { lo: at + 1, hi: end };
    trimming_takes_both_ends(s, Trim::Space, u);
    trimming_takes_both_ends(s, Trim::Space, h);
    assert(u.trimmed(s, Trim::Space) == u) by {
        let t = u.trimmed(s, Trim::Space);
        if t.lo > u.lo {
            assert(space(s[u.lo]));
        }
        if t.hi < u.hi {
            assert(space(s[u.hi - 1]));
        }
    }
    assert(h.trimmed(s, Trim::Space) == h) by {
        let t = h.trimmed(s, Trim::Space);
        if t.lo > h.lo {
            assert(space(s[h.lo]));
        }
        if t.hi < h.hi {
            assert(space(s[h.hi - 1]));
        }
    }
}

/// Where the part of an address behind the scheme lies.
proof fn lemma_addr_spec(s: Seq<char>, open: int, start: int, end: int, close: int)
    requires
        0 <= open < start <= end <= close <= s.len(),
        s[open] == '<',
        close < s.len() ==> s[close] == '>',
        end < close ==> s[end] == ';',
        forall|i: int| 0 <= i < open ==> #[trigger] s[i] != '<',
        forall|i: int| open < i < close ==> #[trigger] s[i] != '>',
        forall|i: int| start <= i < end ==> #[trigger] s[i] != ';',
        s.subrange(open + 1, start) == "sip:"@ || s.subrange(open + 1, start) == "sips:"@,
    ensures
        addr_spec(s) == (Range { lo: start, hi: end }),
{
    reveal_strlit("sip:");
    reveal_strlit("sips:");
    let n = s.len() as int;
    lemma_first_place(s, '<', 0, n, open);
    lemma_first_place(s, '>', open + 1, n, close);
    let b = bracketed(s);
    assert(b == (Range { lo: open + 1, hi: close }));
    let cut = s.subrange(open + 1, start);
    stands_where_its_letters_do(s, "sip:"@, false, open + 1, close);
    stands_where_its_letters_do(s, "sips:"@, false, open + 1, close);
    assert forall|i: int| 0 <= i < cut.len() implies s[open + 1 + i] == #[trigger] cut[i] by {}
    if cut == "sip:"@ {
        assert(s[open + 1 + 3] == cut[3]);
        assert("sips:"@[3] == 's');
        assert(!letters_at(s, "sips:"@, false, open + 1, close));
        assert(forall|i: int| 0 <= i < 4 ==> s[open + 1 + i] == #[trigger] "sip:"@[i]);
    } else {
        assert(forall|i: int| 0 <= i < 5 ==> s[open + 1 + i] == #[trigger] "sips:"@[i]);
    }
    assert(after_scheme(s, b) == start);
    lemma_first_place(s, ';', start, close, end);
}

/// An address without an at sign is its own user and its own host. One with nothing
/// before its last at sign has no user.
pub proof fn an_address_without_a_user(s: Seq<char>, open: int, start: int, end: int, close: int)
    requires
        0 <= open < start < end <= close <= s.len(),
        s[open] == '<',
        close < s.len() ==> s[close] == '>',
        end < close ==> s[end] == ';',
        forall|i: int| 0 <= i < open ==> #[trigger] s[i] != '<',
        forall|i: int| open < i < close ==> #[trigger] s[i] != '>',
        forall|i: int| start <= i < end ==> #[trigger] s[i] != ';' && !space(s[i]),
        forall|i: int| start < i < end ==> #[trigger] s[i] != '@',
        s.subrange(open + 1, start) == "sip:"@ || s.subrange(open + 1, start) == "sips:"@,
    ensures
        s[start] == '@' ==> user_in(s) is None,
        s[start] != '@' ==> user_in(s) == Some(s.subrange(start, end)) && host_span(s) == (Range {
            lo: start,
            hi: end,
        }),
{
    lemma_addr_spec(s, open, start, end, close);
    a_search_from_the_back_ends_at_the_last(s, '@', start, end);
    let at = rfind_in(s, '@', start, end);
    if s[start] == '@' {
        assert(at == start) by {
            if at < start {
                assert(s[start] != '@');
            }
        }
        trimming_takes_both_ends(s, Trim::Space, Range { lo: start, hi: start });
    } else {
        assert(at == start - 1) by {
            if at >= start {
                assert(s[at] == '@');
            }
        }
        let u = Range { lo: start, hi: end };
        trimming_takes_both_ends(s, Trim::Space, u);
        let t = u.trimmed(s, Trim::Space);
        assert(!space(s[start]) && !space(s[end - 1]));
        assert(t == u) by {
            if t.lo > u.lo {
                assert(space(s[u.lo]));
            }
            if t.hi < u.hi {
                assert(space(s[u.hi - 1]));
            }
        }
    }
}

/// A character behind a backslash does not close a quote, and a quote that is never
/// closed ends nowhere before the end.
pub proof fn an_escaped_character_closes_nothing(s: Seq<char>, at: int, hi: int)
    requires
        0 <= at <= hi <= s.len(),
    ensures
        at + 1 < hi && s[at] as int == 92 ==> closing_quote(s, at, hi) == closing_quote(s, at + 2, hi),
        at < hi && s[at] as int == 34 ==> closing_quote(s, at, hi) == at,
        at < hi && s[at] as int != 34 && s[at] as int != 92 ==> closing_quote(s, at, hi)
            == closing_quote(s, at + 1, hi),
        closing_quote(s, hi, hi) == hi,
{
    assert('"' as int == 34 && '\\' as int == 92);
}

} // verus!
