//! Headers read from the raw lines of a message.
use crate::digits::{parse_u32, u32_of};
use crate::text::{
    a_search_ends_at_the_first, alike_means_the_same_letters, chars_of, find_any, find_in, fold_eq,
    is_at, lemma_find_in_range, letters_at, same_letter, stands_at, stands_where_its_letters_do,
    trim_span, Range, Span, Trim,
};
use crate::uri::{attr_span, attr_value, utf8_text};
use vstd::prelude::*;
use vstd::string::StrSliceExecFns;
use vstd::utf8::{decode_utf8, valid_utf8};

verus! {

/// Where the line that starts at `lo` meets its line feed, or the end of the
/// text.
pub open spec fn line_feed(s: Seq<char>, lo: int) -> int {
    find_in(s, seq!['\n'], lo, s.len() as int)
}

/// The line that starts at `lo`, without its line feed and a carriage return
/// before that.
pub open spec fn line_at(s: Seq<char>, lo: int) -> Range {
    let e = line_feed(s, lo);
    if e < s.len() && e > lo && s[e - 1] == '\r' {
        Range { lo, hi: e - 1 }
    } else {
        Range { lo, hi: e }
    }
}

/// The cause and text of a `Reason` header line; the text is empty where the
/// line gives none.
pub open spec fn reason_in_line(s: Seq<char>, line: Range) -> Option<(u32, Seq<char>)> {
    if stands_at(s, "Reason:"@, false, line.lo, line.hi) {
        let rest = (Range { lo: line.lo + 7, hi: line.hi }).trimmed(s, Trim::Space);
        match attr_span(s, "cause"@, false, rest) {
            Some(c) => match u32_of(s, c) {
                Some(code) => Some(
                    (
                        code,
                        match attr_span(s, "text"@, false, rest) {
                            Some(t) => t.of(s),
                            None => Seq::empty(),
                        },
                    ),
                ),
                None => None,
            },
            None => None,
        }
    } else {
        None
    }
}

/// The first `Reason` with a cause in the lines from `lo` on.
pub open spec fn reason_from(s: Seq<char>, lo: int) -> Option<(u32, Seq<char>)>
    decreases s.len() - lo + 1,
{
    if lo < 0 || lo >= s.len() {
        None
    } else {
        proof {
            lemma_find_in_range(s, seq!['\n'], lo, s.len() as int);
        }
        match reason_in_line(s, line_at(s, lo)) {
            Some(r) => Some(r),
            None => reason_from(s, line_feed(s, lo) + 1),
        }
    }
}

/// The `Reason` of a raw message.
pub open spec fn reason_of(raw: Seq<u8>) -> Option<(u32, Seq<char>)> {
    if valid_utf8(raw) {
        reason_from(decode_utf8(raw), 0)
    } else {
        None
    }
}

/// The value of a header line `name: value`, white space around both cut and
/// the case of the name ignored.
pub open spec fn header_in_line(s: Seq<char>, name: Seq<char>, line: Range) -> Option<Range> {
    let colon = find_in(s, seq![':'], line.lo, line.hi);
    if colon < line.hi && fold_eq(
        (Range { lo: line.lo, hi: colon }).trimmed(s, Trim::Space).of(s),
        name,
    ) {
        Some((Range { lo: colon + 1, hi: line.hi }).trimmed(s, Trim::Space))
    } else {
        None
    }
}

/// The value of the first header `name` in the lines from `lo` on.
pub open spec fn header_from(s: Seq<char>, name: Seq<char>, lo: int) -> Option<Range>
    decreases s.len() - lo + 1,
{
    if lo < 0 || lo >= s.len() {
        None
    } else {
        proof {
            lemma_find_in_range(s, seq!['\n'], lo, s.len() as int);
        }
        match header_in_line(s, name, line_at(s, lo)) {
            Some(r) => Some(r),
            None => header_from(s, name, line_feed(s, lo) + 1),
        }
    }
}

/// The value of the first header `name` of a raw message.
pub open spec fn header_of(raw: Seq<u8>, name: Seq<char>) -> Option<Seq<char>> {
    if valid_utf8(raw) {
        match header_from(decode_utf8(raw), name, 0) {
            Some(r) => Some(r.of(decode_utf8(raw))),
            None => None,
        }
    } else {
        None
    }
}

/// The line that starts at `lo`, and where the next one starts.
fn next_line(s: &Vec<char>, lo: usize) -> (r: (Span, Option<usize>))
    requires
        lo <= s@.len(),
    ensures
        r.0@ == line_at(s@, lo as int),
        r.0@.within(s@.len()),
        match r.1 {
            Some(n) => n == line_feed(s@, lo as int) + 1 && lo < n <= s@.len(),
            None => line_feed(s@, lo as int) == s@.len(),
        },
{
    let n = s.len();
    let e = find_any(s, &['\n'], lo, n);
    assert(['\n']@ =~= seq!['\n']);
    let hi: usize = if e < n && e > lo && s[e - 1] == '\r' {
        e - 1
    } else {
        e
    };
    (
        Span { lo, hi },
        if e < n {
            Some(e + 1)
        } else {
            None
        },
    )
}

fn read_reason(text: &str, s: &Vec<char>, line: Span) -> (r: Option<(u32, String)>)
    requires
        s@ == text@,
        line@.within(s@.len()),
    ensures
        match r {
            Some(x) => reason_in_line(s@, line@) == Some((x.0, x.1@)),
            None => reason_in_line(s@, line@) is None,
        },
{
    let tag = chars_of("Reason:");
    proof {
        reveal_strlit("Reason:");
    }
    if !is_at(s, &tag, false, line.lo, line.hi) {
        return None;
    }
    let rest = trim_span(s, Trim::Space, Span { lo: line.lo + 7, hi: line.hi });
    let cause = match attr_value(s, "cause", false, Span { lo: rest.lo, hi: rest.hi }) {
        Some(c) => parse_u32(s, c),
        None => None,
    };
    match cause {
        None => None,
        Some(code) => {
            let words = match attr_value(s, "text", false, rest) {
                Some(t) => text.substring_char(t.lo, t.hi).to_owned(),
                None => String::new(),
            };
            Some((code, words))
        },
    }
}

/// Extracts the cause and text of the first `Reason` header with a cause from
/// a raw message.
pub fn reason_from_raw(raw: &[u8]) -> (r: Option<(u32, String)>)
    ensures
        match r {
            Some(x) => reason_of(raw@) == Some((x.0, x.1@)),
            None => reason_of(raw@) is None,
        },
{
    let text = match utf8_text(raw) {
        Some(t) => t,
        None => {
            return None;
        },
    };
    let s = chars_of(text);
    let mut lo: usize = 0;
    while lo < s.len()
        invariant
            lo <= s@.len(),
            s@ == text@,
            valid_utf8(raw@),
            s@ == decode_utf8(raw@),
            reason_of(raw@) == reason_from(s@, lo as int),
        decreases s@.len() - lo,
    {
        let (line, next) = next_line(&s, lo);
        if let Some(x) = read_reason(text, &s, line) {
            return Some(x);
        }
        lo = match next {
            Some(n) => n,
            None => {
                assert(reason_from(s@, line_feed(s@, lo as int) + 1) is None);
                return None;
            },
        };
    }
    None
}

/// Extracts the value of a header from a raw message.
pub fn sip_header(raw: &[u8], name: &str) -> (r: Option<String>)
    ensures
        match r {
            Some(t) => header_of(raw@, name@) == Some(t@),
            None => header_of(raw@, name@) is None,
        },
{
    let text = match utf8_text(raw) {
        Some(t) => t,
        None => {
            return None;
        },
    };
    let s = chars_of(text);
    let wanted = chars_of(name);
    let mut lo: usize = 0;
    while lo < s.len()
        invariant
            lo <= s@.len(),
            s@ == text@,
            wanted@ == name@,
            valid_utf8(raw@),
            s@ == decode_utf8(raw@),
            header_from(s@, name@, 0) == header_from(s@, name@, lo as int),
        decreases s@.len() - lo,
    {
        let (line, next) = next_line(&s, lo);
        let colon = find_any(&s, &[':'], line.lo, line.hi);
        assert([':']@ =~= seq![':']);
        if colon < line.hi {
            let n = trim_span(&s, Trim::Space, Span { lo: line.lo, hi: colon });
            proof {
                if n.hi - n.lo == wanted@.len() {
                    assert(s@.subrange(n.lo as int, n.lo + wanted@.len()) =~= n@.of(s@));
                }
            }
            if n.hi - n.lo == wanted.len() && is_at(&s, &wanted, true, n.lo, n.hi) {
                let v = trim_span(&s, Trim::Space, Span { lo: colon + 1, hi: line.hi });
                return Some(text.substring_char(v.lo, v.hi).to_owned());
            }
        }
        lo = match next {
            Some(n) => n,
            None => {
                assert(header_from(s@, name@, line_feed(s@, lo as int) + 1) is None);
                return None;
            },
        };
    }
    None
}

/// A line goes up to the next line feed or the end, without the carriage return
/// before it.
pub proof fn a_line_ends_before_its_line_feed(s: Seq<char>, lo: int)
    requires
        0 <= lo <= s.len(),
    ensures
        ({
            let e = line_feed(s, lo);
            let l = line_at(s, lo);
            &&& lo <= e <= s.len()
            &&& forall|i: int| lo <= i < e ==> (#[trigger] s[i]) as int != 10
            &&& e < s.len() ==> s[e] as int == 10
            &&& l.lo == lo
            &&& l.hi == if e < s.len() && e > lo && s[e - 1] as int == 13 {
                e - 1
            } else {
                e
            }
        }),
{
    let stops = seq!['\n'];
    assert(stops[0] as int == 10 && '\r' as int == 13);
    a_search_ends_at_the_first(s, stops, lo, s.len() as int);
    let e = line_feed(s, lo);
    assert forall|i: int| lo <= i < e implies (#[trigger] s[i]) as int != 10 by {
        if s[i] as int == 10 {
            assert(s[i] == stops[0]);
            assert(stops.contains(s[i]));
        }
    }
}

/// The reason that a line gives is the cause and the text of a line that starts with
/// the name of the header, and nothing where the cause is no number.
pub proof fn a_reason_is_a_cause_and_a_text(s: Seq<char>, line: Range)
    requires
        line.within(s.len()),
    ensures
        !letters_at(s, "Reason:"@, false, line.lo, line.hi) ==> reason_in_line(s, line) is None,
        letters_at(s, "Reason:"@, false, line.lo, line.hi) ==> {
            let rest = (Range { lo: line.lo + 7, hi: line.hi }).trimmed(s, Trim::Space);
            match attr_span(s, "cause"@, false, rest) {
                None => reason_in_line(s, line) is None,
                Some(c) => {
                    &&& reason_in_line(s, line) is Some <==> u32_of(s, c) is Some
                    &&& reason_in_line(s, line) matches Some(r) ==> {
                        &&& u32_of(s, c) == Some(r.0)
                        &&& attr_span(s, "text"@, false, rest) matches Some(t) ==> r.1
                            == s.subrange(t.lo, t.hi)
                        &&& attr_span(s, "text"@, false, rest) is None ==> r.1.len() == 0
                    }
                },
            }
        },
{
    stands_where_its_letters_do(s, "Reason:"@, false, line.lo, line.hi);
}

/// The reason of a text is that of the first line that gives one.
pub proof fn the_first_reason_counts(s: Seq<char>, lo: int)
    requires
        0 <= lo <= s.len(),
    ensures
        lo == s.len() ==> reason_from(s, lo) is None,
        lo < s.len() && reason_in_line(s, line_at(s, lo)) is Some ==> reason_from(s, lo)
            == reason_in_line(s, line_at(s, lo)),
        forall|e: int|
            lo <= e < s.len() && (#[trigger] s[e]) as int == 10 && (forall|i: int|
                lo <= i < e ==> (#[trigger] s[i]) as int != 10) && reason_in_line(s, line_at(s, lo)) is None
                ==> reason_from(s, lo) == reason_from(s, e + 1),
{
    a_line_ends_before_its_line_feed(s, lo);
    assert forall|e: int|
        lo <= e < s.len() && (#[trigger] s[e]) as int == 10 && (forall|i: int|
            lo <= i < e ==> (#[trigger] s[i]) as int != 10) && reason_in_line(s, line_at(s, lo)) is None implies reason_from(
    s, lo) == reason_from(s, e + 1) by {
        let f = line_feed(s, lo);
        if f < e {
            assert(s[f] as int == 10);
        } else if e < f {
            assert(s[e] as int != 10);
        }
        assert(f == e);
    }
}

/// A line is a header of a name where that name stands before its first colon, the
/// case and the white space round it ignored; its value is what stands behind.
pub proof fn a_header_line_is_name_and_value(s: Seq<char>, name: Seq<char>, line: Range, colon: int)
    requires
        line.within(s.len()),
        line.lo <= colon < line.hi,
        s[colon] as int == 58,
        forall|i: int| line.lo <= i < colon ==> (#[trigger] s[i]) as int != 58,
    ensures
        ({
            let n = (Range { lo: line.lo, hi: colon }).trimmed(s, Trim::Space).of(s);
            let same = n.len() == name.len() && forall|i: int|
                0 <= i < n.len() ==> same_letter(#[trigger] n[i], name[i]);
            &&& header_in_line(s, name, line) is Some <==> same
            &&& header_in_line(s, name, line) matches Some(v) ==> v == (Range {
                lo: colon + 1,
                hi: line.hi,
            }).trimmed(s, Trim::Space)
        }),
{
    let stops = seq![':'];
    assert(stops[0] as int == 58);
    assert(stops.contains(':'));
    a_search_ends_at_the_first(s, stops, line.lo, line.hi);
    let f = find_in(s, stops, line.lo, line.hi);
    if f < colon {
        assert(stops.contains(s[f]));
        assert(s[f] as int == 58);
    } else if colon < f {
        assert(s[colon] == ':');
        assert(!stops.contains(s[colon]));
    }
    let n = (Range { lo: line.lo, hi: colon }).trimmed(s, Trim::Space).of(s);
    alike_means_the_same_letters(n, name);
}

/// The header of a text is that of the first line that bears its name.
pub proof fn the_first_header_counts(s: Seq<char>, name: Seq<char>, lo: int)
    requires
        0 <= lo <= s.len(),
    ensures
        lo == s.len() ==> header_from(s, name, lo) is None,
        lo < s.len() && header_in_line(s, name, line_at(s, lo)) is Some ==> header_from(s, name, lo)
            == header_in_line(s, name, line_at(s, lo)),
        forall|e: int|
            lo <= e < s.len() && (#[trigger] s[e]) as int == 10 && (forall|i: int|
                lo <= i < e ==> (#[trigger] s[i]) as int != 10) && header_in_line(
                s,
                name,
                line_at(s, lo),
            ) is None ==> header_from(s, name, lo) == header_from(s, name, e + 1),
{
    a_line_ends_before_its_line_feed(s, lo);
    assert forall|e: int|
        lo <= e < s.len() && (#[trigger] s[e]) as int == 10 && (forall|i: int|
            lo <= i < e ==> (#[trigger] s[i]) as int != 10) && header_in_line(
            s,
            name,
            line_at(s, lo),
        ) is None implies header_from(s, name, lo) == header_from(s, name, e + 1) by {
        let f = line_feed(s, lo);
        if f < e {
            assert(s[f] as int == 10);
        } else if e < f {
            assert(s[e] as int != 10);
        }
        assert(f == e);
    }
}

/// A message that is not text has no reason and no header; of any other they are
/// those of its text.
pub proof fn only_text_has_headers(raw: Seq<u8>, name: Seq<char>)
    ensures
        !valid_utf8(raw) ==> reason_of(raw) is None && header_of(raw, name) is None,
        valid_utf8(raw) ==> reason_of(raw) == reason_from(decode_utf8(raw), 0),
        valid_utf8(raw) ==> {
            let s = decode_utf8(raw);
            match header_from(s, name, 0) {
                Some(r) => header_of(raw, name) == Some(s.subrange(r.lo, r.hi)),
                None => header_of(raw, name) is None,
            }
        },
{
}

} // verus!
