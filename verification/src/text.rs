//! Scanning of header text.
//!
//! Positions are character positions. A *span* `lo..hi` names the characters
//! of a text from `lo` up to, not including, `hi`.
use vstd::prelude::*;

verus! {

/// The characters of Unicode's `White_Space` property.
pub open spec fn space(c: char) -> bool {
    ||| '\u{9}' <= c <= '\u{d}'
    ||| c == ' '
    ||| c == '\u{85}'
    ||| c == '\u{a0}'
    ||| c == '\u{1680}'
    ||| '\u{2000}' <= c <= '\u{200a}'
    ||| c == '\u{2028}'
    ||| c == '\u{2029}'
    ||| c == '\u{202f}'
    ||| c == '\u{205f}'
    ||| c == '\u{3000}'
}

/// Which characters are cut from the two ends of a span.
#[derive(Clone, Copy, PartialEq, Eq, Structural)]
pub enum Trim {
    /// White space.
    Space,
    /// The double quote.
    Quote,
}

/// Whether `c` is one of the characters that `trim` cuts.
pub open spec fn cuts(trim: Trim, c: char) -> bool {
    match trim {
        Trim::Space => space(c),
        Trim::Quote => c == '"',
    }
}

/// The first position of `lo..hi` that holds one of `stops`, else `hi`.
pub open spec fn find_in(s: Seq<char>, stops: Seq<char>, lo: int, hi: int) -> int
    decreases hi - lo,
{
    if lo >= hi {
        hi
    } else if stops.contains(s[lo]) {
        lo
    } else {
        find_in(s, stops, lo + 1, hi)
    }
}

/// The last position of `lo..hi` that holds `c`, else `lo - 1`.
pub open spec fn rfind_in(s: Seq<char>, c: char, lo: int, hi: int) -> int
    decreases hi - lo,
{
    if hi <= lo {
        lo - 1
    } else if s[hi - 1] == c {
        hi - 1
    } else {
        rfind_in(s, c, lo, hi - 1)
    }
}

/// The first position of `lo..hi` that `trim` keeps, else `hi`.
pub open spec fn trim_lo(s: Seq<char>, trim: Trim, lo: int, hi: int) -> int
    decreases hi - lo,
{
    if lo >= hi {
        hi
    } else if cuts(trim, s[lo]) {
        trim_lo(s, trim, lo + 1, hi)
    } else {
        lo
    }
}

/// One past the last position of `lo..hi` that `trim` keeps, else `lo`.
pub open spec fn trim_hi(s: Seq<char>, trim: Trim, lo: int, hi: int) -> int
    decreases hi - lo,
{
    if hi <= lo {
        lo
    } else if cuts(trim, s[hi - 1]) {
        trim_hi(s, trim, lo, hi - 1)
    } else {
        hi
    }
}

/// The first position of `lo..hi` that holds white space, else `hi`.
pub open spec fn find_space(s: Seq<char>, lo: int, hi: int) -> int
    decreases hi - lo,
{
    if lo >= hi {
        hi
    } else if space(s[lo]) {
        lo
    } else {
        find_space(s, lo + 1, hi)
    }
}

/// The word that starts at or after `lo`, words being set apart by white
/// space.
pub open spec fn word_from(s: Seq<char>, lo: int) -> Option<Range> {
    let a = trim_lo(s, Trim::Space, lo, s.len() as int);
    if a < s.len() {
        Some(Range { lo: a, hi: find_space(s, a, s.len() as int) })
    } else {
        None
    }
}

/// A span of a text.
pub struct Span {
    /// The first position.
    pub lo: usize,
    /// One past the last position.
    pub hi: usize,
}

/// A span, in mathematical integers.
pub struct Range {
    /// The first position.
    pub lo: int,
    /// One past the last position.
    pub hi: int,
}

impl View for Span {
    type V = Range;

    open spec fn view(&self) -> Range {
        Range { lo: self.lo as int, hi: self.hi as int }
    }
}

impl Range {
    /// Whether the span lies in a text of `len` characters.
    pub open spec fn within(self, len: nat) -> bool {
        0 <= self.lo <= self.hi <= len
    }

    /// The characters of the span.
    pub open spec fn of(self, s: Seq<char>) -> Seq<char> {
        s.subrange(self.lo, self.hi)
    }

    /// The span without the characters that `trim` cuts from its two ends.
    pub open spec fn trimmed(self, s: Seq<char>, trim: Trim) -> Range {
        let lo = trim_lo(s, trim, self.lo, self.hi);
        Range { lo, hi: trim_hi(s, trim, lo, self.hi) }
    }

    /// The part of the span before the first of `stops`.
    pub open spec fn until(self, s: Seq<char>, stops: Seq<char>) -> Range {
        Range { lo: self.lo, hi: find_in(s, stops, self.lo, self.hi) }
    }
}

/// The ASCII letter in lower case; any other character itself.
pub open spec fn fold(c: char) -> char {
    if 'A' <= c <= 'Z' {
        (c as u32 + 32) as char
    } else {
        c
    }
}

/// Equality that ignores the case of ASCII letters.
pub open spec fn fold_eq(a: Seq<char>, b: Seq<char>) -> bool {
    a.len() == b.len() && forall|i: int| 0 <= i < a.len() ==> fold(#[trigger] a[i]) == fold(b[i])
}

/// Whether `needle` stands at position `at` of `lo..hi`, case ignored when
/// `any_case`.
pub open spec fn stands_at(
    s: Seq<char>,
    needle: Seq<char>,
    any_case: bool,
    at: int,
    hi: int,
) -> bool {
    &&& at + needle.len() <= hi
    &&& if any_case {
        fold_eq(s.subrange(at, at + needle.len()), needle)
    } else {
        s.subrange(at, at + needle.len()) == needle
    }
}

/// The first position of `lo..hi` at which `needle` stands, else `hi + 1`.
pub open spec fn find_text(
    s: Seq<char>,
    needle: Seq<char>,
    any_case: bool,
    lo: int,
    hi: int,
) -> int
    decreases hi - lo + 1,
{
    if lo > hi {
        hi + 1
    } else if stands_at(s, needle, any_case, lo, hi) {
        lo
    } else {
        find_text(s, needle, any_case, lo + 1, hi)
    }
}

pub proof fn lemma_find_in_range(s: Seq<char>, stops: Seq<char>, lo: int, hi: int)
    requires
        lo <= hi,
    ensures
        lo <= find_in(s, stops, lo, hi) <= hi,
    decreases hi - lo,
{
    if lo < hi && !stops.contains(s[lo]) {
        lemma_find_in_range(s, stops, lo + 1, hi);
    }
}

/// Whether `c` is white space.
pub fn is_space(c: char) -> (r: bool)
    ensures
        r == space(c),
{
    ('\u{9}' <= c && c <= '\u{d}') || c == ' ' || c == '\u{85}' || c == '\u{a0}' || c == '\u{1680}'
        || ('\u{2000}' <= c && c <= '\u{200a}') || c == '\u{2028}' || c == '\u{2029}' || c
        == '\u{202f}' || c == '\u{205f}' || c == '\u{3000}'
}

fn is_cut(trim: Trim, c: char) -> (r: bool)
    ensures
        r == cuts(trim, c),
{
    match trim {
        Trim::Space => is_space(c),
        Trim::Quote => c == '"',
    }
}

/// `c` with an ASCII upper-case letter made lower case.
pub fn fold_char(c: char) -> (r: char)
    ensures
        r == fold(c),
{
    if 'A' <= c && c <= 'Z' {
        let b: u8 = c as u8;
        (b + 32) as char
    } else {
        c
    }
}

/// The characters of a text.
pub fn chars_of(s: &str) -> (r: Vec<char>)
    ensures
        r@ == s@,
{
    let mut r: Vec<char> = Vec::new();
    for c in it: s.chars()
        invariant
            it.seq() == s@,
            r@ == s@.take(it.index() as int),
    {
        r.push(c);
    }
    r
}

fn is_any(stops: &[char], c: char) -> (r: bool)
    ensures
        r == stops@.contains(c),
{
    let mut i: usize = 0;
    while i < stops.len()
        invariant
            i <= stops@.len(),
            forall|j: int| 0 <= j < i ==> stops@[j] != c,
        decreases stops@.len() - i,
    {
        if stops[i] == c {
            assert(stops@[i as int] == c);
            return true;
        }
        i += 1;
    }
    false
}

/// The first position of `lo..hi` that holds one of `stops`, else `hi`.
pub fn find_any(s: &Vec<char>, stops: &[char], lo: usize, hi: usize) -> (r: usize)
    requires
        lo <= hi <= s@.len(),
    ensures
        r == find_in(s@, stops@, lo as int, hi as int),
        lo <= r <= hi,
        r < hi ==> stops@.contains(s@[r as int]),
{
    let mut i: usize = lo;
    while i < hi
        invariant
            lo <= i <= hi <= s@.len(),
            find_in(s@, stops@, lo as int, hi as int) == find_in(s@, stops@, i as int, hi as int),
        decreases hi - i,
    {
        if is_any(stops, s[i]) {
            return i;
        }
        i += 1;
    }
    hi
}

/// One past the last position of `lo..hi` that holds `c`, else `lo`.
pub fn after_last(s: &Vec<char>, c: char, lo: usize, hi: usize) -> (r: usize)
    requires
        lo <= hi <= s@.len(),
    ensures
        r == rfind_in(s@, c, lo as int, hi as int) + 1,
        lo <= r <= hi,
{
    let mut i: usize = hi;
    while i > lo
        invariant
            lo <= i <= hi <= s@.len(),
            rfind_in(s@, c, lo as int, hi as int) == rfind_in(s@, c, lo as int, i as int),
        decreases i,
    {
        if s[i - 1] == c {
            return i;
        }
        i -= 1;
    }
    lo
}

/// The first position of `lo..hi` that `trim` keeps, else `hi`.
pub fn trim_start(s: &Vec<char>, trim: Trim, lo: usize, hi: usize) -> (r: usize)
    requires
        lo <= hi <= s@.len(),
    ensures
        r == trim_lo(s@, trim, lo as int, hi as int),
        lo <= r <= hi,
        r < hi ==> !cuts(trim, s@[r as int]),
{
    let mut i: usize = lo;
    while i < hi && is_cut(trim, s[i])
        invariant
            lo <= i <= hi <= s@.len(),
            trim_lo(s@, trim, lo as int, hi as int) == trim_lo(s@, trim, i as int, hi as int),
        decreases hi - i,
    {
        i += 1;
    }
    i
}

/// The word that starts at or after `lo`.
pub fn next_word(s: &Vec<char>, lo: usize) -> (r: Option<Span>)
    requires
        lo <= s@.len(),
    ensures
        match r {
            Some(w) => word_from(s@, lo as int) == Some(w@) && lo <= w.lo < w.hi <= s@.len(),
            None => word_from(s@, lo as int) is None,
        },
{
    let n = s.len();
    let a = trim_start(s, Trim::Space, lo, n);
    if a >= n {
        return None;
    }
    let mut hi: usize = a;
    while hi < n && !is_space(s[hi])
        invariant
            a <= hi <= n == s@.len(),
            a < n && !space(s@[a as int]),
            hi > a || !space(s@[hi as int]),
            find_space(s@, a as int, n as int) == find_space(s@, hi as int, n as int),
        decreases n - hi,
    {
        hi += 1;
    }
    Some(Span { lo: a, hi })
}

/// `span` without the characters that `trim` cuts from its two ends.
pub fn trim_span(s: &Vec<char>, trim: Trim, span: Span) -> (r: Span)
    requires
        span@.within(s@.len()),
    ensures
        r@ == span@.trimmed(s@, trim),
        span.lo <= r.lo <= r.hi <= span.hi,
{
    let lo = trim_start(s, trim, span.lo, span.hi);
    let mut hi: usize = span.hi;
    while hi > lo && is_cut(trim, s[hi - 1])
        invariant
            span.lo <= lo <= hi <= span.hi <= s@.len(),
            trim_hi(s@, trim, lo as int, span.hi as int) == trim_hi(
                s@,
                trim,
                lo as int,
                hi as int,
            ),
        decreases hi,
    {
        hi -= 1;
    }
    Span { lo, hi }
}

/// Whether `needle` stands at position `at` of a text that ends at `hi`.
pub fn is_at(s: &Vec<char>, needle: &Vec<char>, any_case: bool, at: usize, hi: usize) -> (r: bool)
    requires
        at <= hi <= s@.len(),
    ensures
        r == stands_at(s@, needle@, any_case, at as int, hi as int),
{
    if needle.len() > hi - at {
        return false;
    }
    let ghost w = s@.subrange(at as int, at + needle@.len());
    let mut i: usize = 0;
    while i < needle.len()
        invariant
            i <= needle@.len(),
            at + needle@.len() <= hi <= s@.len(),
            w == s@.subrange(at as int, at + needle@.len()),
            any_case ==> forall|j: int| 0 <= j < i ==> fold(#[trigger] w[j]) == fold(needle@[j]),
            !any_case ==> forall|j: int| 0 <= j < i ==> #[trigger] w[j] == needle@[j],
        decreases needle@.len() - i,
    {
        let a = s[at + i];
        let b = needle[i];
        assert(w[i as int] == a);
        if any_case {
            if fold_char(a) != fold_char(b) {
                assert(fold(w[i as int]) != fold(needle@[i as int]));
                return false;
            }
        } else if a != b {
            assert(w[i as int] != needle@[i as int]);
            return false;
        }
        i += 1;
    }
    proof {
        if !any_case {
            assert(w =~= needle@);
        }
    }
    true
}

/// The first position of `lo..hi` at which `needle` stands.
pub fn find_seq(
    s: &Vec<char>,
    needle: &Vec<char>,
    any_case: bool,
    lo: usize,
    hi: usize,
) -> (r: Option<usize>)
    requires
        lo <= hi <= s@.len(),
    ensures
        match r {
            Some(p) => {
                &&& p == find_text(s@, needle@, any_case, lo as int, hi as int)
                &&& lo <= p
                &&& p + needle@.len() <= hi
            },
            None => find_text(s@, needle@, any_case, lo as int, hi as int) == hi + 1,
        },
{
    let mut i: usize = lo;
    loop
        invariant
            lo <= i <= hi <= s@.len(),
            find_text(s@, needle@, any_case, lo as int, hi as int) == find_text(
                s@,
                needle@,
                any_case,
                i as int,
                hi as int,
            ),
        decreases hi - i,
    {
        if is_at(s, needle, any_case, i, hi) {
            return Some(i);
        }
        if i == hi {
            assert(find_text(s@, needle@, any_case, i + 1, hi as int) == hi + 1);
            return None;
        }
        i += 1;
    }
}

/// Whether two texts are equal.
pub fn same_text(a: &str, b: &str) -> (r: bool)
    ensures
        r == (a@ == b@),
{
    let x = chars_of(a);
    let y = chars_of(b);
    proof {
        assert(x@.subrange(0, y@.len() as int) =~= x@ || x@.len() != y@.len());
    }
    x.len() == y.len() && is_at(&x, &y, false, 0, x.len())
}

/// Whether two texts are equal when the case of ASCII letters is ignored.
pub fn same_fold(a: &str, b: &str) -> (r: bool)
    ensures
        r == fold_eq(a@, b@),
{
    let x = chars_of(a);
    let y = chars_of(b);
    proof {
        assert(x@.subrange(0, y@.len() as int) =~= x@ || x@.len() != y@.len());
    }
    x.len() == y.len() && is_at(&x, &y, true, 0, x.len())
}

/// Whether two characters are the same, or the upper and the lower case of one of
/// the letters from A to Z.
pub open spec fn same_letter(c: char, d: char) -> bool {
    ||| c == d
    ||| 65 <= c as int <= 90 && d as int == c as int + 32
    ||| 65 <= d as int <= 90 && c as int == d as int + 32
}

/// Two texts are alike, the case ignored, exactly where they are of one length and
/// the same letter stands at each place.
pub proof fn alike_means_the_same_letters(a: Seq<char>, b: Seq<char>)
    ensures
        fold_eq(a, b) <==> a.len() == b.len() && forall|i: int|
            0 <= i < a.len() ==> same_letter(#[trigger] a[i], b[i]),
{
    assert forall|c: char, d: char| (fold(c) == fold(d)) == #[trigger] same_letter(c, d) by {
        assert('A' as int == 65 && 'Z' as int == 90);
    }
    if fold_eq(a, b) {
        assert forall|i: int| 0 <= i < a.len() implies same_letter(#[trigger] a[i], b[i]) by {
            assert(fold(a[i]) == fold(b[i]));
        }
    }
    if a.len() == b.len() && forall|i: int|
        0 <= i < a.len() ==> same_letter(#[trigger] a[i], b[i]) {
        assert forall|i: int| 0 <= i < a.len() implies fold(#[trigger] a[i]) == fold(b[i]) by {
            assert(same_letter(a[i], b[i]));
        }
    }
}

/// Of the ASCII characters, those from tab to carriage return and the blank are
/// white space.
pub proof fn ascii_white_space(c: char)
    requires
        (c as int) < 128,
    ensures
        space(c) <==> 9 <= c as int <= 13 || c as int == 32,
{
    assert('\u{9}' as int == 9 && '\u{d}' as int == 13 && ' ' as int == 32);
}

/// A search for one of some characters ends at the first of them, or where it was
/// to end.
pub proof fn a_search_ends_at_the_first(s: Seq<char>, stops: Seq<char>, lo: int, hi: int)
    requires
        0 <= lo <= hi <= s.len(),
    ensures
        lo <= find_in(s, stops, lo, hi) <= hi,
        forall|i: int|
            lo <= i < find_in(s, stops, lo, hi) ==> !stops.contains(#[trigger] s[i]),
        find_in(s, stops, lo, hi) < hi ==> stops.contains(s[find_in(s, stops, lo, hi)]),
    decreases hi - lo,
{
    if lo < hi && !stops.contains(s[lo]) {
        a_search_ends_at_the_first(s, stops, lo + 1, hi);
    }
}

/// A search from the back ends at the last such character, or before the first
/// place.
pub proof fn a_search_from_the_back_ends_at_the_last(s: Seq<char>, c: char, lo: int, hi: int)
    requires
        0 <= lo <= hi <= s.len(),
    ensures
        lo - 1 <= rfind_in(s, c, lo, hi) < hi || lo == hi && rfind_in(s, c, lo, hi) == lo - 1,
        forall|i: int| rfind_in(s, c, lo, hi) < i < hi ==> #[trigger] s[i] != c,
        rfind_in(s, c, lo, hi) >= lo ==> s[rfind_in(s, c, lo, hi)] == c,
    decreases hi - lo,
{
    if lo < hi && s[hi - 1] != c {
        a_search_from_the_back_ends_at_the_last(s, c, lo, hi - 1);
    }
}

/// Trimming takes away what is cut at both ends and nothing else: all that goes is
/// cut, and what is left starts and ends with a character that is not.
pub proof fn trimming_takes_both_ends(s: Seq<char>, trim: Trim, r: Range)
    requires
        r.within(s.len()),
    ensures
        ({
            let t = r.trimmed(s, trim);
            &&& r.lo <= t.lo <= t.hi <= r.hi
            &&& forall|i: int| r.lo <= i < t.lo || t.hi <= i < r.hi ==> match trim {
                Trim::Space => space(#[trigger] s[i]),
                Trim::Quote => s[i] as int == 34,
            }
            &&& t.lo < t.hi ==> match trim {
                Trim::Space => !space(s[t.lo]) && !space(s[t.hi - 1]),
                Trim::Quote => s[t.lo] as int != 34 && s[t.hi - 1] as int != 34,
            }
        }),
{
    assert('"' as int == 34);
    lemma_trim_lo_first(s, trim, r.lo, r.hi);
    let lo = trim_lo(s, trim, r.lo, r.hi);
    lemma_trim_hi_last(s, trim, lo, r.hi);
}

/// Trimming at the start stops at the first character that is not cut.
proof fn lemma_trim_lo_first(s: Seq<char>, trim: Trim, lo: int, hi: int)
    requires
        0 <= lo <= hi <= s.len(),
    ensures
        lo <= trim_lo(s, trim, lo, hi) <= hi,
        forall|i: int| lo <= i < trim_lo(s, trim, lo, hi) ==> cuts(trim, #[trigger] s[i]),
        trim_lo(s, trim, lo, hi) < hi ==> !cuts(trim, s[trim_lo(s, trim, lo, hi)]),
    decreases hi - lo,
{
    if lo < hi && cuts(trim, s[lo]) {
        lemma_trim_lo_first(s, trim, lo + 1, hi);
    }
}

/// Trimming at the end stops behind the last character that is not cut.
proof fn lemma_trim_hi_last(s: Seq<char>, trim: Trim, lo: int, hi: int)
    requires
        0 <= lo <= hi <= s.len(),
    ensures
        lo <= trim_hi(s, trim, lo, hi) <= hi,
        forall|i: int| trim_hi(s, trim, lo, hi) <= i < hi ==> cuts(trim, #[trigger] s[i]),
        trim_hi(s, trim, lo, hi) > lo ==> !cuts(trim, s[trim_hi(s, trim, lo, hi) - 1]),
    decreases hi - lo,
{
    if lo < hi && cuts(trim, s[hi - 1]) {
        lemma_trim_hi_last(s, trim, lo, hi - 1);
    }
}

/// The first white space ends a word.
proof fn lemma_find_space_first(s: Seq<char>, lo: int, hi: int)
    requires
        0 <= lo <= hi <= s.len(),
    ensures
        lo <= find_space(s, lo, hi) <= hi,
        forall|i: int| lo <= i < find_space(s, lo, hi) ==> !space(#[trigger] s[i]),
        find_space(s, lo, hi) < hi ==> space(s[find_space(s, lo, hi)]),
    decreases hi - lo,
{
    if lo < hi && !space(s[lo]) {
        lemma_find_space_first(s, lo + 1, hi);
    }
}

/// The next word is the first run without white space: only white space comes
/// before it, none is in it, and it ends with the text or before white space. There
/// is none where only white space follows.
pub proof fn a_word_is_a_run_without_white_space(s: Seq<char>, lo: int)
    requires
        0 <= lo <= s.len(),
    ensures
        word_from(s, lo) is None <==> forall|i: int| lo <= i < s.len() ==> space(#[trigger] s[i]),
        word_from(s, lo) matches Some(w) ==> {
            &&& lo <= w.lo < w.hi <= s.len()
            &&& forall|i: int| lo <= i < w.lo ==> space(#[trigger] s[i])
            &&& forall|i: int| w.lo <= i < w.hi ==> !space(#[trigger] s[i])
            &&& w.hi < s.len() ==> space(s[w.hi])
        },
{
    let n = s.len() as int;
    lemma_trim_lo_first(s, Trim::Space, lo, n);
    let a = trim_lo(s, Trim::Space, lo, n);
    if a < n {
        lemma_find_space_first(s, a, n);
        assert(!space(s[a]));
    }
}

/// Whether each letter of `needle` stands in `s` from a place on.
pub open spec fn letters_at(
    s: Seq<char>,
    needle: Seq<char>,
    any_case: bool,
    at: int,
    hi: int,
) -> bool {
    at + needle.len() <= hi && forall|i: int|
        0 <= i < needle.len() ==> if any_case {
            same_letter(s[at + i], #[trigger] needle[i])
        } else {
            s[at + i] == needle[i]
        }
}

/// A text is found at the first place where its letters stand, and one past the end
/// where they stand nowhere.
pub proof fn a_text_is_found_where_it_first_stands(
    s: Seq<char>,
    needle: Seq<char>,
    any_case: bool,
    lo: int,
    hi: int,
)
    requires
        0 <= lo <= hi <= s.len(),
    ensures
        ({
            let r = find_text(s, needle, any_case, lo, hi);
            &&& lo <= r <= hi + 1
            &&& r <= hi ==> letters_at(s, needle, any_case, r, hi)
            &&& forall|at: int|
                lo <= at <= hi && at < r ==> !#[trigger] letters_at(s, needle, any_case, at, hi)
        }),
    decreases hi - lo,
{
    stands_where_its_letters_do(s, needle, any_case, lo, hi);
    if !stands_at(s, needle, any_case, lo, hi) {
        if lo < hi {
            a_text_is_found_where_it_first_stands(s, needle, any_case, lo + 1, hi);
        } else {
            assert(find_text(s, needle, any_case, lo + 1, hi) == hi + 1);
        }
    }
}

/// A text stands at a place exactly where each of its letters does.
pub proof fn stands_where_its_letters_do(
    s: Seq<char>,
    needle: Seq<char>,
    any_case: bool,
    at: int,
    hi: int,
)
    requires
        0 <= at <= hi <= s.len(),
    ensures
        stands_at(s, needle, any_case, at, hi) <==> letters_at(s, needle, any_case, at, hi),
{
    if at + needle.len() <= hi {
        let cut = s.subrange(at, at + needle.len());
        alike_means_the_same_letters(cut, needle);
        assert(forall|i: int| 0 <= i < needle.len() ==> #[trigger] cut[i] == s[at + i]);
        if any_case {
            if fold_eq(cut, needle) {
                assert forall|i: int| 0 <= i < needle.len() implies same_letter(
                    s[at + i],
                    #[trigger] needle[i],
                ) by {
                    assert(same_letter(cut[i], needle[i]));
                }
            } else {
                let i = choose|i: int|
                    0 <= i < cut.len() && !same_letter(#[trigger] cut[i], needle[i]);
                assert(!same_letter(s[at + i], needle[i]));
            }
        } else if cut == needle {
            assert(forall|i: int| 0 <= i < needle.len() ==> cut[i] == #[trigger] needle[i]);
        } else if letters_at(s, needle, any_case, at, hi) {
            assert(cut =~= needle);
        }
    }
}

} // verus!
