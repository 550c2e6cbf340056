//! The call filter: rules such as `caller:1001` or `ip:10.0.0.1`, all of which
//! a call has to match.
use crate::addr::{ip_text, sock_text};
use crate::analyze::mos::{a_name_occurs_where_it_stands, named_in, occurs};
use crate::model::sip::{Call, CallModel};
use crate::text::{
    a_word_is_a_run_without_white_space, chars_of, find_seq, is_at, letters_at, next_word, same_letter,
    space, stands_at, stands_where_its_letters_do, word_from, Range,
};
use vstd::prelude::*;
use vstd::string::StrSliceExecFns;

verus! {

/// What a rule looks at.
#[derive(Clone, Copy, PartialEq, Eq, Structural, Debug)]
pub enum Field {
    /// Any of the others.
    Any,
    /// The addresses of the call.
    Ip,
    /// The caller.
    Caller,
    /// The callee.
    Callee,
    /// The Call-ID.
    CallId,
}

/// One rule: a text that a field has to hold.
pub struct Rule {
    /// The field.
    pub field: Field,
    /// The text.
    pub text: String,
}

/// A rule in mathematical terms.
pub ghost struct RuleModel {
    pub field: Field,
    pub text: Seq<char>,
}

impl View for Rule {
    type V = RuleModel;

    open spec fn view(&self) -> RuleModel {
        RuleModel { field: self.field, text: self.text@ }
    }
}

/// The field that a word names, and how long the name is.
pub open spec fn field_of(s: Seq<char>, w: Range) -> (Field, int) {
    if stands_at(s, "ip:"@, true, w.lo, w.hi) {
        (Field::Ip, 3)
    } else if stands_at(s, "caller:"@, true, w.lo, w.hi) {
        (Field::Caller, 7)
    } else if stands_at(s, "callee:"@, true, w.lo, w.hi) {
        (Field::Callee, 7)
    } else if stands_at(s, "callid:"@, true, w.lo, w.hi) {
        (Field::CallId, 7)
    } else {
        (Field::Any, 0)
    }
}

/// The rule that a word writes.
pub open spec fn rule_of(s: Seq<char>, w: Range) -> RuleModel {
    let f = field_of(s, w);
    RuleModel { field: f.0, text: s.subrange(w.lo + f.1, w.hi) }
}

/// The rules that the words from `lo` on write.
pub open spec fn rules_from(s: Seq<char>, lo: int) -> Seq<RuleModel>
    decreases s.len() - lo,
{
    match word_from(s, lo) {
        Some(w) => if lo < w.hi <= s.len() {
            seq![rule_of(s, w)] + rules_from(s, w.hi)
        } else {
            Seq::empty()
        },
        None => Seq::empty(),
    }
}

/// How many characters of the first `n` are dots.
pub open spec fn dots(s: Seq<char>, n: int) -> int
    decreases n,
{
    if n <= 0 {
        0
    } else {
        dots(s, n - 1) + if s[n - 1] == '.' {
            1int
        } else {
            0int
        }
    }
}

/// Whether a text is a whole IPv4 address, with or without a port.
pub open spec fn whole_address(s: Seq<char>) -> bool {
    &&& s.len() > 0
    &&& '0' <= s.last() <= '9'
    &&& forall|i: int|
        0 <= i < s.len() ==> ('0' <= #[trigger] s[i] <= '9') || s[i] == '.' || s[i] == ':'
    &&& dots(s, s.len() as int) == 3
}

/// Whether an address is the one that a text names; a part of an address
/// names every address that it occurs in.
pub open spec fn names_address(text: Seq<char>, address: Seq<char>) -> bool {
    if whole_address(text) {
        address == text
    } else {
        occurs(address, text)
    }
}

/// Whether an address of a call is named by a text.
pub open spec fn ip_matches(c: CallModel, text: Seq<char>) -> bool {
    ||| exists|i: int| 0 <= i < c.ips.len() && names_address(text, ip_text(#[trigger] c.ips[i]))
    ||| c.invite_src matches Some(a) && names_address(text, sock_text(a))
}

/// Whether an optional text holds another one, case ignored.
pub open spec fn holds(t: Option<Seq<char>>, text: Seq<char>) -> bool {
    t matches Some(x) && occurs(x, text)
}

/// Whether a call matches a rule.
pub open spec fn rule_matches(c: CallModel, r: RuleModel) -> bool {
    match r.field {
        Field::Ip => ip_matches(c, r.text),
        Field::Caller => holds(c.from_user, r.text),
        Field::Callee => holds(c.to_user, r.text),
        Field::CallId => occurs(c.call_id, r.text),
        Field::Any => holds(c.from_user, r.text) || holds(c.to_user, r.text) || occurs(
            c.call_id,
            r.text,
        ) || ip_matches(c, r.text),
    }
}

/// Rules in mathematical terms.
pub open spec fn rule_models(rules: Seq<Rule>) -> Seq<RuleModel> {
    rules.map_values(|r: Rule| r@)
}

/// Whether a call matches every rule.
pub open spec fn all_match(c: CallModel, rules: Seq<RuleModel>) -> bool {
    forall|i: int| 0 <= i < rules.len() ==> rule_matches(c, #[trigger] rules[i])
}

/// Reads the rules of a query.
pub fn parse(q: &str) -> (r: Vec<Rule>)
    ensures
        rule_models(r@) == rules_from(q@, 0),
{
    let s = chars_of(q);
    let ip = chars_of("ip:");
    let caller = chars_of("caller:");
    let callee = chars_of("callee:");
    let callid = chars_of("callid:");
    proof {
        reveal_strlit("ip:");
        reveal_strlit("caller:");
        reveal_strlit("callee:");
        reveal_strlit("callid:");
    }
    let mut rules: Vec<Rule> = Vec::new();
    let mut lo: usize = 0;
    assert(rule_models(rules@) + rules_from(q@, 0) =~= rules_from(q@, 0));
    loop
        invariant
            lo <= s@.len(),
            s@ == q@,
            ip@ == "ip:"@,
            ip@.len() == 3,
            caller@ == "caller:"@,
            caller@.len() == 7,
            callee@ == "callee:"@,
            callee@.len() == 7,
            callid@ == "callid:"@,
            callid@.len() == 7,
            rules_from(q@, 0) == rule_models(rules@) + rules_from(q@, lo as int),
        decreases s@.len() - lo,
    {
        let w = match next_word(&s, lo) {
            Some(w) => w,
            None => {
                assert(rule_models(rules@) + rules_from(q@, lo as int) =~= rule_models(rules@));
                return rules;
            },
        };
        let (field, skip): (Field, usize) = if is_at(&s, &ip, true, w.lo, w.hi) {
            (Field::Ip, 3)
        } else if is_at(&s, &caller, true, w.lo, w.hi) {
            (Field::Caller, 7)
        } else if is_at(&s, &callee, true, w.lo, w.hi) {
            (Field::Callee, 7)
        } else if is_at(&s, &callid, true, w.lo, w.hi) {
            (Field::CallId, 7)
        } else {
            (Field::Any, 0)
        };
        let ghost was = rules@;
        rules.push(Rule { field, text: q.substring_char(w.lo + skip, w.hi).to_owned() });
        proof {
            let one = seq![rule_of(q@, w@)];
            assert(rules@.last()@ == rule_of(q@, w@));
            assert(rule_models(rules@) =~= rule_models(was) + one);
            assert(rule_models(was) + (one + rules_from(q@, w.hi as int)) =~= rule_models(rules@)
                + rules_from(q@, w.hi as int));
        }
        lo = w.hi;
    }
}

fn text_occurs(haystack: &str, needle: &str) -> (r: bool)
    ensures
        r == occurs(haystack@, needle@),
{
    let h = chars_of(haystack);
    let n = chars_of(needle);
    find_seq(&h, &n, true, 0, h.len()).is_some()
}

fn is_whole_address(text: &str) -> (r: bool)
    ensures
        r == whole_address(text@),
{
    let s = chars_of(text);
    let mut n: usize = 0;
    let mut i: usize = 0;
    while i < s.len()
        invariant
            n <= i <= s@.len(),
            s@ == text@,
            n == dots(s@, i as int),
            forall|j: int|
                0 <= j < i ==> ('0' <= #[trigger] s@[j] <= '9') || s@[j] == '.' || s@[j] == ':',
        decreases s@.len() - i,
    {
        let c = s[i];
        if !(('0' <= c && c <= '9') || c == '.' || c == ':') {
            assert(s@[i as int] == c);
            return false;
        }
        if c == '.' {
            n += 1;
        }
        i += 1;
    }
    s.len() > 0 && '0' <= s[s.len() - 1] && s[s.len() - 1] <= '9' && n == 3
}

fn address_named(text: &str, whole: bool, address: &str) -> (r: bool)
    requires
        whole == whole_address(text@),
    ensures
        r == names_address(text@, address@),
{
    if whole {
        crate::text::same_text(address, text)
    } else {
        text_occurs(address, text)
    }
}

fn has_address(c: &Call, text: &str) -> (r: bool)
    ensures
        r == ip_matches(c@, text@),
{
    let whole = is_whole_address(text);
    let mut i: usize = 0;
    while i < c.ips.len()
        invariant
            i <= c.ips@.len(),
            whole == whole_address(text@),
            forall|j: int| 0 <= j < i ==> !names_address(text@, ip_text(#[trigger] c.ips@[j])),
        decreases c.ips@.len() - i,
    {
        let t = c.ips[i].to_text();
        if address_named(text, whole, t.as_str()) {
            assert(names_address(text@, ip_text(c@.ips[i as int])));
            return true;
        }
        i += 1;
    }
    match c.invite_src {
        Some(a) => {
            let t = a.to_text();
            address_named(text, whole, t.as_str())
        },
        None => false,
    }
}

fn opt_holds(t: &Option<String>, text: &str) -> (r: bool)
    ensures
        r == holds(crate::model::sip::text_of(*t), text@),
{
    match t {
        Some(x) => text_occurs(x.as_str(), text),
        None => false,
    }
}

fn matches_rule(c: &Call, r: &Rule) -> (b: bool)
    ensures
        b == rule_matches(c@, r@),
{
    let text = r.text.as_str();
    match r.field {
        Field::Ip => has_address(c, text),
        Field::Caller => opt_holds(&c.from_user, text),
        Field::Callee => opt_holds(&c.to_user, text),
        Field::CallId => text_occurs(c.call_id.as_str(), text),
        Field::Any => opt_holds(&c.from_user, text) || opt_holds(&c.to_user, text) || text_occurs(
            c.call_id.as_str(),
            text,
        ) || has_address(c, text),
    }
}

/// Whether a call matches every rule.
pub fn matches(c: &Call, rules: &Vec<Rule>) -> (r: bool)
    ensures
        r == all_match(c@, rule_models(rules@)),
{
    let mut i: usize = 0;
    while i < rules.len()
        invariant
            i <= rules@.len(),
            forall|j: int| 0 <= j < i ==> rule_matches(c@, #[trigger] rule_models(rules@)[j]),
        decreases rules@.len() - i,
    {
        assert(rule_models(rules@)[i as int] == rules@[i as int]@);
        if !matches_rule(c, &rules[i]) {
            return false;
        }
        i += 1;
    }
    true
}

/// One more rule never lets more calls through.
pub proof fn every_rule_narrows(c: CallModel, rules: Seq<RuleModel>, more: RuleModel)
    ensures
        all_match(c, rules.push(more)) <==> all_match(c, rules) && rule_matches(c, more),
{
    let all = rules.push(more);
    if all_match(c, all) {
        assert forall|i: int| 0 <= i < rules.len() implies rule_matches(c, #[trigger] rules[i]) by {
            assert(all[i] == rules[i]);
        }
        assert(all[rules.len() as int] == more);
    }
}

/// A word of a query is about one field where it starts with the name of the field
/// and a colon, the case ignored, and about any field otherwise; what follows is what
/// is searched for.
pub proof fn a_prefix_names_the_field(s: Seq<char>, w: Range)
    requires
        w.within(s.len()),
    ensures
        ({
            let r = rule_of(s, w);
            let ip = letters_at(s, "ip:"@, true, w.lo, w.hi);
            let caller = letters_at(s, "caller:"@, true, w.lo, w.hi);
            let callee = letters_at(s, "callee:"@, true, w.lo, w.hi);
            let id = letters_at(s, "callid:"@, true, w.lo, w.hi);
            &&& r.field == Field::Ip <==> ip
            &&& r.field == Field::Caller <==> caller
            &&& r.field == Field::Callee <==> callee
            &&& r.field == Field::CallId <==> id
            &&& r.field == Field::Any <==> !ip && !caller && !callee && !id
            &&& ip ==> r.text == s.subrange(w.lo + 3, w.hi)
            &&& caller || callee || id ==> r.text == s.subrange(w.lo + 7, w.hi)
            &&& r.field == Field::Any ==> r.text == s.subrange(w.lo, w.hi)
        }),
{
    stands_where_its_letters_do(s, "ip:"@, true, w.lo, w.hi);
    stands_where_its_letters_do(s, "caller:"@, true, w.lo, w.hi);
    stands_where_its_letters_do(s, "callee:"@, true, w.lo, w.hi);
    stands_where_its_letters_do(s, "callid:"@, true, w.lo, w.hi);
    reveal_strlit("ip:");
    reveal_strlit("caller:");
    reveal_strlit("callee:");
    reveal_strlit("callid:");
    let a = "caller:"@;
    let b = "callee:"@;
    let c = "callid:"@;
    let i = "ip:"@;
    if letters_at(s, i, true, w.lo, w.hi) {
        assert(same_letter(s[w.lo + 0], i[0]));
    }
    if letters_at(s, a, true, w.lo, w.hi) {
        assert(same_letter(s[w.lo + 0], a[0]));
        assert(same_letter(s[w.lo + 4], a[4]));
        assert(same_letter(s[w.lo + 5], a[5]));
    }
    if letters_at(s, b, true, w.lo, w.hi) {
        assert(same_letter(s[w.lo + 0], b[0]));
        assert(same_letter(s[w.lo + 4], b[4]));
        assert(same_letter(s[w.lo + 5], b[5]));
    }
    if letters_at(s, c, true, w.lo, w.hi) {
        assert(same_letter(s[w.lo + 0], c[0]));
        assert(same_letter(s[w.lo + 4], c[4]));
        assert(same_letter(s[w.lo + 5], c[5]));
    }
}

/// A query has a rule for each of its words, in order.
pub proof fn a_query_has_a_rule_for_each_word(s: Seq<char>, lo: int, a: int, b: int)
    requires
        0 <= lo <= a < b <= s.len(),
        forall|i: int| lo <= i < a ==> space(#[trigger] s[i]),
        forall|i: int| a <= i < b ==> !space(#[trigger] s[i]),
        b < s.len() ==> space(s[b]),
    ensures
        rules_from(s, lo).len() == 1 + rules_from(s, b).len(),
        rules_from(s, lo)[0] == rule_of(s, Range { lo: a, hi: b }),
        rules_from(s, lo).skip(1) == rules_from(s, b),
{
    a_word_is_a_run_without_white_space(s, lo);
    assert(!space(s[a]));
    let w = word_from(s, lo)->0;
    assert(w.lo == a) by {
        if w.lo < a {
            assert(space(s[w.lo]));
        } else if w.lo > a {
            assert(space(s[a]));
        }
    }
    assert(w.hi == b) by {
        if w.hi < b {
            assert(space(s[w.hi]));
        } else if w.hi > b {
            assert(!space(s[b]));
        }
    }
    assert(rules_from(s, lo).skip(1) =~= rules_from(s, b));
}

/// There is no rule in white space.
pub proof fn white_space_has_no_rule(s: Seq<char>, lo: int)
    requires
        0 <= lo <= s.len(),
        forall|i: int| lo <= i < s.len() ==> space(#[trigger] s[i]),
    ensures
        rules_from(s, lo).len() == 0,
{
    a_word_is_a_run_without_white_space(s, lo);
}

/// What a rule finds: the caller, the callee or the Call-ID that holds its text, the
/// case ignored, an address of the call, or any of them.
pub proof fn a_rule_looks_at_its_field(c: CallModel, text: Seq<char>)
    ensures
        rule_matches(c, RuleModel { field: Field::Caller, text }) <==> c.from_user is Some
            && named_in(c.from_user->0, text),
        rule_matches(c, RuleModel { field: Field::Callee, text }) <==> c.to_user is Some
            && named_in(c.to_user->0, text),
        rule_matches(c, RuleModel { field: Field::CallId, text }) <==> named_in(c.call_id, text),
        rule_matches(c, RuleModel { field: Field::Ip, text }) <==> ip_matches(c, text),
        rule_matches(c, RuleModel { field: Field::Any, text }) <==> rule_matches(
            c,
            RuleModel { field: Field::Caller, text },
        ) || rule_matches(c, RuleModel { field: Field::Callee, text }) || rule_matches(
            c,
            RuleModel { field: Field::CallId, text },
        ) || rule_matches(c, RuleModel { field: Field::Ip, text }),
{
    a_name_occurs_where_it_stands(c.call_id, text);
    if c.from_user is Some {
        a_name_occurs_where_it_stands(c.from_user->0, text);
    }
    if c.to_user is Some {
        a_name_occurs_where_it_stands(c.to_user->0, text);
    }
}

/// An address is found by its whole text where the query is a whole address of four
/// numbers, and else by any part of its text. The address and port of the INVITE are
/// searched too.
pub proof fn an_address_is_found_by_its_text(c: CallModel, text: Seq<char>)
    ensures
        whole_address(text) ==> (ip_matches(c, text) <==> (exists|i: int|
            0 <= i < c.ips.len() && ip_text(#[trigger] c.ips[i]) == text) || (c.invite_src is Some
            && sock_text(c.invite_src->0) == text)),
        !whole_address(text) ==> (ip_matches(c, text) <==> (exists|i: int|
            0 <= i < c.ips.len() && named_in(ip_text(#[trigger] c.ips[i]), text)) || (
        c.invite_src is Some && named_in(sock_text(c.invite_src->0), text))),
{
    assert forall|a: Seq<char>| (#[trigger] occurs(a, text)) == named_in(a, text) by {
        a_name_occurs_where_it_stands(a, text);
    }
}

/// A whole address is of digits, dots and colons, ends with a digit and has three
/// dots.
pub proof fn a_whole_address_has_three_dots(s: Seq<char>)
    ensures
        whole_address(s) <==> {
            &&& s.len() > 0 && 48 <= s[s.len() - 1] as int <= 57
            &&& forall|i: int|
                0 <= i < s.len() ==> 48 <= (#[trigger] s[i]) as int <= 57 || s[i] as int == 46
                    || s[i] as int == 58
            &&& s.filter(|c: char| c as int == 46).len() == 3
        },
{
    assert('0' as int == 48 && '9' as int == 57 && '.' as int == 46 && ':' as int == 58);
    lemma_dots(s, s);
    if whole_address(s) {
        assert forall|i: int| 0 <= i < s.len() implies 48 <= (#[trigger] s[i]) as int <= 57
            || s[i] as int == 46 || s[i] as int == 58 by {
            assert(('0' <= s[i] <= '9') || s[i] == '.' || s[i] == ':');
        }
    }
}

proof fn lemma_dots(s: Seq<char>, t: Seq<char>)
    requires
        t.len() <= s.len(),
        forall|i: int| 0 <= i < t.len() ==> #[trigger] s[i] == t[i],
    ensures
        dots(s, t.len() as int) == t.filter(|c: char| c as int == 46).len(),
    decreases t.len(),
{
    reveal(Seq::filter);
    assert('.' as int == 46);
    if t.len() > 0 {
        lemma_dots(s, t.drop_last());
        assert(s[t.len() - 1] == t.last());
    }
}

} // verus!
