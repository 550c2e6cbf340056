//! The view of an exported snapshot.
use crate::model::diag::{DiagModel, Diagnostic};
use crate::session::export::findings;
use crate::store::focus::{about, Focus, FocusModel};
use crate::store::registry::FocusHint;
use crate::store::snapshot::{CallSummary, RowModel, Snapshot};
use crate::text::same_text;
use vstd::prelude::*;

verus! {

/// The first row of a call from position `i` on.
pub open spec fn row_from(rows: Seq<CallSummary>, id: Seq<char>, i: int) -> Option<RowModel>
    decreases rows.len() - i,
{
    if i < 0 || i >= rows.len() {
        None
    } else if rows[i].call_id@ == id {
        Some(rows[i]@)
    } else {
        row_from(rows, id, i + 1)
    }
}

/// What an export tells about a call: its row and the findings about it. An
/// export holds no messages and does not say which streams are whose.
pub open spec fn exported_focus(row: RowModel, d: Seq<DiagModel>) -> FocusModel {
    FocusModel {
        call_id: row.call_id,
        state: Some(row.state),
        from_user: row.from_user,
        to_user: row.to_user,
        caller_ua: None,
        callee_ua: None,
        caller_addr: None,
        caller_ip: None,
        callee_addr: None,
        messages: Seq::empty(),
        legs: Seq::empty(),
        b2bua: None,
        streams: Seq::empty(),
        diagnostics: about(d, row.call_id),
        negotiated_endpoints: Seq::empty(),
        pdd_ms: row.pdd_ms,
        setup_ms: row.setup_ms,
        ring_ms: row.ring_ms,
        early_media: row.early_media,
        invite_ts: row.invite_ts,
        trying_ts: None,
        ringing_ts: None,
        answer_ts: None,
        bye_ts: None,
        end_ts: None,
        hangup_by: row.hangup_by,
        hangup_code: row.hangup_code,
        hangup_reason: None,
    }
}

/// What an export tells about a call; none where it has no such call.
pub open spec fn focus_in(s: Snapshot, id: Seq<char>) -> Option<FocusModel> {
    match row_from(s.calls@, id, 0) {
        Some(row) => Some(exported_focus(row, findings(s.diagnostics@))),
        None => None,
    }
}

/// An optional focus in mathematical terms.
pub open spec fn focus_model(f: Option<Focus>) -> Option<FocusModel> {
    match f {
        Some(x) => Some(x@),
        None => None,
    }
}

fn findings_of(all: &Vec<Diagnostic>, id: &str) -> (r: Vec<Diagnostic>)
    ensures
        findings(r@) == about(findings(all@), id@),
{
    let ghost list = findings(all@);
    let ghost keep = |x: DiagModel| x.call_id == id@;
    let mut r: Vec<Diagnostic> = Vec::new();
    let mut i: usize = 0;
    proof {
        reveal(Seq::filter);
        assert(findings(r@) =~= list.take(0).filter(keep));
    }
    while i < all.len()
        invariant
            i <= all@.len(),
            list == findings(all@),
            keep == (|x: DiagModel| x.call_id == id@),
            findings(r@) == list.take(i as int).filter(keep),
        decreases all@.len() - i,
    {
        let d = &all[i];
        let ghost was = r@;
        proof {
            reveal(Seq::filter);
            assert(list.take(i + 1).drop_last() =~= list.take(i as int));
            assert(list[i as int] == d@);
        }
        if same_text(d.call_id.as_str(), id) {
            r.push(d.clone());
            assert(findings(r@) =~= findings(was).push(d@));
        }
        i += 1;
    }
    assert(list.take(list.len() as int) =~= list);
    r
}

/// What an export tells about a call; none where it has no such call.
pub fn build_jsonl_focus(base: &Snapshot, call_id: &str) -> (r: Option<Focus>)
    ensures
        focus_model(r) == focus_in(*base, call_id@),
{
    let mut i: usize = 0;
    while i < base.calls.len()
        invariant
            i <= base.calls@.len(),
            row_from(base.calls@, call_id@, 0) == row_from(base.calls@, call_id@, i as int),
        decreases base.calls@.len() - i,
    {
        let c = &base.calls[i];
        if same_text(c.call_id.as_str(), call_id) {
            let f = Focus {
                call_id: c.call_id.clone(),
                state: Some(c.state),
                from_user: c.from_user.clone(),
                to_user: c.to_user.clone(),
                caller_ua: None,
                callee_ua: None,
                caller_addr: None,
                caller_ip: None,
                callee_addr: None,
                messages: Vec::new(),
                legs: Vec::new(),
                b2bua: None,
                streams: Vec::new(),
                diagnostics: findings_of(&base.diagnostics, call_id),
                negotiated_endpoints: Vec::new(),
                pdd_ms: c.pdd_ms,
                setup_ms: c.setup_ms,
                ring_ms: c.ring_ms,
                early_media: c.early_media,
                invite_ts: c.invite_ts,
                trying_ts: None,
                ringing_ts: None,
                answer_ts: None,
                bye_ts: None,
                end_ts: None,
                hangup_by: c.hangup_by,
                hangup_code: c.hangup_code,
                hangup_reason: None,
            };
            assert(f@ =~= exported_focus(c@, findings(base.diagnostics@)));
            return Some(f);
        }
        i += 1;
    }
    None
}

/// Turns an exported snapshot to the call that is looked at.
pub fn publish_jsonl(snap: &mut Snapshot, hint: Option<&FocusHint>)
    ensures
        focus_model(final(snap).focus) == match hint {
            Some(h) => focus_in(*old(snap), h.primary@),
            None => None,
        },
        *final(snap) == (Snapshot { focus: final(snap).focus, ..*old(snap) }),
{
    snap.focus = match hint {
        Some(h) => build_jsonl_focus(snap, h.primary.as_str()),
        None => None,
    };
}

/// To look at one call after another leaves an export as a look at the last
/// alone does: a look reads only what no look changes.
pub proof fn the_last_look_counts(s: Snapshot, first: Option<Focus>, id: Seq<char>)
    ensures
        focus_in(Snapshot { focus: first, ..s }, id) == focus_in(s, id),
{
}

/// Whether a row is the first of a call.
pub open spec fn first_row(rows: Seq<CallSummary>, id: Seq<char>, i: int) -> bool {
    &&& 0 <= i < rows.len() && rows[i].call_id@ == id
    &&& forall|j: int| 0 <= j < i ==> (#[trigger] rows[j]).call_id@ != id
}

proof fn lemma_row_from(rows: Seq<CallSummary>, id: Seq<char>, from: int)
    requires
        0 <= from <= rows.len(),
    ensures
        forall|i: int|
            from <= i && #[trigger] first_row(rows, id, i) ==> row_from(rows, id, from) == Some(
                rows[i]@,
            ),
        (forall|j: int| from <= j < rows.len() ==> (#[trigger] rows[j]).call_id@ != id)
            ==> row_from(rows, id, from) is None,
    decreases rows.len() - from,
{
    if from < rows.len() && rows[from].call_id@ != id {
        lemma_row_from(rows, id, from + 1);
    }
}

/// A look at a call of an export tells what its row tells and the findings about it.
/// There is none where no row is of the call.
pub proof fn a_look_tells_what_the_row_tells(s: Snapshot, id: Seq<char>, i: int)
    ensures
        first_row(s.calls@, id, i) ==> focus_in(s, id) is Some && {
            let f = focus_in(s, id)->0;
            let row = s.calls@[i]@;
            &&& f.call_id == id && f.state == Some(row.state)
            &&& f.from_user == row.from_user && f.to_user == row.to_user
            &&& f.pdd_ms == row.pdd_ms && f.setup_ms == row.setup_ms && f.ring_ms == row.ring_ms
            &&& f.early_media == row.early_media && f.invite_ts == row.invite_ts
            &&& f.hangup_by == row.hangup_by && f.hangup_code == row.hangup_code
            &&& f.diagnostics == findings(s.diagnostics@).filter(|d: DiagModel| d.call_id == id)
            &&& f.messages.len() == 0 && f.legs.len() == 0 && f.streams.len() == 0
            &&& f.b2bua is None && f.answer_ts is None && f.end_ts is None
        },
        (forall|j: int| 0 <= j < s.calls@.len() ==> (#[trigger] s.calls@[j]).call_id@ != id)
            ==> focus_in(s, id) is None,
{
    lemma_row_from(s.calls@, id, 0);
}

} // verus!
