//! What the loops of the monitor do next.
use crate::model::sip::text_of;
use crate::store::registry::{FocusHint, HintModel};
use crate::text::same_text;
use vstd::prelude::*;

verus! {

/// What a loop runs over.
#[derive(Clone, Copy, PartialEq, Eq, Structural, Debug)]
pub enum Work {
    /// The packets of a capture; whether its events are printed.
    Capture { print: bool },
    /// The records of an event log.
    Replay,
    /// An exported snapshot.
    View,
}

/// What the user looks at.
pub struct Wants {
    /// The call.
    pub focus: Option<FocusHint>,
    /// The filter query.
    pub search: Option<String>,
}

/// What has happened in a loop.
pub enum Event {
    /// A new turn begins.
    Turn {
        /// A signal asks the program to end.
        signalled: bool,
        /// The user wants to quit.
        quit: bool,
        /// The display stands still.
        paused: bool,
        /// The user wants everything forgotten.
        cleared: bool,
        /// What the user looks at.
        now: Wants,
    },
    /// A packet or record was taken in.
    Taken,
    /// The time since the last tick that led to something.
    Ticked {
        /// Milliseconds.
        elapsed_ms: u64,
        /// Packets seen.
        pkts: u64,
        /// What the user looks at.
        now: Wants,
    },
    /// There are no more packets or records.
    Dry {
        /// What the user looks at.
        now: Wants,
    },
}

/// What a loop does next.
#[derive(Clone, Copy, PartialEq, Eq, Structural, Debug)]
pub enum Deed {
    /// Take the next packet or record in.
    Take,
    /// Look at the clock.
    Tick,
    /// Start the clock anew.
    Rearm,
    /// Wait a moment.
    Wait,
    /// Forget everything that was seen.
    Clear,
    /// Publish the state of the monitor: all of it, or what a display shows.
    Publish { full: bool },
    /// Write the events that have come up to the event log, and print them
    /// where that is asked for.
    Drain { print: bool },
    /// Flush the event log.
    FlushLog,
    /// Ask the capture for the packets that it dropped.
    CountDrops,
    /// Make the list of the calls that the filter pins anew.
    Refresh,
    /// End the loop.
    Stop,
}

/// A look at a call in mathematical terms.
pub open spec fn hint_of(h: Option<FocusHint>) -> Option<HintModel> {
    match h {
        Some(x) => Some(x@),
        None => None,
    }
}

/// Where a loop stands.
pub struct Pace {
    /// What it runs over.
    pub work: Work,
    /// Whether there is a display.
    pub with_tui: bool,
    /// Whether the packets or records have come to an end.
    pub ended: bool,
    /// How many packets the display shows; none where it shows none yet.
    pub pkts: Option<u64>,
    /// The call that the display shows; none where it shows nothing yet.
    pub focus: Option<Option<FocusHint>>,
    /// The filter query that the display shows.
    pub search: Option<String>,
}

/// A [`Pace`] in mathematical terms.
pub ghost struct PaceModel {
    pub work: Work,
    pub with_tui: bool,
    pub ended: bool,
    pub pkts: Option<u64>,
    pub focus: Option<Option<HintModel>>,
    pub search: Option<Seq<char>>,
}

impl View for Pace {
    type V = PaceModel;

    open spec fn view(&self) -> PaceModel {
        PaceModel {
            work: self.work,
            with_tui: self.with_tui,
            ended: self.ended,
            pkts: self.pkts,
            focus: match self.focus {
                Some(f) => Some(hint_of(f)),
                None => None,
            },
            search: text_of(self.search),
        }
    }
}

/// A loop at its start.
pub open spec fn fresh_pace(work: Work, with_tui: bool) -> PaceModel {
    PaceModel { work, with_tui, ended: false, pkts: None, focus: None, search: None }
}

/// Whether the user looks at another call or uses another filter than the
/// display shows.
pub open spec fn looks_elsewhere(p: PaceModel, now: Wants) -> bool {
    p.focus != Some(hint_of(now.focus)) || p.search != text_of(now.search)
}

/// A loop after what the user looks at was published.
pub open spec fn looked(p: PaceModel, now: Wants) -> PaceModel {
    PaceModel { focus: Some(hint_of(now.focus)), search: text_of(now.search), ..p }
}

/// Whether a loop ends at the beginning of a turn. Only a capture heeds
/// signals.
pub open spec fn quits(work: Work, signalled: bool, quit: bool) -> bool {
    quit || (signalled && work is Capture)
}

/// Whether a tick leads to something: a capture acts ten times a second with
/// a display and once a second without; a replay five times a second, and
/// only for a display.
pub open spec fn tick_is_due(p: PaceModel, elapsed_ms: u64) -> bool {
    match p.work {
        Work::Capture { .. } => elapsed_ms >= if p.with_tui {
            100int
        } else {
            1000int
        },
        Work::Replay => p.with_tui && elapsed_ms >= 200,
        Work::View => false,
    }
}

/// Whether the tick of a capture brings the display up to date: not where it
/// would show the same packets, call and filter again.
pub open spec fn tick_publishes(p: PaceModel, elapsed_ms: u64, pkts: u64, now: Wants) -> bool {
    &&& p.work is Capture
    &&& tick_is_due(p, elapsed_ms)
    &&& p.with_tui
    &&& p.pkts != Some(pkts) || looks_elsewhere(p, now)
}

/// Whether a turn of a view shows another call.
pub open spec fn turn_publishes(p: PaceModel, focus: Option<FocusHint>) -> bool {
    p.work is View && p.focus != Some(hint_of(focus))
}

/// How everything is written and published when the packets or records are
/// over.
pub open spec fn wrap_up(work: Work) -> Seq<Deed> {
    match work {
        Work::Capture { .. } => seq![
            Deed::Drain { print: false },
            Deed::FlushLog,
            Deed::Publish { full: true },
        ],
        Work::Replay => seq![Deed::Publish { full: true }],
        Work::View => Seq::empty(),
    }
}

/// `d` alone where `c`, else nothing.
pub open spec fn only(c: bool, d: Deed) -> Seq<Deed> {
    if c {
        seq![d]
    } else {
        Seq::empty()
    }
}

/// What a loop does next.
pub open spec fn deeds(p: PaceModel, e: Event) -> Seq<Deed> {
    match e {
        Event::Turn { signalled, quit, paused, cleared, now } => if quits(
            p.work,
            signalled,
            quit,
        ) {
            wrap_up(p.work).push(Deed::Stop)
        } else if paused {
            seq![Deed::Wait]
        } else if p.work is View {
            only(cleared, Deed::Clear) + only(
                turn_publishes(p, now.focus),
                Deed::Publish { full: true },
            ) + seq![Deed::Wait]
        } else {
            only(cleared, Deed::Clear) + only(cleared, Deed::Publish { full: false }) + seq![
                Deed::Take,
            ]
        },
        Event::Taken => match p.work {
            Work::Capture { print } => seq![Deed::Drain { print }, Deed::Tick],
            _ => seq![Deed::Tick],
        },
        Event::Ticked { elapsed_ms, pkts, now } => if !tick_is_due(p, elapsed_ms) {
            Seq::empty()
        } else if p.work is Capture {
            only(tick_publishes(p, elapsed_ms, pkts, now), Deed::Publish { full: false }) + seq![
                Deed::CountDrops,
                Deed::FlushLog,
                Deed::Rearm,
            ]
        } else {
            seq![Deed::Refresh, Deed::Publish { full: false }, Deed::Rearm]
        },
        Event::Dry { now } => {
            let first = if p.ended {
                Seq::empty()
            } else {
                wrap_up(p.work)
            };
            if p.with_tui {
                first + only(looks_elsewhere(p, now), Deed::Publish { full: true }) + seq![
                    Deed::Wait,
                ]
            } else {
                first + wrap_up(p.work).push(Deed::Stop)
            }
        },
    }
}

/// Where a loop stands after an event.
pub open spec fn stepped(p: PaceModel, e: Event) -> PaceModel {
    match e {
        Event::Turn { signalled, quit, paused, cleared, now } => if !quits(p.work, signalled, quit)
            && !paused && turn_publishes(p, now.focus) {
            PaceModel { focus: Some(hint_of(now.focus)), ..p }
        } else {
            p
        },
        Event::Taken => p,
        Event::Ticked { elapsed_ms, pkts, now } => if tick_publishes(p, elapsed_ms, pkts, now) {
            PaceModel { pkts: Some(pkts), ..looked(p, now) }
        } else {
            p
        },
        Event::Dry { now } => PaceModel {
            ended: true,
            ..if p.with_tui && looks_elsewhere(p, now) {
                looked(p, now)
            } else {
                p
            }
        },
    }
}

fn same_opt(a: &Option<String>, b: &Option<String>) -> (r: bool)
    ensures
        r == (text_of(*a) == text_of(*b)),
{
    match (a, b) {
        (Some(x), Some(y)) => same_text(x.as_str(), y.as_str()),
        (None, None) => true,
        _ => false,
    }
}

fn same_hint(a: &Option<FocusHint>, b: &Option<FocusHint>) -> (r: bool)
    ensures
        r == (hint_of(*a) == hint_of(*b)),
{
    match (a, b) {
        (Some(x), Some(y)) => same_text(x.primary.as_str(), y.primary.as_str()) && same_opt(
            &x.linked,
            &y.linked,
        ),
        (None, None) => true,
        _ => false,
    }
}

fn push_wrap_up(out: &mut Vec<Deed>, work: Work)
    ensures
        final(out)@ == old(out)@ + wrap_up(work),
{
    match work {
        Work::Capture { .. } => {
            out.push(Deed::Drain { print: false });
            out.push(Deed::FlushLog);
            out.push(Deed::Publish { full: true });
        },
        Work::Replay => {
            out.push(Deed::Publish { full: true });
        },
        Work::View => {},
    }
    assert(out@ =~= old(out)@ + wrap_up(work));
}

impl Pace {
    /// A loop at its start.
    pub fn new(work: Work, with_tui: bool) -> (r: Pace)
        ensures
            r@ == fresh_pace(work, with_tui),
    {
        Pace { work, with_tui, ended: false, pkts: None, focus: None, search: None }
    }

    fn shows_focus(&self, focus: &Option<FocusHint>) -> (r: bool)
        ensures
            r == (self@.focus == Some(hint_of(*focus))),
    {
        match &self.focus {
            Some(f) => same_hint(f, focus),
            None => false,
        }
    }

    fn elsewhere(&self, now: &Wants) -> (r: bool)
        ensures
            r == looks_elsewhere(self@, *now),
    {
        !(self.shows_focus(&now.focus) && same_opt(&self.search, &now.search))
    }

    fn is_view(&self) -> (r: bool)
        ensures
            r == (self@.work is View),
    {
        match self.work {
            Work::View => true,
            _ => false,
        }
    }

    fn turn(
        &mut self,
        signalled: bool,
        quit: bool,
        paused: bool,
        cleared: bool,
        now: Wants,
    ) -> (r: Vec<Deed>)
        ensures
            r@ == deeds(old(self)@, Event::Turn { signalled, quit, paused, cleared, now }),
            final(self)@ == stepped(
                old(self)@,
                Event::Turn { signalled, quit, paused, cleared, now },
            ),
    {
        let mut out: Vec<Deed> = Vec::new();
        let heeds = match self.work {
            Work::Capture { .. } => true,
            _ => false,
        };
        if quit || (signalled && heeds) {
            push_wrap_up(&mut out, self.work);
            out.push(Deed::Stop);
            assert(out@ =~= wrap_up(self.work).push(Deed::Stop));
            return out;
        }
        if paused {
            out.push(Deed::Wait);
            return out;
        }
        if cleared {
            out.push(Deed::Clear);
        }
        if self.is_view() {
            if !self.shows_focus(&now.focus) {
                out.push(Deed::Publish { full: true });
                self.focus = Some(now.focus);
            }
            out.push(Deed::Wait);
        } else {
            if cleared {
                out.push(Deed::Publish { full: false });
            }
            out.push(Deed::Take);
        }
        assert(out@ =~= deeds(
            old(self)@,
            Event::Turn { signalled, quit, paused, cleared, now },
        ));
        out
    }

    fn taken(&self) -> (r: Vec<Deed>)
        ensures
            r@ == deeds(self@, Event::Taken),
    {
        let mut out: Vec<Deed> = Vec::new();
        if let Work::Capture { print } = self.work {
            out.push(Deed::Drain { print });
        }
        out.push(Deed::Tick);
        assert(out@ =~= deeds(self@, Event::Taken));
        out
    }

    fn ticked(&mut self, elapsed_ms: u64, pkts: u64, now: Wants) -> (r: Vec<Deed>)
        ensures
            r@ == deeds(old(self)@, Event::Ticked { elapsed_ms, pkts, now }),
            final(self)@ == stepped(old(self)@, Event::Ticked { elapsed_ms, pkts, now }),
    {
        let mut out: Vec<Deed> = Vec::new();
        match self.work {
            Work::Capture { .. } => {
                let pause: u64 = if self.with_tui {
                    100
                } else {
                    1000
                };
                if elapsed_ms >= pause {
                    let more = match self.pkts {
                        Some(n) => n != pkts,
                        None => true,
                    };
                    if self.with_tui && (more || self.elsewhere(&now)) {
                        out.push(Deed::Publish { full: false });
                        self.pkts = Some(pkts);
                        self.focus = Some(now.focus);
                        self.search = now.search;
                    }
                    out.push(Deed::CountDrops);
                    out.push(Deed::FlushLog);
                    out.push(Deed::Rearm);
                }
            },
            Work::Replay => {
                if self.with_tui && elapsed_ms >= 200 {
                    out.push(Deed::Refresh);
                    out.push(Deed::Publish { full: false });
                    out.push(Deed::Rearm);
                }
            },
            Work::View => {},
        }
        assert(out@ =~= deeds(old(self)@, Event::Ticked { elapsed_ms, pkts, now }));
        out
    }

    fn dry(&mut self, now: Wants) -> (r: Vec<Deed>)
        ensures
            r@ == deeds(old(self)@, Event::Dry { now }),
            final(self)@ == stepped(old(self)@, Event::Dry { now }),
    {
        let mut out: Vec<Deed> = Vec::new();
        if !self.ended {
            push_wrap_up(&mut out, self.work);
        }
        if self.with_tui {
            if self.elsewhere(&now) {
                out.push(Deed::Publish { full: true });
                self.focus = Some(now.focus);
                self.search = now.search;
            }
            out.push(Deed::Wait);
        } else {
            push_wrap_up(&mut out, self.work);
            out.push(Deed::Stop);
        }
        self.ended = true;
        assert(out@ =~= deeds(old(self)@, Event::Dry { now }));
        out
    }

    /// Takes an event, and says what the loop does next.
    pub fn step(&mut self, e: Event) -> (r: Vec<Deed>)
        ensures
            r@ == deeds(old(self)@, e),
            final(self)@ == stepped(old(self)@, e),
    {
        match e {
            Event::Turn { signalled, quit, paused, cleared, now } => self.turn(
                signalled,
                quit,
                paused,
                cleared,
                now,
            ),
            Event::Taken => self.taken(),
            Event::Ticked { elapsed_ms, pkts, now } => self.ticked(elapsed_ms, pkts, now),
            Event::Dry { now } => self.dry(now),
        }
    }
}

/// The number of packets that the capture itself dropped, where it has grown
/// beyond what was known of it.
pub fn newly_dropped(known: u64, counted: Option<u64>) -> (r: Option<u64>)
    ensures
        r == match counted {
            Some(n) if n > known => Some(n),
            _ => None,
        },
{
    match counted {
        Some(n) if n > known => Some(n),
        _ => None,
    }
}

/// What is printed when a capture is over.
#[derive(Clone, Copy, PartialEq, Eq, Structural, Debug)]
pub struct Report {
    /// One line for each call.
    pub calls: bool,
    /// The statistics of the session.
    pub stats: bool,
}

/// What is printed when a capture is over.
pub fn capture_report(with_tui: bool, quiet: bool, print_stats: bool) -> (r: Report)
    ensures
        r.stats == (with_tui || print_stats),
        r.calls == (!with_tui && !quiet && !print_stats),
{
    Report { calls: !with_tui && !quiet && !print_stats, stats: with_tui || print_stats }
}

/// A capture or replay never ends without everything having been written and
/// published before.
pub proof fn everything_is_published_before_the_end(p: PaceModel, e: Event)
    requires
        p.work !is View,
        deeds(p, e).contains(Deed::Stop),
    ensures
        deeds(p, e).last() == Deed::Stop,
        deeds(p, e).len() >= 2,
        deeds(p, e)[deeds(p, e).len() - 2] == (Deed::Publish { full: true }),
        p.work is Capture ==> deeds(p, e).len() >= 4 && deeds(p, e)[deeds(p, e).len() - 4] == (
        Deed::Drain { print: false }) && deeds(p, e)[deeds(p, e).len() - 3] == Deed::FlushLog,
{
    let i = choose|i: int| 0 <= i < deeds(p, e).len() && deeds(p, e)[i] == Deed::Stop;
    assert(deeds(p, e)[i] == Deed::Stop);
}

/// A wish to quit is granted at the next turn, also while the display stands
/// still.
pub proof fn a_wish_to_quit_is_granted(
    p: PaceModel,
    signalled: bool,
    paused: bool,
    cleared: bool,
    now: Wants,
)
    ensures
        deeds(p, Event::Turn { signalled, quit: true, paused, cleared, now }).last() == Deed::Stop,
{
}

/// A display that stands still gets nothing, and nothing is taken in.
pub proof fn a_pause_only_waits(p: PaceModel, cleared: bool, now: Wants)
    ensures
        deeds(p, Event::Turn { signalled: false, quit: false, paused: true, cleared, now }) == seq![
            Deed::Wait,
        ],
        stepped(p, Event::Turn { signalled: false, quit: false, paused: true, cleared, now }) == p,
{
}

/// With a display, what is looked at after the end is published once, and the
/// loop waits until the user looks elsewhere.
pub proof fn a_look_is_published_once(p: PaceModel, now: Wants)
    requires
        p.with_tui,
    ensures
        deeds(stepped(p, Event::Dry { now }), Event::Dry { now }) == seq![Deed::Wait],
{
    assert(deeds(stepped(p, Event::Dry { now }), Event::Dry { now }) =~= seq![Deed::Wait]);
}

/// A display gets nothing that it shows already.
pub proof fn nothing_new_is_not_published(
    p: PaceModel,
    elapsed_ms: u64,
    later_ms: u64,
    pkts: u64,
    now: Wants,
)
    requires
        tick_publishes(p, elapsed_ms, pkts, now),
    ensures
        !tick_publishes(
            stepped(p, Event::Ticked { elapsed_ms, pkts, now }),
            later_ms,
            pkts,
            now,
        ),
{
}

/// A display that shows nothing yet gets something as soon as there is a
/// tick that is due.
pub proof fn the_first_look_is_published(print: bool, elapsed_ms: u64, pkts: u64, now: Wants)
    ensures
        tick_publishes(
            fresh_pace(Work::Capture { print }, true),
            elapsed_ms,
            pkts,
            now,
        ) == (elapsed_ms >= 100),
{
}

/// Without a display nothing is published while packets or records come in.
pub proof fn without_a_display_only_the_end_is_published(
    p: PaceModel,
    elapsed_ms: u64,
    pkts: u64,
    now: Wants,
    full: bool,
)
    requires
        !p.with_tui,
    ensures
        !deeds(p, Event::Ticked { elapsed_ms, pkts, now }).contains(Deed::Publish { full }),
        !deeds(p, Event::Taken).contains(Deed::Publish { full }),
{
}

/// What is done at the start of a turn. A wish to quit, or a signal during a capture,
/// ends the work: a capture drains and writes what is left and publishes everything,
/// a replay publishes everything, a view just stops. While the display stands still,
/// the loop waits. Otherwise what is to be forgotten is cleared first; a view then
/// publishes where the user looks elsewhere and waits, and other work shows that it
/// is cleared and takes the next packet or record.
pub proof fn a_turn_quits_waits_or_goes_on(
    p: PaceModel,
    signalled: bool,
    quit: bool,
    paused: bool,
    cleared: bool,
    now: Wants,
)
    ensures
        ({
            let e = Event::Turn { signalled, quit, paused, cleared, now };
            let d = deeds(p, e);
            let ends = quit || (signalled && p.work is Capture);
            let moved = match p.focus {
                None => true,
                Some(f) => f != match now.focus {
                    Some(h) => Some(h@),
                    None => None,
                },
            };
            &&& ends && p.work is Capture ==> d == seq![
                Deed::Drain { print: false },
                Deed::FlushLog,
                Deed::Publish { full: true },
                Deed::Stop,
            ]
            &&& ends && p.work is Replay ==> d == seq![Deed::Publish { full: true }, Deed::Stop]
            &&& ends && p.work is View ==> d == seq![Deed::Stop]
            &&& !ends && paused ==> d == seq![Deed::Wait]
            &&& !ends && !paused && p.work is View ==> {
                &&& cleared && moved ==> d == seq![
                    Deed::Clear,
                    Deed::Publish { full: true },
                    Deed::Wait,
                ]
                &&& cleared && !moved ==> d == seq![Deed::Clear, Deed::Wait]
                &&& !cleared && moved ==> d == seq![Deed::Publish { full: true }, Deed::Wait]
                &&& !cleared && !moved ==> d == seq![Deed::Wait]
            }
            &&& !ends && !paused && p.work !is View && cleared ==> d == seq![
                Deed::Clear,
                Deed::Publish { full: false },
                Deed::Take,
            ]
            &&& !ends && !paused && p.work !is View && !cleared ==> d == seq![Deed::Take]
            &&& !ends && !paused && p.work is View && moved ==> stepped(p, e).focus == Some(
                match now.focus {
                    Some(h) => Some(h@),
                    None => None,
                },
            )
            &&& ends || paused || p.work !is View || !moved ==> stepped(p, e) == p
            &&& stepped(p, e).work == p.work && stepped(p, e).ended == p.ended
        }),
{
}

/// Behind each packet of a capture its lines are drained, printed where that is
/// wanted; then, as behind each record, the clock is looked at.
pub proof fn what_is_taken_is_drained(p: PaceModel)
    ensures
        p.work matches Work::Capture { print } ==> deeds(p, Event::Taken) == seq![
            Deed::Drain { print },
            Deed::Tick,
        ],
        p.work !is Capture ==> deeds(p, Event::Taken) == seq![Deed::Tick],
        stepped(p, Event::Taken) == p,
{
}

/// A tick is due in a capture after a tenth of a second with a display and after a
/// second without, in a replay after a fifth of a second with a display, and never
/// otherwise. Nothing is done before. Then a capture with a display publishes where
/// packets came or the user looks elsewhere, and every capture counts drops and
/// writes its log; a replay refreshes and publishes.
pub proof fn a_tick_comes_when_it_is_due(p: PaceModel, elapsed_ms: u64, pkts: u64, now: Wants)
    ensures
        ({
            let e = Event::Ticked { elapsed_ms, pkts, now };
            let d = deeds(p, e);
            let due = if p.work is Capture {
                if p.with_tui {
                    elapsed_ms >= 100
                } else {
                    elapsed_ms >= 1000
                }
            } else {
                p.work is Replay && p.with_tui && elapsed_ms >= 200
            };
            let news = p.pkts != Some(pkts) || p.focus != Some(hint_of(now.focus)) || p.search
                != text_of(now.search);
            &&& !due ==> d.len() == 0 && stepped(p, e) == p
            &&& due && p.work is Capture && p.with_tui && news ==> d == seq![
                Deed::Publish { full: false },
                Deed::CountDrops,
                Deed::FlushLog,
                Deed::Rearm,
            ]
            &&& due && p.work is Capture && !(p.with_tui && news) ==> d == seq![
                Deed::CountDrops,
                Deed::FlushLog,
                Deed::Rearm,
            ] && stepped(p, e) == p
            &&& due && p.work is Replay ==> d == seq![
                Deed::Refresh,
                Deed::Publish { full: false },
                Deed::Rearm,
            ] && stepped(p, e) == p
            &&& due && p.work is Capture && p.with_tui && news ==> stepped(p, e).pkts == Some(pkts)
                && stepped(p, e).focus == Some(hint_of(now.focus)) && stepped(p, e).search
                == text_of(now.search) && stepped(p, e).ended == p.ended
        }),
{
}

/// When nothing more comes, the work is wrapped up once. With a display the loop then
/// waits, and publishes everything where the user looks elsewhere; without one it is
/// wrapped up and stops.
pub proof fn the_end_is_wrapped_up_once(p: PaceModel, now: Wants)
    ensures
        ({
            let e = Event::Dry { now };
            let d = deeds(p, e);
            let moved = p.focus != Some(hint_of(now.focus)) || p.search != text_of(now.search);
            &&& stepped(p, e).ended
            &&& p.with_tui && p.ended && moved ==> d == seq![
                Deed::Publish { full: true },
                Deed::Wait,
            ]
            &&& p.with_tui && p.ended && !moved ==> d == seq![Deed::Wait]
            &&& p.with_tui && !p.ended && p.work is Capture && !moved ==> d == seq![
                Deed::Drain { print: false },
                Deed::FlushLog,
                Deed::Publish { full: true },
                Deed::Wait,
            ]
            &&& p.with_tui && !p.ended && p.work is Replay && !moved ==> d == seq![
                Deed::Publish { full: true },
                Deed::Wait,
            ]
            &&& p.with_tui && !p.ended && moved ==> d.len() >= 2 && d[d.len() - 2] == (
            Deed::Publish { full: true }) && d.last() == Deed::Wait
            &&& !p.with_tui ==> d.last() == Deed::Stop
            &&& !p.with_tui && p.ended && p.work is Capture ==> d == seq![
                Deed::Drain { print: false },
                Deed::FlushLog,
                Deed::Publish { full: true },
                Deed::Stop,
            ]
            &&& !p.with_tui && p.ended && p.work is Replay ==> d == seq![
                Deed::Publish { full: true },
                Deed::Stop,
            ]
            &&& p.with_tui ==> stepped(p, e).focus == Some(hint_of(now.focus)) && stepped(
                p,
                e,
            ).search == text_of(now.search)
            &&& !p.with_tui ==> stepped(p, e).focus == p.focus && stepped(p, e).search == p.search
        }),
{
}

/// Work starts with nothing shown and nothing ended.
pub proof fn work_starts_with_nothing_shown(work: Work, with_tui: bool)
    ensures
        ({
            let p = fresh_pace(work, with_tui);
            &&& p.work == work && p.with_tui == with_tui && !p.ended
            &&& p.pkts is None && p.focus is None && p.search is None
        }),
{
}

} // verus!
