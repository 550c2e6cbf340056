//! What a run of the monitor is asked to do.
use crate::addr::IpAddr;
use crate::model::sip::text_of;
use crate::text::{fold_eq, same_fold, same_text};
use vstd::prelude::*;

verus! {

/// What a file holds.
#[derive(Clone, Copy, PartialEq, Eq, Structural, Debug)]
pub enum FileKind {
    /// Captured packets.
    Capture,
    /// An event log.
    EventLog,
    /// An exported snapshot.
    Export,
}

/// What a file holds, by the extension of its name in either case; none where
/// the extension is not known.
pub open spec fn kind_of(ext: Seq<char>) -> Option<FileKind> {
    if fold_eq(ext, "pcap"@) || fold_eq(ext, "pcapng"@) {
        Some(FileKind::Capture)
    } else if fold_eq(ext, "evlog"@) {
        Some(FileKind::EventLog)
    } else if fold_eq(ext, "jsonl"@) {
        Some(FileKind::Export)
    } else {
        None
    }
}

/// What a file holds, by the extension of its name in either case; none where
/// the extension is not known.
pub fn file_kind(ext: &str) -> (r: Option<FileKind>)
    ensures
        r == kind_of(ext@),
{
    if same_fold(ext, "pcap") || same_fold(ext, "pcapng") {
        Some(FileKind::Capture)
    } else if same_fold(ext, "evlog") {
        Some(FileKind::EventLog)
    } else if same_fold(ext, "jsonl") {
        Some(FileKind::Export)
    } else {
        None
    }
}

/// The event log that a command names: as its argument, or else by an option.
pub fn take_evlog(file: Option<String>, flag: Option<String>) -> (r: Option<String>)
    ensures
        r == match file {
            Some(f) => Some(f),
            None => flag,
        },
{
    match file {
        Some(f) => Some(f),
        None => flag,
    }
}

/// Whether the terminal display runs: not where it is switched off, nor where
/// the output goes elsewhere than to a terminal.
pub fn want_tui(explicit_no_tui: bool, terminal: bool) -> (r: bool)
    ensures
        r == (!explicit_no_tui && terminal),
{
    !explicit_no_tui && terminal
}

/// The length of a heatmap slice in seconds: `1h` and `1d` name an hour and a
/// day; anything else means a quarter of an hour.
pub open spec fn slice_secs(name: Seq<char>) -> u64 {
    if name == "1h"@ {
        3600
    } else if name == "1d"@ {
        86_400
    } else {
        900
    }
}

/// The length of a heatmap slice in seconds, by its name.
pub fn bucket_secs(name: &str) -> (r: u64)
    ensures
        r == slice_secs(name@),
{
    if same_text(name, "1h") {
        3600
    } else if same_text(name, "1d") {
        86_400
    } else {
        900
    }
}

/// The options of the command line that every mode takes.
pub struct Options {
    /// Keep everything in memory.
    pub dry_run: bool,
    /// How many calls are kept.
    pub max_calls: usize,
    /// Drop calls that were idle for so many minutes; zero for never.
    pub call_ttl_mins: u64,
    /// How many streams are kept.
    pub max_streams: usize,
    /// How many findings are kept.
    pub max_diagnostics: usize,
    /// The least severity that is reported.
    pub diag_level: String,
    /// Known relay servers.
    pub turn_servers: Vec<IpAddr>,
    /// The addresses of the monitored machine.
    pub local_ips: Vec<IpAddr>,
    /// Cut stored messages to so many bytes.
    pub raw_truncate: Option<usize>,
    /// The name of the heatmap's slice length.
    pub bucket: String,
    /// Where to write the event log.
    pub evlog: Option<String>,
    /// Where to export the last snapshot.
    pub export_jsonl: Option<String>,
}

/// What a run of the monitor is asked to do.
pub struct Config {
    /// Cut stored messages to so many bytes.
    pub raw_truncate: Option<usize>,
    /// Keep everything in memory.
    pub dry_run: bool,
    /// How many calls are kept.
    pub max_calls: usize,
    /// Drop calls that were idle for so many seconds; zero for never.
    pub call_ttl_secs: u64,
    /// How many streams are kept.
    pub max_streams: usize,
    /// How many findings are kept.
    pub max_diagnostics: usize,
    /// The least severity that is reported.
    pub diag_level: String,
    /// Known relay servers.
    pub turn_servers: Vec<IpAddr>,
    /// The addresses of the monitored machine.
    pub local_ips: Vec<IpAddr>,
    /// The length of a heatmap slice in seconds.
    pub bucket_secs: u64,
    /// Where to export the last snapshot.
    pub export_jsonl: Option<String>,
    /// Where to write the event log.
    pub evlog: Option<String>,
    /// The capture filter.
    pub bpf: Option<String>,
    /// Leave media packets alone.
    pub no_media: bool,
    /// Keep calls that have ended.
    pub keep_terminated: bool,
}

/// Minutes in seconds, as far as they fit.
pub open spec fn secs_of(mins: u64) -> u64 {
    if mins * 60 <= u64::MAX {
        (mins * 60) as u64
    } else {
        u64::MAX
    }
}

/// What the options ask for. A run in memory writes no event log.
pub fn build_config(o: Options) -> (c: Config)
    ensures
        c == (Config {
            raw_truncate: o.raw_truncate,
            dry_run: o.dry_run,
            max_calls: o.max_calls,
            call_ttl_secs: secs_of(o.call_ttl_mins),
            max_streams: o.max_streams,
            max_diagnostics: o.max_diagnostics,
            diag_level: o.diag_level,
            turn_servers: o.turn_servers,
            local_ips: o.local_ips,
            bucket_secs: slice_secs(o.bucket@),
            export_jsonl: o.export_jsonl,
            evlog: if o.dry_run {
                None
            } else {
                o.evlog
            },
            bpf: None,
            no_media: false,
            keep_terminated: true,
        }),
{
    let secs: u64 = match o.call_ttl_mins.checked_mul(60) {
        Some(s) => s,
        None => u64::MAX,
    };
    let slice = bucket_secs(o.bucket.as_str());
    Config {
        raw_truncate: o.raw_truncate,
        dry_run: o.dry_run,
        max_calls: o.max_calls,
        call_ttl_secs: secs,
        max_streams: o.max_streams,
        max_diagnostics: o.max_diagnostics,
        diag_level: o.diag_level,
        turn_servers: o.turn_servers,
        local_ips: o.local_ips,
        bucket_secs: slice,
        export_jsonl: o.export_jsonl,
        evlog: if o.dry_run {
            None
        } else {
            o.evlog
        },
        bpf: None,
        no_media: false,
        keep_terminated: true,
    }
}

impl Config {
    /// For a capture that is there as a whole: every call is kept.
    pub fn offline(self) -> (c: Config)
        ensures
            c == (Config { call_ttl_secs: 0, ..self }),
    {
        Config { call_ttl_secs: 0, ..self }
    }

    /// For a live capture.
    pub fn live(self, bpf: Option<String>, no_media: bool) -> (c: Config)
        ensures
            c == (Config { bpf, no_media, ..self }),
    {
        Config { bpf, no_media, ..self }
    }

    /// For a recording, which always writes an event log.
    pub fn recording(self, evlog: String) -> (c: Config)
        ensures
            c == (Config { evlog: Some(evlog), dry_run: false, ..self }),
    {
        Config { evlog: Some(evlog), dry_run: false, ..self }
    }

    /// For a run with or without the display. A quiet run without it does not
    /// keep calls that have ended: the event log has them.
    pub fn displayed(self, with_tui: bool, quiet: bool) -> (c: Config)
        ensures
            c == (Config { keep_terminated: self.keep_terminated && (with_tui || !quiet), ..self }),
    {
        let keep = self.keep_terminated && (with_tui || !quiet);
        Config { keep_terminated: keep, ..self }
    }

    /// Where the event log is written; nowhere in a run in memory.
    pub fn log_path(&self) -> (r: Option<String>)
        ensures
            text_of(r) == if self.dry_run {
                None
            } else {
                text_of(self.evlog)
            },
    {
        if self.dry_run {
            None
        } else {
            self.evlog.clone()
        }
    }
}

/// What a file is goes by its extension, the case ignored: a capture, an event log,
/// an export, or nothing that is known.
pub proof fn an_extension_tells_the_kind(ext: Seq<char>)
    ensures
        kind_of(ext) == Some(FileKind::Capture) <==> fold_eq(ext, "pcap"@) || fold_eq(
            ext,
            "pcapng"@,
        ),
        kind_of(ext) == Some(FileKind::EventLog) <==> fold_eq(ext, "evlog"@),
        kind_of(ext) == Some(FileKind::Export) <==> fold_eq(ext, "jsonl"@),
{
    reveal_strlit("pcap");
    reveal_strlit("pcapng");
    reveal_strlit("evlog");
    reveal_strlit("jsonl");
    if fold_eq(ext, "evlog"@) && fold_eq(ext, "jsonl"@) {
        assert(crate::text::fold(ext[0]) == crate::text::fold("evlog"@[0]));
        assert(crate::text::fold(ext[0]) == crate::text::fold("jsonl"@[0]));
    }
}

/// A slice is an hour or a day where it is named so, and else a quarter of an hour.
pub proof fn a_slice_is_an_hour_a_day_or_a_quarter(name: Seq<char>)
    ensures
        slice_secs("1h"@) == 60 * 60,
        slice_secs("1d"@) == 24 * 60 * 60,
        name != "1h"@ && name != "1d"@ ==> slice_secs(name) == 15 * 60,
{
    reveal_strlit("1h");
    reveal_strlit("1d");
    assert("1h"@[1] != "1d"@[1]);
}

/// A minute has sixty seconds, as long as they can be counted.
pub proof fn a_minute_has_sixty_seconds(mins: u64)
    ensures
        mins * 60 <= u64::MAX ==> secs_of(mins) == mins * 60,
        mins * 60 > u64::MAX ==> secs_of(mins) == u64::MAX,
{
}

} // verus!
