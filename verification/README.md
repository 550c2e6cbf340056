# sipmon

A passive monitor for SIP signalling and RTP media. It follows calls by their
Call-ID, measures the quality of their streams, learns TURN relays, keeps
statistics by address, and writes and replays event logs.

The library under `src/` holds the model and the logic. It is written in Verus:
public functions state what they return or change, and these statements and the
laws beside them are proved. A handful of small functions that are marked as
trusted call outside crates; what they state is not proved.
The program under `app/` is ordinary Rust around it: the command line, files and
sockets, the terminal display, JSON, and floating-point arithmetic.

## Modules

| Module | What it holds |
|---|---|
| `addr`, `endpoint`, `double`, `digits`, `text`, `bits`, `order` | Addresses and flows, their written form, doubles by their bits, numbers and text, bit masks, stable sorting |
| `table`, `small`, `octets` | Hash tables, short key lists and byte strings of outside crates, seen as maps and sequences |
| `uri`, `lines`, `filter` | Header values, raw message lines, the rules of the filter bar |
| `model` | Messages, calls, stream summaries, findings, metrics |
| `decode` | pcap headers and pcapng blocks, UDP in frames, SIP, RTP, STUN |
| `analyze` | Loss and jitter bookkeeping, codec parameters |
| `correlate` | The call state machine, RTP streams, TURN tracking |
| `store` | The registry with its indexes, eviction, snapshots, the detail of one call, statistics by address, the heatmap |
| `session` | Configuration, what the loops do next, replay, query, export, publishing |

## Values that the library does not compute

Doubles are carried by their bits. Where arithmetic on them is needed, a caller
hands in a function: `step` and `rescale` for the jitter estimate, `gauge` for
the quality of a stream, `plus` for sums, `percent` for text. Contracts say what
is handed to these functions and where their results go. Rates and averages
leave the library as two numbers.

## Laws

Beside the contracts stand public proof functions that relate several functions
to each other, such as `eviction_reaches_its_limit` in `store::evict`,
`removal_keeps_agreement` in `store::index`, `lost_never_falls` in
`analyze::media_stats`, `milestones_are_set_once` in `correlate::call` and
`everything_is_published_before_the_end` in `session::pace`.
