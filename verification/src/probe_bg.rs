//! The inside-a-battleground live probe's decisions: a state machine that walks the real player
//! road — level, greet a battlemaster, queue, take the port through the stock Lua verb — and then,
//! from inside, takes a census at a fixed interval, carries the flag where the battleground has
//! one, dies on purpose to watch the graveyard's resurrect wave, reports, and leaves.
//!
//! Each frame the host reads what the probe needs into a [`Frame`], calls [`BgProbe::step`], and
//! performs the [`ProbeAction`]s it gets back, in order: GM commands on the chat wire, packets,
//! Lua evaluations, and the census readings. Times are milliseconds on the probe's clock.
//!
//! **The testing toggle.** A battleground does not start until enough bodies are queued on each
//! side; the server's `.debug bg` toggle starts one with a single player. It is a toggle, not a
//! set, so the probe reads the server's reply before it queues and sends it once more if the
//! reply says it just turned testing *off*. It is turned back off once the match is running
//! (the census sample by which the doors have opened), because while it is on the server's
//! premature-finish countdown is frozen and a solo battleground could never end; a run whose
//! census ends before the doors turns it off with its last census sample instead, so every run
//! that reaches its report leaves the toggle off.
use vstd::prelude::*;
use crate::text::{chars_of, str_contains, contains_seq, eq_ignore_ascii_case, lower_seq, string_of};
use crate::census::{decimal, decimal_of};

verus! {

// ── Fixtures ─────────────────────────────────────────────────────────────────────────────────────

/// The level the probe body is raised to: above every battleground's bracket floor on every
/// content patch, so the probe never has to know which patch the server runs.
pub const QUEUE_LEVEL: u32 = 60;

/// How many times to drop and re-take the queue before giving up.
pub const MAX_REJOINS: u32 = 3;

/// How often a census is taken once inside.
pub const CENSUS_EVERY_MS: u64 = 12000;

/// How many census samples are taken by default: the full preparation phase, the doors, and one
/// sample past them.
pub const CENSUS_SAMPLES_DEFAULT: u32 = 12;

/// How often the ghost leg samples.
pub const GHOST_SAMPLE_EVERY_MS: u64 = 4000;

/// How many ghost samples: a full resurrect wave and a little of the next.
pub const GHOST_SAMPLES: u32 = 11;

/// How many samples the flag leg takes after the use, one every three seconds.
pub const FLAG_SAMPLES: u32 = 5;

/// The census sample by which the doors have opened; the testing toggle goes back off here (or
/// with the last census sample, for a census shorter than this).
pub const DOORS_SAMPLE: u32 = 11;

/// One battleground's fixtures (its spawn coordinates are the host's).
#[derive(Clone, Copy)]
pub struct Arena {
    /// The `WOW_PROBE_BG` value that selects it.
    pub key: &'static str,
    /// The map the join carries and the port must land on.
    pub map: u32,
    /// The battlemaster's creature entry — found by entry, since all three stand in one alcove.
    pub npc_entry: u32,
    /// That battlemaster's display name.
    pub npc_name: &'static str,
    /// The gameobject entry of the flag the flag leg takes, where the objective is one.
    pub flag: Option<u32>,
}

/// The three battlegrounds, in table order.
pub open spec fn arena_table(i: int) -> (Seq<char>, u32, u32, Option<u32>) {
    if i == 0 {
        ("wsg"@, 489u32, 14981u32, Some(179831u32))
    } else if i == 1 {
        ("ab"@, 529u32, 15008u32, None)
    } else {
        ("av"@, 30u32, 7410u32, None)
    }
}

fn arena_at(i: usize) -> (a: Arena)
    requires
        i < 3,
    ensures
        a.key@ == arena_table(i as int).0,
        a.map == arena_table(i as int).1,
        a.npc_entry == arena_table(i as int).2,
        a.flag == arena_table(i as int).3,
{
    if i == 0 {
        Arena { key: "wsg", map: 489, npc_entry: 14981, npc_name: "Elfarran", flag: Some(179831) }
    } else if i == 1 {
        Arena { key: "ab", map: 529, npc_entry: 15008, npc_name: "Lady Hoteshem", flag: None }
    } else {
        Arena { key: "av", map: 30, npc_entry: 7410, npc_name: "Thelman Slatefist", flag: None }
    }
}

/// The table row `want` selects: the first whose key matches it ASCII-case-insensitively, and
/// Warsong Gulch (the smallest and fastest) when none does.
pub open spec fn arena_choice(want: Seq<char>) -> int {
    if lower_seq(arena_table(0).0) == lower_seq(want) {
        0
    } else if lower_seq(arena_table(1).0) == lower_seq(want) {
        1
    } else if lower_seq(arena_table(2).0) == lower_seq(want) {
        2
    } else {
        0
    }
}

/// The battleground a run is for, by its key.
pub fn arena_for(want: &str) -> (a: Arena)
    ensures
        a.key@ == arena_table(arena_choice(want@)).0,
        a.map == arena_table(arena_choice(want@)).1,
        a.npc_entry == arena_table(arena_choice(want@)).2,
        a.flag == arena_table(arena_choice(want@)).3,
{
    let mut i: usize = 0;
    while i < 3
        invariant
            i <= 3,
            forall|j: int| 0 <= j < i ==> lower_seq(arena_table(j).0) != lower_seq(want@),
        decreases 3 - i,
    {
        let a = arena_at(i);
        if eq_ignore_ascii_case(a.key, want) {
            return a;
        }
        i = i + 1;
    }
    arena_at(0)
}

// ── What the host reads, and what it is told to do ───────────────────────────────────────────────

/// What the host read this frame.
pub struct Frame {
    /// The probe's clock, in milliseconds.
    pub now: u64,
    /// The body's level (0 when unknown).
    pub level: u32,
    /// Whether the Lua VM is there.
    pub has_vm: bool,
    /// The battlemaster of the run's arena, within reach, if one streamed in.
    pub master_near: Option<u64>,
    /// The battlemaster whose list the client holds, if any.
    pub listed_master: Option<u64>,
    /// The battlefield queue's slots: their status, or `None` for an empty slot.
    pub slots: Vec<Option<u8>>,
    /// The map the client is on.
    pub map: u32,
    /// The run's flag, within reach, if it streamed in.
    pub flag_near: Option<u64>,
    /// Whether the body is dead.
    pub dead: bool,
    /// How many census samples to take.
    pub census_samples: u32,
}

/// A GM command on the chat wire.
#[derive(Clone, Copy, PartialEq, Eq, Debug, Structural)]
pub enum GmCommand {
    /// `.revive`.
    Revive,
    /// `.levelup <levels>`.
    LevelUp { levels: u32 },
    /// `.unaura 26013`: clears Deserter, which would refuse the join outright.
    ClearDeserter,
    /// `.debug bg`: the testing toggle.
    ToggleTesting,
    /// `.die`.
    Die,
    /// `.recall`.
    Recall,
}

/// Something the probe reports.
#[derive(Clone, Copy, PartialEq, Eq, Debug, Structural)]
pub enum ProbeNote {
    Setup,
    /// The toggle's reply said testing was on and the send turned it off; sending once more.
    TestingWasOn,
    TestingOn,
    /// No reply to the toggle was read; continuing.
    TestingUnread,
    Greeting { npc: u64 },
    Listed,
    Confirm { slot: usize },
    Rejoin { count: u32, slot: usize },
    Entered { after_ms: u64 },
    TestingOff,
    FlagHop,
    NoFlag,
    FlagStreamed { guid: u64 },
    FlagDone,
    Dead,
    Done,
}

/// Why the probe gave up.
#[derive(Clone, Copy, PartialEq, Eq, Debug, Structural)]
pub enum ProbeFailure {
    /// The toggle reads off after two sends: the account may lack the rights for it.
    TestingStaysOff,
    /// The battlemaster never streamed in within reach.
    MasterNeverStreamed,
    /// No battlefield list came back after the greeting.
    NoList,
    /// No Lua VM to take the port through.
    NoVm,
    /// The port verb raised.
    PortRaised,
    /// No queue slot became ready.
    NeverReady,
    /// The port did not land on the battleground's map.
    MapNotReached { map: u32 },
    /// The Lua VM went away inside the battleground.
    VmGone,
    /// The battlemaster's list went away before the rejoin.
    ListGone,
    /// The flag never streamed in within reach.
    FlagNeverStreamed,
    /// Still alive after `.die`.
    StillAlive,
}

/// One thing the host does for the probe.
#[derive(Clone, Copy, PartialEq, Eq, Debug, Structural)]
pub enum ProbeAction {
    /// Install the Lua event tap (once there is a VM to put it in).
    InstallTap,
    Note(ProbeNote),
    Fail(ProbeFailure),
    Gm(GmCommand),
    /// Teleport to the arena's battlemasters.
    GoToArena,
    /// Teleport to the arena's flag.
    GoToFlag,
    /// Greet the battlemaster on the wire.
    Hello { npc: u64 },
    /// Join the battleground's queue.
    Join { battlemaster: u64, map: u32 },
    /// `AcceptBattlefieldPort(slot, 1)` through the stock verb; if it raises, tell the probe
    /// ([`BgProbe::port_raised`]).
    AcceptPort { slot: usize },
    /// `AcceptBattlefieldPort(slot, 0)`: the queue's own decline.
    DeclinePort { slot: usize },
    /// Use a gameobject.
    UseObject { guid: u64 },
    /// Release the spirit.
    Repop,
    /// Take one census sample, `t_ms` after entry.
    Census { t_ms: u64 },
    /// Take one flag-leg sample, `t_ms` after the use.
    FlagSample { t_ms: u64 },
    /// Take one ghost-leg sample, `t_ms` after the release.
    GhostSample { t_ms: u64 },
    /// `AcceptAreaSpiritHeal()`.
    AcceptSpiritHeal,
    /// Drive the two battleground windows and leave the battleground.
    Report,
}

/// The chat-wire text of a GM command.
pub open spec fn gm_spec(cmd: GmCommand) -> Seq<char> {
    match cmd {
        GmCommand::Revive => ".revive"@,
        GmCommand::LevelUp { levels } => ".levelup "@ + decimal(levels as nat),
        GmCommand::ClearDeserter => ".unaura 26013"@,
        GmCommand::ToggleTesting => ".debug bg"@,
        GmCommand::Die => ".die"@,
        GmCommand::Recall => ".recall"@,
    }
}

/// The chat-wire text of a GM command.
pub fn gm_text(cmd: GmCommand) -> (s: String)
    ensures
        s@ == gm_spec(cmd),
{
    match cmd {
        GmCommand::Revive => ".revive".to_owned(),
        GmCommand::LevelUp { levels } => {
            let mut t = chars_of(".levelup ");
            let mut d = decimal_of(levels as u64);
            t.append(&mut d);
            string_of(t.as_slice())
        },
        GmCommand::ClearDeserter => ".unaura 26013".to_owned(),
        GmCommand::ToggleTesting => ".debug bg".to_owned(),
        GmCommand::Die => ".die".to_owned(),
        GmCommand::Recall => ".recall".to_owned(),
    }
}

/// The Lua an action runs through the stock verbs, for the actions that are one.
pub open spec fn lua_spec(a: ProbeAction) -> Option<Seq<char>> {
    match a {
        ProbeAction::AcceptPort { slot } => Some(
            "AcceptBattlefieldPort("@ + decimal(slot as nat) + ", 1)"@,
        ),
        ProbeAction::DeclinePort { slot } => Some(
            "AcceptBattlefieldPort("@ + decimal(slot as nat) + ", 0)"@,
        ),
        ProbeAction::AcceptSpiritHeal => Some("AcceptAreaSpiritHeal()"@),
        _ => None,
    }
}

/// The Lua an action runs, for the actions that run one.
pub fn lua_chunk(a: ProbeAction) -> (s: Option<String>)
    ensures
        (match s {
            Some(t) => lua_spec(a) == Some(t@),
            None => lua_spec(a) is None,
        }),
{
    match a {
        ProbeAction::AcceptPort { slot } => {
            let mut t = chars_of("AcceptBattlefieldPort(");
            let mut d = decimal_of(slot as u64);
            t.append(&mut d);
            let mut tail = chars_of(", 1)");
            t.append(&mut tail);
            Some(string_of(t.as_slice()))
        },
        ProbeAction::DeclinePort { slot } => {
            let mut t = chars_of("AcceptBattlefieldPort(");
            let mut d = decimal_of(slot as u64);
            t.append(&mut d);
            let mut tail = chars_of(", 0)");
            t.append(&mut tail);
            Some(string_of(t.as_slice()))
        },
        ProbeAction::AcceptSpiritHeal => Some("AcceptAreaSpiritHeal()".to_owned()),
        _ => None,
    }
}

/// Where the probe is on its road.
#[derive(Clone, Copy, PartialEq, Eq, Debug, Structural)]
pub enum Phase {
    Wait,
    Hopped { sent_at: u64 },
    Toggled { sent_at: u64, corrected: bool },
    Greeted { master: u64, sent_at: u64 },
    Joined { sent_at: u64 },
    Rejoining { at: u64 },
    Ported { sent_at: u64 },
    Inside { entered_at: u64, next_census: u64, samples: u32 },
    FlagHop { at: u64 },
    FlagUsed { at: u64, samples: u32 },
    Dying { sent_at: u64 },
    Spirit { released_at: u64, next_sample: u64, samples: u32 },
    Done,
}

/// The probe's state.
#[derive(Clone, Copy, PartialEq, Eq, Debug, Structural)]
pub struct BgProbe {
    pub phase: Phase,
    /// The Lua event tap is in.
    pub tap_installed: bool,
    /// How many times the queue has been dropped and re-taken.
    pub rejoins: u32,
}

// ── The transition ───────────────────────────────────────────────────────────────────────────────

/// Milliseconds from `t` to `now` (none when the clock reads earlier).
pub open spec fn since(now: u64, t: u64) -> int {
    if now >= t {
        now - t
    } else {
        0
    }
}

/// `now + d`, held at the clock's ceiling.
pub open spec fn later(now: u64, d: u64) -> u64 {
    if now + d <= u64::MAX {
        (now + d) as u64
    } else {
        u64::MAX
    }
}

/// One more sample, held at the counter's ceiling.
pub open spec fn bump(samples: u32) -> u32 {
    if samples < u32::MAX {
        (samples + 1) as u32
    } else {
        samples
    }
}

/// The first slot (0-based) satisfying `ready` (status 2) or, when `ready` is off, the first taken
/// slot.
pub open spec fn first_slot(slots: Seq<Option<u8>>, ready: bool) -> Option<int>
    decreases slots.len(),
{
    if slots.len() == 0 {
        None
    } else {
        match first_slot(slots.drop_last(), ready) {
            Some(i) => Some(i),
            None => if (ready && slots.last() == Some(2u8)) || (!ready && slots.last() is Some) {
                Some(slots.len() - 1)
            } else {
                None
            },
        }
    }
}

/// Whether the census sample numbered `n` puts the testing toggle back: the sample by which the
/// doors have opened, or — for a run whose census ends before the doors — its last sample, so
/// that no run leaves the battleground with testing still on.
pub open spec fn testing_off_now(n: u32, census_samples: u32) -> bool {
    n == DOORS_SAMPLE || (census_samples <= n && n < DOORS_SAMPLE)
}

/// One step of the road, from the phase alone: the next phase, the next rejoin count, and what
/// to do. `seen` is the event tap's drained text, read when [`BgProbe::wants_drain`] says so.
pub open spec fn phase_step(p: BgProbe, a: Arena, f: Frame, seen: Seq<char>) -> (Phase, u32, Seq<
    ProbeAction,
>) {
    let now = f.now;
    match p.phase {
        Phase::Wait => (
            Phase::Hopped { sent_at: now },
            p.rejoins,
            seq![ProbeAction::Gm(GmCommand::Revive)] + (if f.level < QUEUE_LEVEL {
                seq![ProbeAction::Gm(GmCommand::LevelUp { levels: (QUEUE_LEVEL - f.level) as u32 })]
            } else {
                Seq::empty()
            }) + seq![
                ProbeAction::Gm(GmCommand::ClearDeserter),
                ProbeAction::Note(ProbeNote::Setup),
                ProbeAction::GoToArena,
            ],
        ),
        Phase::Hopped { sent_at } => if since(now, sent_at) < 3000 {
            (p.phase, p.rejoins, Seq::empty())
        } else {
            (
                Phase::Toggled { sent_at: now, corrected: false },
                p.rejoins,
                seq![ProbeAction::Gm(GmCommand::ToggleTesting)],
            )
        },
        Phase::Toggled { sent_at, corrected } => if since(now, sent_at) < 1500 {
            (p.phase, p.rejoins, Seq::empty())
        } else if contains_seq(seen, "normal playercount"@) {
            if corrected {
                (Phase::Done, p.rejoins, seq![ProbeAction::Fail(ProbeFailure::TestingStaysOff)])
            } else {
                (
                    Phase::Toggled { sent_at: now, corrected: true },
                    p.rejoins,
                    seq![
                        ProbeAction::Note(ProbeNote::TestingWasOn),
                        ProbeAction::Gm(GmCommand::ToggleTesting),
                    ],
                )
            }
        } else {
            let reading = if contains_seq(seen, "debugging"@) {
                ProbeAction::Note(ProbeNote::TestingOn)
            } else {
                ProbeAction::Note(ProbeNote::TestingUnread)
            };
            match f.master_near {
                Some(m) => (
                    Phase::Greeted { master: m, sent_at: now },
                    p.rejoins,
                    seq![
                        reading,
                        ProbeAction::Note(ProbeNote::Greeting { npc: m }),
                        ProbeAction::Hello { npc: m },
                    ],
                ),
                None => if since(now, sent_at) > 15000 {
                    (
                        Phase::Done,
                        p.rejoins,
                        seq![reading, ProbeAction::Fail(ProbeFailure::MasterNeverStreamed)],
                    )
                } else {
                    (p.phase, p.rejoins, seq![reading])
                },
            }
        },
        Phase::Greeted { master, sent_at } => if f.listed_master == Some(master) {
            (
                Phase::Joined { sent_at: now },
                p.rejoins,
                seq![
                    ProbeAction::Note(ProbeNote::Listed),
                    ProbeAction::Join { battlemaster: master, map: a.map },
                ],
            )
        } else if since(now, sent_at) > 8000 {
            (Phase::Done, p.rejoins, seq![ProbeAction::Fail(ProbeFailure::NoList)])
        } else {
            (p.phase, p.rejoins, Seq::empty())
        },
        Phase::Joined { sent_at } => match first_slot(f.slots@, true) {
            Some(i) => if f.has_vm {
                (
                    Phase::Ported { sent_at: now },
                    p.rejoins,
                    seq![
                        ProbeAction::Note(ProbeNote::Confirm { slot: (i + 1) as usize }),
                        ProbeAction::AcceptPort { slot: (i + 1) as usize },
                    ],
                )
            } else {
                (
                    Phase::Done,
                    p.rejoins,
                    seq![
                        ProbeAction::Note(ProbeNote::Confirm { slot: (i + 1) as usize }),
                        ProbeAction::Fail(ProbeFailure::NoVm),
                    ],
                )
            },
            None => if since(now, sent_at) > 12000 && p.rejoins < MAX_REJOINS {
                let slot: usize = match first_slot(f.slots@, false) {
                    Some(j) => (j + 1) as usize,
                    None => 1,
                };
                (
                    Phase::Rejoining { at: now },
                    (p.rejoins + 1) as u32,
                    seq![ProbeAction::Note(ProbeNote::Rejoin { count: (p.rejoins + 1) as u32, slot })]
                        + (if f.has_vm {
                        seq![ProbeAction::DeclinePort { slot }]
                    } else {
                        Seq::empty()
                    }),
                )
            } else if since(now, sent_at) > 30000 {
                (Phase::Done, p.rejoins, seq![ProbeAction::Fail(ProbeFailure::NeverReady)])
            } else {
                (p.phase, p.rejoins, Seq::empty())
            },
        },
        Phase::Ported { sent_at } => if f.map == a.map {
            (
                Phase::Inside { entered_at: now, next_census: later(now, CENSUS_EVERY_MS), samples: 0 },
                p.rejoins,
                seq![ProbeAction::Note(ProbeNote::Entered { after_ms: since(now, sent_at) as u64 })],
            )
        } else if since(now, sent_at) > 30000 {
            (Phase::Done, p.rejoins, seq![ProbeAction::Fail(ProbeFailure::MapNotReached { map: f.map })])
        } else {
            (p.phase, p.rejoins, Seq::empty())
        },
        Phase::Inside { entered_at, next_census, samples } => if now < next_census {
            (p.phase, p.rejoins, Seq::empty())
        } else if !f.has_vm {
            (Phase::Done, p.rejoins, seq![ProbeAction::Fail(ProbeFailure::VmGone)])
        } else {
            let n = bump(samples);
            let census = seq![ProbeAction::Census { t_ms: since(now, entered_at) as u64 }];
            let doors = if testing_off_now(n, f.census_samples) {
                seq![ProbeAction::Note(ProbeNote::TestingOff), ProbeAction::Gm(GmCommand::ToggleTesting)]
            } else {
                Seq::empty()
            };
            if n >= f.census_samples {
                match a.flag {
                    Some(_) => (
                        Phase::FlagHop { at: now },
                        p.rejoins,
                        census + doors + seq![
                            ProbeAction::Note(ProbeNote::FlagHop),
                            ProbeAction::GoToFlag,
                        ],
                    ),
                    None => (
                        Phase::Dying { sent_at: now },
                        p.rejoins,
                        census + doors + seq![
                            ProbeAction::Note(ProbeNote::NoFlag),
                            ProbeAction::Gm(GmCommand::Die),
                        ],
                    ),
                }
            } else {
                (
                    Phase::Inside { entered_at, next_census: later(now, CENSUS_EVERY_MS), samples: n },
                    p.rejoins,
                    census + doors,
                )
            }
        },
        Phase::Rejoining { at } => if since(now, at) < 2000 {
            (p.phase, p.rejoins, Seq::empty())
        } else {
            match f.listed_master {
                None => (Phase::Done, p.rejoins, seq![ProbeAction::Fail(ProbeFailure::ListGone)]),
                Some(m) => (
                    Phase::Joined { sent_at: now },
                    p.rejoins,
                    seq![ProbeAction::Join { battlemaster: m, map: a.map }],
                ),
            }
        },
        Phase::FlagHop { at } => if since(now, at) < 4000 {
            (p.phase, p.rejoins, Seq::empty())
        } else if a.flag is None {
            (Phase::Done, p.rejoins, Seq::empty())
        } else {
            match f.flag_near {
                Some(g) => (
                    Phase::FlagUsed { at: now, samples: 0 },
                    p.rejoins,
                    seq![ProbeAction::Note(ProbeNote::FlagStreamed { guid: g }), ProbeAction::UseObject { guid: g }],
                ),
                None => if since(now, at) > 20000 {
                    (
                        Phase::Dying { sent_at: now },
                        p.rejoins,
                        seq![
                            ProbeAction::Fail(ProbeFailure::FlagNeverStreamed),
                            ProbeAction::Gm(GmCommand::Die),
                        ],
                    )
                } else {
                    (p.phase, p.rejoins, Seq::empty())
                },
            }
        },
        Phase::FlagUsed { at, samples } => if since(now, at) < (samples + 1) * 3000 {
            (p.phase, p.rejoins, Seq::empty())
        } else if !f.has_vm {
            (Phase::Done, p.rejoins, Seq::empty())
        } else {
            let n = bump(samples);
            if n >= FLAG_SAMPLES {
                (
                    Phase::Dying { sent_at: now },
                    p.rejoins,
                    seq![
                        ProbeAction::FlagSample { t_ms: since(now, at) as u64 },
                        ProbeAction::Note(ProbeNote::FlagDone),
                        ProbeAction::Gm(GmCommand::Die),
                    ],
                )
            } else {
                (
                    Phase::FlagUsed { at, samples: n },
                    p.rejoins,
                    seq![ProbeAction::FlagSample { t_ms: since(now, at) as u64 }],
                )
            }
        },
        Phase::Dying { sent_at } => if f.dead {
            (
                Phase::Spirit {
                    released_at: now,
                    next_sample: later(now, GHOST_SAMPLE_EVERY_MS),
                    samples: 0,
                },
                p.rejoins,
                seq![ProbeAction::Note(ProbeNote::Dead), ProbeAction::Repop],
            )
        } else if since(now, sent_at) > 15000 {
            (Phase::Done, p.rejoins, seq![ProbeAction::Fail(ProbeFailure::StillAlive)])
        } else {
            (p.phase, p.rejoins, Seq::empty())
        },
        Phase::Spirit { released_at, next_sample, samples } => if now < next_sample {
            (p.phase, p.rejoins, Seq::empty())
        } else if !f.has_vm {
            (Phase::Done, p.rejoins, Seq::empty())
        } else {
            let n = bump(samples);
            let sample = seq![ProbeAction::GhostSample { t_ms: since(now, released_at) as u64 }];
            if n >= GHOST_SAMPLES {
                (
                    Phase::Done,
                    p.rejoins,
                    sample + seq![
                        ProbeAction::AcceptSpiritHeal,
                        ProbeAction::Report,
                        ProbeAction::Gm(GmCommand::Recall),
                        ProbeAction::Note(ProbeNote::Done),
                    ],
                )
            } else {
                (
                    Phase::Spirit {
                        released_at,
                        next_sample: later(now, GHOST_SAMPLE_EVERY_MS),
                        samples: n,
                    },
                    p.rejoins,
                    sample,
                )
            }
        },
        Phase::Done => (Phase::Done, p.rejoins, Seq::empty()),
    }
}

/// One frame of the probe: the tap goes in as soon as there is a VM to put it in (and not before —
/// an install with no VM would read as "the battleground fired no events"), then the road takes
/// one step.
pub open spec fn step_of(p: BgProbe, a: Arena, f: Frame, seen: Seq<char>) -> (BgProbe, Seq<
    ProbeAction,
>) {
    let tap = !p.tap_installed && f.has_vm;
    let (phase, rejoins, acts) = phase_step(p, a, f, seen);
    (
        BgProbe { phase, tap_installed: p.tap_installed || f.has_vm, rejoins },
        if tap {
            seq![ProbeAction::InstallTap] + acts
        } else {
            acts
        },
    )
}

fn since_exec(now: u64, t: u64) -> (d: u64)
    ensures
        d == since(now, t),
{
    if now >= t {
        now - t
    } else {
        0
    }
}

fn later_exec(now: u64, d: u64) -> (t: u64)
    ensures
        t == later(now, d),
{
    if now <= u64::MAX - d {
        now + d
    } else {
        u64::MAX
    }
}

fn bump_exec(samples: u32) -> (n: u32)
    ensures
        n == bump(samples),
{
    if samples < u32::MAX {
        samples + 1
    } else {
        samples
    }
}

fn find_slot(slots: &Vec<Option<u8>>, ready: bool) -> (r: Option<usize>)
    ensures
        r is None ==> first_slot(slots@, ready) is None,
        r matches Some(i) ==> first_slot(slots@, ready) == Some(i as int) && i < slots.len(),
{
    let n = slots.len();
    let mut i: usize = 0;
    let mut found: Option<usize> = None;
    while i < n
        invariant
            n == slots@.len(),
            i <= n,
            found is None ==> first_slot(slots@.take(i as int), ready) is None,
            found matches Some(k) ==> first_slot(slots@.take(i as int), ready) == Some(k as int)
                && k < i,
        decreases n - i,
    {
        assert(slots@.take(i + 1).drop_last() =~= slots@.take(i as int));
        if found.is_none() {
            let hit = match slots[i] {
                Some(s) => !ready || s == 2,
                None => false,
            };
            if hit {
                found = Some(i);
            }
        }
        i = i + 1;
    }
    assert(slots@.take(n as int) =~= slots@);
    found
}

impl BgProbe {
    /// A probe at the start of its road.
    pub fn new() -> (p: Self)
        ensures
            p.phase == Phase::Wait,
            !p.tap_installed,
            p.rejoins == 0,
    {
        BgProbe { phase: Phase::Wait, tap_installed: false, rejoins: 0 }
    }

    /// Whether this frame's step reads the event tap: the host drains it and passes the text as
    /// `seen`. Only the testing toggle's reply is read this way, once the reply has had time to
    /// come back.
    pub fn wants_drain(&self, now: u64) -> (r: bool)
        ensures
            r == (self.phase matches Phase::Toggled { sent_at, .. } && since(now, sent_at) >= 1500),
    {
        match self.phase {
            Phase::Toggled { sent_at, .. } => since_exec(now, sent_at) >= 1500,
            _ => false,
        }
    }

    /// The stock port verb raised: the road ends there.
    pub fn port_raised(&mut self) -> (acts: Vec<ProbeAction>)
        ensures
            final(self).phase == Phase::Done,
            final(self).tap_installed == old(self).tap_installed,
            final(self).rejoins == old(self).rejoins,
            acts@ == seq![ProbeAction::Fail(ProbeFailure::PortRaised)],
    {
        self.phase = Phase::Done;
        let mut acts = Vec::new();
        acts.push(ProbeAction::Fail(ProbeFailure::PortRaised));
        acts
    }

    /// One frame: what to do, in order, and the probe's next state.
    pub fn step(&mut self, arena: &Arena, f: &Frame, seen: &str) -> (acts: Vec<ProbeAction>)
        ensures
            (*final(self), acts@) == step_of(*old(self), *arena, *f, seen@),
    {
        let mut acts: Vec<ProbeAction> = Vec::new();
        if !self.tap_installed && f.has_vm {
            acts.push(ProbeAction::InstallTap);
        }
        let ghost head = acts@;
        let ghost start = *self;
        self.tap_installed = self.tap_installed || f.has_vm;
        let now = f.now;
        let rejoins = self.rejoins;
        let (phase, rejoins, mut more) = self.phase_step(arena, f, seen);
        acts.append(&mut more);
        self.phase = phase;
        self.rejoins = rejoins;
        proof {
            let (sp, sr, sa) = phase_step(start, *arena, *f, seen@);
            assert(acts@ =~= head + sa);
            if !start.tap_installed && f.has_vm {
                assert(head =~= seq![ProbeAction::InstallTap]);
            } else {
                assert(head =~= Seq::<ProbeAction>::empty());
                assert(acts@ =~= sa);
            }
        }
        acts
    }

    #[verifier::spinoff_prover]
    #[verifier::rlimit(50)]
    fn phase_step(&self, a: &Arena, f: &Frame, seen: &str) -> (r: (Phase, u32, Vec<ProbeAction>))
        ensures
            (r.0, r.1, r.2@) == phase_step(*self, *a, *f, seen@),
    {
        match self.phase {
            Phase::Wait => self.step_wait(a, f, seen),
            Phase::Hopped { .. } => self.step_hopped(a, f, seen),
            Phase::Toggled { .. } => self.step_toggled(a, f, seen),
            Phase::Greeted { .. } => self.step_greeted(a, f, seen),
            Phase::Joined { .. } => self.step_joined(a, f, seen),
            Phase::Ported { .. } => self.step_ported(a, f, seen),
            Phase::Inside { .. } => self.step_inside(a, f, seen),
            Phase::Rejoining { .. } => self.step_rejoining(a, f, seen),
            Phase::FlagHop { .. } => self.step_flag_hop(a, f, seen),
            Phase::FlagUsed { .. } => self.step_flag_used(a, f, seen),
            Phase::Dying { .. } => self.step_dying(a, f, seen),
            Phase::Spirit { .. } => self.step_spirit(a, f, seen),
            Phase::Done => (Phase::Done, self.rejoins, Vec::new()),
        }
    }

    fn step_wait(&self, a: &Arena, f: &Frame, seen: &str) -> (r: (Phase, u32, Vec<ProbeAction>))
        requires
            self.phase is Wait,
        ensures
            (r.0, r.1, r.2@) == phase_step(*self, *a, *f, seen@),
    {
        let now = f.now;
        let mut acts: Vec<ProbeAction> = Vec::new();
        match self.phase {
            Phase::Wait => {
                acts.push(ProbeAction::Gm(GmCommand::Revive));
                if f.level < QUEUE_LEVEL {
                    acts.push(ProbeAction::Gm(GmCommand::LevelUp { levels: QUEUE_LEVEL - f.level }));
                }
                acts.push(ProbeAction::Gm(GmCommand::ClearDeserter));
                acts.push(ProbeAction::Note(ProbeNote::Setup));
                acts.push(ProbeAction::GoToArena);
                proof {
                    if f.level < QUEUE_LEVEL {
                        assert(acts@ =~= seq![ProbeAction::Gm(GmCommand::Revive)] + seq![
                            ProbeAction::Gm(
                                GmCommand::LevelUp { levels: (QUEUE_LEVEL - f.level) as u32 },
                            ),
                        ] + seq![
                            ProbeAction::Gm(GmCommand::ClearDeserter),
                            ProbeAction::Note(ProbeNote::Setup),
                            ProbeAction::GoToArena,
                        ]);
                    } else {
                        assert(acts@ =~= seq![ProbeAction::Gm(GmCommand::Revive)]
                            + Seq::<ProbeAction>::empty() + seq![
                            ProbeAction::Gm(GmCommand::ClearDeserter),
                            ProbeAction::Note(ProbeNote::Setup),
                            ProbeAction::GoToArena,
                        ]);
                    }
                }
                (Phase::Hopped { sent_at: now }, self.rejoins, acts)
            },
            _ => (self.phase, self.rejoins, acts),
        }
    }

    fn step_hopped(&self, a: &Arena, f: &Frame, seen: &str) -> (r: (Phase, u32, Vec<ProbeAction>))
        requires
            self.phase is Hopped,
        ensures
            (r.0, r.1, r.2@) == phase_step(*self, *a, *f, seen@),
    {
        let now = f.now;
        let mut acts: Vec<ProbeAction> = Vec::new();
        match self.phase {
            Phase::Hopped { sent_at } => {
                if since_exec(now, sent_at) < 3000 {
                    return (self.phase, self.rejoins, acts);
                }
                acts.push(ProbeAction::Gm(GmCommand::ToggleTesting));
                assert(acts@ =~= seq![ProbeAction::Gm(GmCommand::ToggleTesting)]);
                (Phase::Toggled { sent_at: now, corrected: false }, self.rejoins, acts)
            },
            _ => (self.phase, self.rejoins, acts),
        }
    }

    fn step_toggled(&self, a: &Arena, f: &Frame, seen: &str) -> (r: (Phase, u32, Vec<ProbeAction>))
        requires
            self.phase is Toggled,
        ensures
            (r.0, r.1, r.2@) == phase_step(*self, *a, *f, seen@),
    {
        let now = f.now;
        let mut acts: Vec<ProbeAction> = Vec::new();
        match self.phase {
            Phase::Toggled { sent_at, corrected } => {
                let waited = since_exec(now, sent_at);
                if waited < 1500 {
                    return (self.phase, self.rejoins, acts);
                }
                if str_contains(seen, "normal playercount") {
                    if corrected {
                        acts.push(ProbeAction::Fail(ProbeFailure::TestingStaysOff));
                        assert(acts@ =~= seq![ProbeAction::Fail(ProbeFailure::TestingStaysOff)]);
                        return (Phase::Done, self.rejoins, acts);
                    }
                    acts.push(ProbeAction::Note(ProbeNote::TestingWasOn));
                    acts.push(ProbeAction::Gm(GmCommand::ToggleTesting));
                    assert(acts@ =~= seq![
                        ProbeAction::Note(ProbeNote::TestingWasOn),
                        ProbeAction::Gm(GmCommand::ToggleTesting),
                    ]);
                    return (Phase::Toggled { sent_at: now, corrected: true }, self.rejoins, acts);
                }
                let reading = if str_contains(seen, "debugging") {
                    ProbeAction::Note(ProbeNote::TestingOn)
                } else {
                    ProbeAction::Note(ProbeNote::TestingUnread)
                };
                acts.push(reading);
                match f.master_near {
                    Some(m) => {
                        acts.push(ProbeAction::Note(ProbeNote::Greeting { npc: m }));
                        acts.push(ProbeAction::Hello { npc: m });
                        assert(acts@ =~= seq![
                            reading,
                            ProbeAction::Note(ProbeNote::Greeting { npc: m }),
                            ProbeAction::Hello { npc: m },
                        ]);
                        (Phase::Greeted { master: m, sent_at: now }, self.rejoins, acts)
                    },
                    None => {
                        if waited > 15000 {
                            acts.push(ProbeAction::Fail(ProbeFailure::MasterNeverStreamed));
                            assert(acts@ =~= seq![
                                reading,
                                ProbeAction::Fail(ProbeFailure::MasterNeverStreamed),
                            ]);
                            (Phase::Done, self.rejoins, acts)
                        } else {
                            assert(acts@ =~= seq![reading]);
                            (self.phase, self.rejoins, acts)
                        }
                    },
                }
            },
            _ => (self.phase, self.rejoins, acts),
        }
    }

    fn step_greeted(&self, a: &Arena, f: &Frame, seen: &str) -> (r: (Phase, u32, Vec<ProbeAction>))
        requires
            self.phase is Greeted,
        ensures
            (r.0, r.1, r.2@) == phase_step(*self, *a, *f, seen@),
    {
        let now = f.now;
        let mut acts: Vec<ProbeAction> = Vec::new();
        match self.phase {
            Phase::Greeted { master, sent_at } => {
                let listed = match f.listed_master {
                    Some(m) => m == master,
                    None => false,
                };
                if listed {
                    acts.push(ProbeAction::Note(ProbeNote::Listed));
                    acts.push(ProbeAction::Join { battlemaster: master, map: a.map });
                    assert(acts@ =~= seq![
                        ProbeAction::Note(ProbeNote::Listed),
                        ProbeAction::Join { battlemaster: master, map: a.map },
                    ]);
                    (Phase::Joined { sent_at: now }, self.rejoins, acts)
                } else if since_exec(now, sent_at) > 8000 {
                    acts.push(ProbeAction::Fail(ProbeFailure::NoList));
                    assert(acts@ =~= seq![ProbeAction::Fail(ProbeFailure::NoList)]);
                    (Phase::Done, self.rejoins, acts)
                } else {
                    (self.phase, self.rejoins, acts)
                }
            },
            _ => (self.phase, self.rejoins, acts),
        }
    }

    fn step_joined(&self, a: &Arena, f: &Frame, seen: &str) -> (r: (Phase, u32, Vec<ProbeAction>))
        requires
            self.phase is Joined,
        ensures
            (r.0, r.1, r.2@) == phase_step(*self, *a, *f, seen@),
    {
        let now = f.now;
        let mut acts: Vec<ProbeAction> = Vec::new();
        match self.phase {
            Phase::Joined { sent_at } => {
                match find_slot(&f.slots, true) {
                    Some(i) => {
                        let slot = i + 1;
                        assert(first_slot(f.slots@, true) == Some(i as int));
                        acts.push(ProbeAction::Note(ProbeNote::Confirm { slot }));
                        if f.has_vm {
                            acts.push(ProbeAction::AcceptPort { slot });
                            assert(acts@ =~= seq![
                                ProbeAction::Note(ProbeNote::Confirm { slot }),
                                ProbeAction::AcceptPort { slot },
                            ]);
                            (Phase::Ported { sent_at: now }, self.rejoins, acts)
                        } else {
                            acts.push(ProbeAction::Fail(ProbeFailure::NoVm));
                            assert(acts@ =~= seq![
                                ProbeAction::Note(ProbeNote::Confirm { slot }),
                                ProbeAction::Fail(ProbeFailure::NoVm),
                            ]);
                            (Phase::Done, self.rejoins, acts)
                        }
                    },
                    None => {
                        let waited = since_exec(now, sent_at);
                        if waited > 12000 && self.rejoins < MAX_REJOINS {
                            let count = self.rejoins + 1;
                            let slot: usize = match find_slot(&f.slots, false) {
                                Some(j) => j + 1,
                                None => 1,
                            };
                            assert(slot == (match first_slot(f.slots@, false) {
                                Some(j) => (j + 1) as usize,
                                None => 1usize,
                            }));
                            acts.push(ProbeAction::Note(ProbeNote::Rejoin { count, slot }));
                            if f.has_vm {
                                acts.push(ProbeAction::DeclinePort { slot });
                                assert(acts@ =~= seq![
                                    ProbeAction::Note(ProbeNote::Rejoin { count, slot }),
                                ] + seq![ProbeAction::DeclinePort { slot }]);
                            } else {
                                assert(acts@ =~= seq![
                                    ProbeAction::Note(ProbeNote::Rejoin { count, slot }),
                                ] + Seq::<ProbeAction>::empty());
                            }
                            (Phase::Rejoining { at: now }, count, acts)
                        } else if waited > 30000 {
                            acts.push(ProbeAction::Fail(ProbeFailure::NeverReady));
                            assert(acts@ =~= seq![ProbeAction::Fail(ProbeFailure::NeverReady)]);
                            (Phase::Done, self.rejoins, acts)
                        } else {
                            (self.phase, self.rejoins, acts)
                        }
                    },
                }
            },
            _ => (self.phase, self.rejoins, acts),
        }
    }

    fn step_ported(&self, a: &Arena, f: &Frame, seen: &str) -> (r: (Phase, u32, Vec<ProbeAction>))
        requires
            self.phase is Ported,
        ensures
            (r.0, r.1, r.2@) == phase_step(*self, *a, *f, seen@),
    {
        let now = f.now;
        let mut acts: Vec<ProbeAction> = Vec::new();
        match self.phase {
            Phase::Ported { sent_at } => {
                let waited = since_exec(now, sent_at);
                if f.map == a.map {
                    acts.push(ProbeAction::Note(ProbeNote::Entered { after_ms: waited }));
                    assert(acts@ =~= seq![ProbeAction::Note(ProbeNote::Entered { after_ms: waited })]);
                    (
                        Phase::Inside {
                            entered_at: now,
                            next_census: later_exec(now, CENSUS_EVERY_MS),
                            samples: 0,
                        },
                        self.rejoins,
                        acts,
                    )
                } else if waited > 30000 {
                    acts.push(ProbeAction::Fail(ProbeFailure::MapNotReached { map: f.map }));
                    assert(acts@ =~= seq![
                        ProbeAction::Fail(ProbeFailure::MapNotReached { map: f.map }),
                    ]);
                    (Phase::Done, self.rejoins, acts)
                } else {
                    (self.phase, self.rejoins, acts)
                }
            },
            _ => (self.phase, self.rejoins, acts),
        }
    }

    fn step_inside(&self, a: &Arena, f: &Frame, seen: &str) -> (r: (Phase, u32, Vec<ProbeAction>))
        requires
            self.phase is Inside,
        ensures
            (r.0, r.1, r.2@) == phase_step(*self, *a, *f, seen@),
    {
        let now = f.now;
        let mut acts: Vec<ProbeAction> = Vec::new();
        match self.phase {
            Phase::Inside { entered_at, next_census, samples } => {
                if now < next_census {
                    return (self.phase, self.rejoins, acts);
                }
                if !f.has_vm {
                    acts.push(ProbeAction::Fail(ProbeFailure::VmGone));
                    assert(acts@ =~= seq![ProbeAction::Fail(ProbeFailure::VmGone)]);
                    return (Phase::Done, self.rejoins, acts);
                }
                let n = bump_exec(samples);
                let t_ms = since_exec(now, entered_at);
                acts.push(ProbeAction::Census { t_ms });
                let ghost census = acts@;
                assert(census =~= seq![ProbeAction::Census { t_ms }]);
                if n == DOORS_SAMPLE || (f.census_samples <= n && n < DOORS_SAMPLE) {
                    acts.push(ProbeAction::Note(ProbeNote::TestingOff));
                    acts.push(ProbeAction::Gm(GmCommand::ToggleTesting));
                }
                let ghost with_doors = acts@;
                assert(with_doors =~= census + (if testing_off_now(n, f.census_samples) {
                    seq![ProbeAction::Note(ProbeNote::TestingOff), ProbeAction::Gm(GmCommand::ToggleTesting)]
                } else {
                    Seq::<ProbeAction>::empty()
                }));
                if n >= f.census_samples {
                    match a.flag {
                        Some(_) => {
                            acts.push(ProbeAction::Note(ProbeNote::FlagHop));
                            acts.push(ProbeAction::GoToFlag);
                            assert(acts@ =~= with_doors + seq![
                                ProbeAction::Note(ProbeNote::FlagHop),
                                ProbeAction::GoToFlag,
                            ]);
                            (Phase::FlagHop { at: now }, self.rejoins, acts)
                        },
                        None => {
                            acts.push(ProbeAction::Note(ProbeNote::NoFlag));
                            acts.push(ProbeAction::Gm(GmCommand::Die));
                            assert(acts@ =~= with_doors + seq![
                                ProbeAction::Note(ProbeNote::NoFlag),
                                ProbeAction::Gm(GmCommand::Die),
                            ]);
                            (Phase::Dying { sent_at: now }, self.rejoins, acts)
                        },
                    }
                } else {
                    (
                        Phase::Inside {
                            entered_at,
                            next_census: later_exec(now, CENSUS_EVERY_MS),
                            samples: n,
                        },
                        self.rejoins,
                        acts,
                    )
                }
            },
            _ => (self.phase, self.rejoins, acts),
        }
    }

    fn step_rejoining(&self, a: &Arena, f: &Frame, seen: &str) -> (r: (Phase, u32, Vec<ProbeAction>))
        requires
            self.phase is Rejoining,
        ensures
            (r.0, r.1, r.2@) == phase_step(*self, *a, *f, seen@),
    {
        let now = f.now;
        let mut acts: Vec<ProbeAction> = Vec::new();
        match self.phase {
            Phase::Rejoining { at } => {
                if since_exec(now, at) < 2000 {
                    return (self.phase, self.rejoins, acts);
                }
                match f.listed_master {
                    None => {
                        acts.push(ProbeAction::Fail(ProbeFailure::ListGone));
                        assert(acts@ =~= seq![ProbeAction::Fail(ProbeFailure::ListGone)]);
                        (Phase::Done, self.rejoins, acts)
                    },
                    Some(m) => {
                        acts.push(ProbeAction::Join { battlemaster: m, map: a.map });
                        assert(acts@ =~= seq![ProbeAction::Join { battlemaster: m, map: a.map }]);
                        (Phase::Joined { sent_at: now }, self.rejoins, acts)
                    },
                }
            },
            _ => (self.phase, self.rejoins, acts),
        }
    }

    fn step_flag_hop(&self, a: &Arena, f: &Frame, seen: &str) -> (r: (Phase, u32, Vec<ProbeAction>))
        requires
            self.phase is FlagHop,
        ensures
            (r.0, r.1, r.2@) == phase_step(*self, *a, *f, seen@),
    {
        let now = f.now;
        let mut acts: Vec<ProbeAction> = Vec::new();
        match self.phase {
            Phase::FlagHop { at } => {
                let waited = since_exec(now, at);
                if waited < 4000 {
                    return (self.phase, self.rejoins, acts);
                }
                if a.flag.is_none() {
                    return (Phase::Done, self.rejoins, acts);
                }
                match f.flag_near {
                    Some(g) => {
                        acts.push(ProbeAction::Note(ProbeNote::FlagStreamed { guid: g }));
                        acts.push(ProbeAction::UseObject { guid: g });
                        assert(acts@ =~= seq![
                            ProbeAction::Note(ProbeNote::FlagStreamed { guid: g }),
                            ProbeAction::UseObject { guid: g },
                        ]);
                        (Phase::FlagUsed { at: now, samples: 0 }, self.rejoins, acts)
                    },
                    None => {
                        if waited > 20000 {
                            acts.push(ProbeAction::Fail(ProbeFailure::FlagNeverStreamed));
                            acts.push(ProbeAction::Gm(GmCommand::Die));
                            assert(acts@ =~= seq![
                                ProbeAction::Fail(ProbeFailure::FlagNeverStreamed),
                                ProbeAction::Gm(GmCommand::Die),
                            ]);
                            (Phase::Dying { sent_at: now }, self.rejoins, acts)
                        } else {
                            (self.phase, self.rejoins, acts)
                        }
                    },
                }
            },
            _ => (self.phase, self.rejoins, acts),
        }
    }

    fn step_flag_used(&self, a: &Arena, f: &Frame, seen: &str) -> (r: (Phase, u32, Vec<ProbeAction>))
        requires
            self.phase is FlagUsed,
        ensures
            (r.0, r.1, r.2@) == phase_step(*self, *a, *f, seen@),
    {
        let now = f.now;
        let mut acts: Vec<ProbeAction> = Vec::new();
        match self.phase {
            Phase::FlagUsed { at, samples } => {
                let waited = since_exec(now, at);
                let due: u64 = (samples as u64 + 1) * 3000;
                if waited < due {
                    return (self.phase, self.rejoins, acts);
                }
                if !f.has_vm {
                    return (Phase::Done, self.rejoins, acts);
                }
                acts.push(ProbeAction::FlagSample { t_ms: waited });
                let n = bump_exec(samples);
                if n >= FLAG_SAMPLES {
                    acts.push(ProbeAction::Note(ProbeNote::FlagDone));
                    acts.push(ProbeAction::Gm(GmCommand::Die));
                    assert(acts@ =~= seq![
                        ProbeAction::FlagSample { t_ms: waited },
                        ProbeAction::Note(ProbeNote::FlagDone),
                        ProbeAction::Gm(GmCommand::Die),
                    ]);
                    (Phase::Dying { sent_at: now }, self.rejoins, acts)
                } else {
                    assert(acts@ =~= seq![ProbeAction::FlagSample { t_ms: waited }]);
                    (Phase::FlagUsed { at, samples: n }, self.rejoins, acts)
                }
            },
            _ => (self.phase, self.rejoins, acts),
        }
    }

    fn step_dying(&self, a: &Arena, f: &Frame, seen: &str) -> (r: (Phase, u32, Vec<ProbeAction>))
        requires
            self.phase is Dying,
        ensures
            (r.0, r.1, r.2@) == phase_step(*self, *a, *f, seen@),
    {
        let now = f.now;
        let mut acts: Vec<ProbeAction> = Vec::new();
        match self.phase {
            Phase::Dying { sent_at } => {
                if f.dead {
                    acts.push(ProbeAction::Note(ProbeNote::Dead));
                    acts.push(ProbeAction::Repop);
                    assert(acts@ =~= seq![ProbeAction::Note(ProbeNote::Dead), ProbeAction::Repop]);
                    (
                        Phase::Spirit {
                            released_at: now,
                            next_sample: later_exec(now, GHOST_SAMPLE_EVERY_MS),
                            samples: 0,
                        },
                        self.rejoins,
                        acts,
                    )
                } else if since_exec(now, sent_at) > 15000 {
                    acts.push(ProbeAction::Fail(ProbeFailure::StillAlive));
                    assert(acts@ =~= seq![ProbeAction::Fail(ProbeFailure::StillAlive)]);
                    (Phase::Done, self.rejoins, acts)
                } else {
                    (self.phase, self.rejoins, acts)
                }
            },
            _ => (self.phase, self.rejoins, acts),
        }
    }

    fn step_spirit(&self, a: &Arena, f: &Frame, seen: &str) -> (r: (Phase, u32, Vec<ProbeAction>))
        requires
            self.phase is Spirit,
        ensures
            (r.0, r.1, r.2@) == phase_step(*self, *a, *f, seen@),
    {
        let now = f.now;
        let mut acts: Vec<ProbeAction> = Vec::new();
        match self.phase {
            Phase::Spirit { released_at, next_sample, samples } => {
                if now < next_sample {
                    return (self.phase, self.rejoins, acts);
                }
                if !f.has_vm {
                    return (Phase::Done, self.rejoins, acts);
                }
                let n = bump_exec(samples);
                let t_ms = since_exec(now, released_at);
                acts.push(ProbeAction::GhostSample { t_ms });
                if n >= GHOST_SAMPLES {
                    acts.push(ProbeAction::AcceptSpiritHeal);
                    acts.push(ProbeAction::Report);
                    acts.push(ProbeAction::Gm(GmCommand::Recall));
                    acts.push(ProbeAction::Note(ProbeNote::Done));
                    assert(acts@ =~= seq![ProbeAction::GhostSample { t_ms }] + seq![
                        ProbeAction::AcceptSpiritHeal,
                        ProbeAction::Report,
                        ProbeAction::Gm(GmCommand::Recall),
                        ProbeAction::Note(ProbeNote::Done),
                    ]);
                    (Phase::Done, self.rejoins, acts)
                } else {
                    assert(acts@ =~= seq![ProbeAction::GhostSample { t_ms }]);
                    (
                        Phase::Spirit {
                            released_at,
                            next_sample: later_exec(now, GHOST_SAMPLE_EVERY_MS),
                            samples: n,
                        },
                        self.rejoins,
                        acts,
                    )
                }
            },
            _ => (self.phase, self.rejoins, acts),
        }
    }
}

// ── Laws ─────────────────────────────────────────────────────────────────────────────────────────

/// **A finished probe stays finished.** Once done, a frame changes nothing and asks for nothing
/// but, at most, the one-time tap install.
pub proof fn law_done_is_final(p: BgProbe, a: Arena, f: Frame, seen: Seq<char>)
    requires
        p.phase == Phase::Done,
    ensures
        step_of(p, a, f, seen).0.phase == Phase::Done,
        step_of(p, a, f, seen).0.rejoins == p.rejoins,
        step_of(p, a, f, seen).1.len() <= 1,
{
}

/// **The queue is re-taken a bounded number of times.** However many frames pass, the rejoin
/// count never passes [`MAX_REJOINS`].
pub proof fn law_rejoins_are_bounded(p: BgProbe, a: Arena, f: Frame, seen: Seq<char>)
    requires
        p.rejoins <= MAX_REJOINS,
    ensures
        step_of(p, a, f, seen).0.rejoins <= MAX_REJOINS,
{
}

/// **The testing toggle is put back once inside.** A census frame sends the toggle if and only if
/// it is the census sample by which the doors have opened, or the last census sample of a census
/// that ends before the doors.
pub proof fn law_testing_goes_off_at_the_doors(p: BgProbe, a: Arena, f: Frame, seen: Seq<char>)
    requires
        p.phase matches Phase::Inside { next_census, samples, .. } && f.now >= next_census && samples
            < u32::MAX,
        f.has_vm,
    ensures
        ({
            let n = p.phase->Inside_samples + 1;
            phase_step(p, a, f, seen).2.contains(ProbeAction::Gm(GmCommand::ToggleTesting))
                <==> (n == DOORS_SAMPLE || (f.census_samples <= n && n < DOORS_SAMPLE))
        }),
{
    let n = (p.phase->Inside_samples + 1) as u32;
    let acts = phase_step(p, a, f, seen).2;
    let t = ProbeAction::Gm(GmCommand::ToggleTesting);
    if testing_off_now(n, f.census_samples) {
        assert(acts[2] == t);
    } else {
        assert forall|i: int| 0 <= i < acts.len() implies acts[i] != t by {
        }
    }
}

/// **Census samples advance one at a time.** A census frame that stays inside counts exactly one
/// more sample, and a frame before the next census is due changes nothing.
pub proof fn law_census_counts_one_per_sample(p: BgProbe, a: Arena, f: Frame, seen: Seq<char>)
    requires
        p.phase matches Phase::Inside { samples, .. } && samples < u32::MAX,
    ensures
        ({
            let next = phase_step(p, a, f, seen).0;
            &&& f.now < p.phase->Inside_next_census ==> next == p.phase
            &&& next matches Phase::Inside { samples: s, .. } ==> (s == p.phase->Inside_samples || s
                == p.phase->Inside_samples + 1)
        }),
{
}

/// A run of frames from `p`: the state after the last frame, and every action asked for, in
/// order. Frame `i` is stepped with `seens[i]` as the tap's text.
pub open spec fn run_of(p: BgProbe, a: Arena, frames: Seq<Frame>, seens: Seq<Seq<char>>) -> (
    BgProbe,
    Seq<ProbeAction>,
)
    decreases frames.len(),
{
    if frames.len() == 0 {
        (p, Seq::empty())
    } else {
        let (q, acts) = step_of(p, a, frames[0], seens[0]);
        let (r, rest) = run_of(q, a, frames.drop_first(), seens.drop_first());
        (r, acts + rest)
    }
}

/// How many times `acts` sends the testing toggle.
pub open spec fn toggles(acts: Seq<ProbeAction>) -> nat
    decreases acts.len(),
{
    if acts.len() == 0 {
        0
    } else {
        (if acts[0] == ProbeAction::Gm(GmCommand::ToggleTesting) {
            1nat
        } else {
            0nat
        }) + toggles(acts.drop_first())
    }
}

/// Past the setup: the toggle's reply has been read and the road is on to the battleground.
pub open spec fn past_setup(p: BgProbe) -> bool {
    !(p.phase is Wait || p.phase is Hopped || p.phase is Toggled)
}

/// Whether the probe still owes the server the toggle that turns testing back off: from the
/// greeting until the census sample that puts it back.
pub open spec fn testing_owed(p: BgProbe) -> nat {
    match p.phase {
        Phase::Greeted { .. } | Phase::Joined { .. } | Phase::Rejoining { .. } | Phase::Ported {
            ..
        } => 1,
        Phase::Inside { samples, .. } => if samples < DOORS_SAMPLE {
            1
        } else {
            0
        },
        _ => 0,
    }
}

proof fn lemma_toggles_add(x: Seq<ProbeAction>, y: Seq<ProbeAction>)
    ensures
        toggles(x + y) == toggles(x) + toggles(y),
    decreases x.len(),
{
    if x.len() > 0 {
        assert((x + y).drop_first() =~= x.drop_first() + y);
        lemma_toggles_add(x.drop_first(), y);
    } else {
        assert(x + y =~= y);
    }
}

proof fn lemma_contains_add(x: Seq<ProbeAction>, y: Seq<ProbeAction>, e: ProbeAction)
    ensures
        (x + y).contains(e) <==> (x.contains(e) || y.contains(e)),
{
    if (x + y).contains(e) {
        let i = choose|i: int| 0 <= i < (x + y).len() && (x + y)[i] == e;
        if i < x.len() {
            assert(x[i] == e);
        } else {
            assert(y[i - x.len()] == e);
        }
    }
    if x.contains(e) {
        let i = choose|i: int| 0 <= i < x.len() && x[i] == e;
        assert((x + y)[i] == e);
    }
    if y.contains(e) {
        let i = choose|i: int| 0 <= i < y.len() && y[i] == e;
        assert((x + y)[x.len() + i] == e);
    }
}

/// One step past the setup: it stays past the setup, reports only when nothing is owed, and
/// every toggle it sends pays off what was owed.
proof fn lemma_step_pays_toggle(p: BgProbe, a: Arena, f: Frame, seen: Seq<char>)
    requires
        past_setup(p),
    ensures
        ({
            let (q, acts) = step_of(p, a, f, seen);
            &&& past_setup(q)
            &&& acts.contains(ProbeAction::Report) ==> q.phase == Phase::Done && testing_owed(p)
                == 0 && toggles(acts) == 0
            &&& p.phase == Phase::Done ==> !acts.contains(ProbeAction::Report) && toggles(acts) == 0
                && q.phase == Phase::Done
            &&& q.phase != Phase::Done ==> toggles(acts) + testing_owed(q) == testing_owed(p)
        }),
{
    let (q, acts) = step_of(p, a, f, seen);
    let (ph, rj, pa) = phase_step(p, a, f, seen);
    let tap = seq![ProbeAction::InstallTap];
    let t = ProbeAction::Gm(GmCommand::ToggleTesting);
    let r = ProbeAction::Report;
    assert(toggles(tap) == 0) by {
        reveal_with_fuel(toggles, 2);
    }
    assert(!tap.contains(r)) by {
        assert(tap[0] != r);
    }
    if !p.tap_installed && f.has_vm {
        assert(acts == tap + pa);
        lemma_toggles_add(tap, pa);
        lemma_contains_add(tap, pa, r);
    } else {
        assert(acts == pa);
    }
    // The toggles and reports of the road's own step, phase by phase.
    reveal_with_fuel(toggles, 8);
    match p.phase {
        Phase::Inside { entered_at, next_census, samples } => {
            if f.now >= next_census && f.has_vm {
                let n = bump(samples);
                let census = seq![ProbeAction::Census { t_ms: since(f.now, entered_at) as u64 }];
                let doors = if testing_off_now(n, f.census_samples) {
                    seq![ProbeAction::Note(ProbeNote::TestingOff), t]
                } else {
                    Seq::empty()
                };
                lemma_toggles_add(census, doors);
                lemma_contains_add(census, doors, r);
                assert(!census.contains(r)) by {
                    assert(census[0] != r);
                }
                assert(!doors.contains(r)) by {
                    if doors.len() > 0 {
                        assert(doors[0] != r && doors[1] != r);
                    }
                }
                if n >= f.census_samples {
                    let tail = if a.flag is Some {
                        seq![ProbeAction::Note(ProbeNote::FlagHop), ProbeAction::GoToFlag]
                    } else {
                        seq![ProbeAction::Note(ProbeNote::NoFlag), ProbeAction::Gm(GmCommand::Die)]
                    };
                    assert(pa == census + doors + tail);
                    lemma_toggles_add(census + doors, tail);
                    lemma_contains_add(census + doors, tail, r);
                    assert(!tail.contains(r)) by {
                        assert(tail[0] != r && tail[1] != r);
                    }
                } else {
                    assert(pa == census + doors);
                }
            } else {
                assert(!pa.contains(r)) by {
                    if pa.len() > 0 {
                        assert(pa[0] != r);
                    }
                }
            }
        },
        Phase::Spirit { released_at, next_sample, samples } => {
            if f.now >= next_sample && f.has_vm && bump(samples) >= GHOST_SAMPLES {
                let sample = seq![ProbeAction::GhostSample { t_ms: since(f.now, released_at) as u64 }];
                let tail = seq![
                    ProbeAction::AcceptSpiritHeal,
                    ProbeAction::Report,
                    ProbeAction::Gm(GmCommand::Recall),
                    ProbeAction::Note(ProbeNote::Done),
                ];
                lemma_toggles_add(sample, tail);
            } else {
                assert(!pa.contains(r)) by {
                    if pa.len() > 0 {
                        assert(pa[0] != r);
                    }
                }
            }
        },
        _ => {
            assert(!pa.contains(r)) by {
                assert forall|i: int| 0 <= i < pa.len() implies pa[i] != r by {
                }
            }
        },
    }
}

proof fn lemma_done_run(p: BgProbe, a: Arena, frames: Seq<Frame>, seens: Seq<Seq<char>>)
    requires
        p.phase == Phase::Done,
    ensures
        !run_of(p, a, frames, seens).1.contains(ProbeAction::Report),
        toggles(run_of(p, a, frames, seens).1) == 0,
    decreases frames.len(),
{
    if frames.len() > 0 {
        let (q, acts) = step_of(p, a, frames[0], seens[0]);
        lemma_step_pays_toggle(p, a, frames[0], seens[0]);
        lemma_done_run(q, a, frames.drop_first(), seens.drop_first());
        let rest = run_of(q, a, frames.drop_first(), seens.drop_first()).1;
        lemma_toggles_add(acts, rest);
        lemma_contains_add(acts, rest, ProbeAction::Report);
    } else {
        assert(!Seq::<ProbeAction>::empty().contains(ProbeAction::Report));
    }
}

/// **What a reporting run sends is what it owed.** From any state past the setup, a run of
/// frames that reaches the report sends the testing toggle exactly as many times as it still
/// owed, so the report always finds testing off.
pub proof fn law_report_pays_the_toggle(
    p: BgProbe,
    a: Arena,
    frames: Seq<Frame>,
    seens: Seq<Seq<char>>,
)
    requires
        past_setup(p),
    ensures
        run_of(p, a, frames, seens).1.contains(ProbeAction::Report) ==> toggles(
            run_of(p, a, frames, seens).1,
        ) == testing_owed(p),
    decreases frames.len(),
{
    if frames.len() > 0 {
        let (q, acts) = step_of(p, a, frames[0], seens[0]);
        let rest = run_of(q, a, frames.drop_first(), seens.drop_first()).1;
        lemma_step_pays_toggle(p, a, frames[0], seens[0]);
        law_report_pays_the_toggle(q, a, frames.drop_first(), seens.drop_first());
        lemma_toggles_add(acts, rest);
        lemma_contains_add(acts, rest, ProbeAction::Report);
        if q.phase == Phase::Done {
            lemma_done_run(q, a, frames.drop_first(), seens.drop_first());
        }
    } else {
        assert(!Seq::<ProbeAction>::empty().contains(ProbeAction::Report));
    }
}

/// **Every run that reports leaves the testing toggle off.** Once the setup has turned testing on
/// (the toggle's reply read, and not as "off") and the battlemaster is greeted, any run of frames
/// that reaches the report sends the toggle exactly once more — whether its census ends before
/// the doors or after them.
pub proof fn law_testing_off_by_report(
    p: BgProbe,
    a: Arena,
    frames: Seq<Frame>,
    seens: Seq<Seq<char>>,
)
    requires
        p.phase is Greeted,
    ensures
        run_of(p, a, frames, seens).1.contains(ProbeAction::Report) ==> toggles(
            run_of(p, a, frames, seens).1,
        ) == 1,
{
    law_report_pays_the_toggle(p, a, frames, seens);
}

/// **The graveyard leg starts with `.die`.** A step that moves the probe into the dying phase from
/// any other phase asks for `.die` in that same step — so the body it then waits on to die has been
/// told to.
pub proof fn law_dying_is_entered_with_die(p: BgProbe, a: Arena, f: Frame, seen: Seq<char>)
    requires
        !(p.phase is Dying),
        step_of(p, a, f, seen).0.phase is Dying,
    ensures
        step_of(p, a, f, seen).1.contains(ProbeAction::Gm(GmCommand::Die)),
{
    let (ph, rj, pa) = phase_step(p, a, f, seen);
    let acts = step_of(p, a, f, seen).1;
    let die = ProbeAction::Gm(GmCommand::Die);
    assert(pa.len() > 0 && pa[pa.len() - 1] == die) by {
        match p.phase {
            Phase::Inside { entered_at, next_census, samples } => {
                let n = bump(samples);
                let census = seq![ProbeAction::Census { t_ms: since(f.now, entered_at) as u64 }];
                let doors = if testing_off_now(n, f.census_samples) {
                    seq![ProbeAction::Note(ProbeNote::TestingOff), ProbeAction::Gm(GmCommand::ToggleTesting)]
                } else {
                    Seq::empty()
                };
                let tail = seq![ProbeAction::Note(ProbeNote::NoFlag), die];
                assert(pa == census + doors + tail);
            },
            _ => {},
        }
    }
    if !p.tap_installed && f.has_vm {
        assert(acts == seq![ProbeAction::InstallTap] + pa);
        assert(acts[acts.len() - 1] == die);
    } else {
        assert(acts == pa);
    }
    assert(acts[acts.len() - 1] == die);
}

} // verus!
