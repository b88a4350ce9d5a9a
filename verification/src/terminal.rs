//! The terminals of a conversation.
use crate::numbers;
use crate::screen;
use crate::screen::{
    EmulatedScreen, ObservationClassification, TerminalProcessState, TerminalRecord,
    TerminalScreenSnapshot,
};
use crate::sort;
use crate::sort::SmallestFirst;
use crate::table::Table;
use crate::text;
use vstd::prelude::*;
use vstd::string::*;

verus! {

/// How long a new terminal is watched, in milliseconds.
pub const INITIAL_OBSERVATION: u64 = 5_000;

/// How long a screen has to stay the same to be stable, in milliseconds.
pub const SCREEN_STABILITY: u64 = 250;

/// How long a terminal is watched after something was done to it, in milliseconds.
pub const FOLLOW_UP_DEADLINE: u64 = 5_000;

/// How often a watched terminal is looked at, in milliseconds.
pub const CHILD_POLL_INTERVAL: u64 = 25;

/// The columns of a new terminal.
pub const DEFAULT_COLUMNS: u16 = 120;

/// The rows of a new terminal.
pub const DEFAULT_ROWS: u16 = 40;

/// How many terminals of a conversation may be live.
pub const MAX_TERMINALS_PER_SESSION: usize = 8;

/// What a state is called.
pub open spec fn state_text(state: TerminalProcessState) -> Seq<char> {
    match state {
        TerminalProcessState::Running => "running"@,
        TerminalProcessState::Exited => "exited"@,
        TerminalProcessState::Closed => "closed"@,
        TerminalProcessState::Interrupted => "interrupted"@,
    }
}

/// What a state is called.
pub fn state_name(state: TerminalProcessState) -> (s: &'static str)
    ensures
        s@ == state_text(state),
{
    match state {
        TerminalProcessState::Running => "running",
        TerminalProcessState::Exited => "exited",
        TerminalProcessState::Closed => "closed",
        TerminalProcessState::Interrupted => "interrupted",
    }
}

// ---------------------------------------------------------------------------
// Watching

/// What was seen: `stable_for` tells for how many milliseconds the screen has been the same.
pub open spec fn classified(changed: bool, stable_for: u64, process_exited: bool) -> ObservationClassification {
    if !changed {
        ObservationClassification::Unchanged
    } else if stable_for >= SCREEN_STABILITY || process_exited {
        ObservationClassification::ChangedThenStabilized
    } else {
        ObservationClassification::StillChangingAtDeadline
    }
}

/// What was seen: `stable_for` tells for how many milliseconds the screen has been the same.
pub fn classify_observation(changed: bool, stable_for: u64, process_exited: bool) -> (r:
    ObservationClassification)
    ensures
        r == classified(changed, stable_for, process_exited),
{
    if !changed {
        ObservationClassification::Unchanged
    } else if stable_for >= SCREEN_STABILITY || process_exited {
        ObservationClassification::ChangedThenStabilized
    } else {
        ObservationClassification::StillChangingAtDeadline
    }
}

/// A terminal that is being watched.
#[derive(Clone, Copy, Debug)]
pub struct Watch {
    pub initial: bool,
    pub previous_sequence: u64,
    pub changed: bool,
}

/// What to do with a terminal that is being watched.
#[derive(Clone, Copy, Debug, PartialEq, Eq, Structural)]
pub enum WatchStep {
    /// Look again a little later.
    Wait,
    /// The process has ended: read what it left, for as long as a screen takes to be stable.
    Drain,
    /// Enough was seen.
    Done,
}

impl Watch {
    /// A terminal that is watched from now on: as a new one, or for what changes after a number of
    /// the screen.
    pub fn begin(initial: bool, previous_sequence: u64, sequence: u64) -> (w: Watch)
        ensures
            w == (Watch { initial, previous_sequence, changed: sequence > previous_sequence }),
    {
        Watch { initial, previous_sequence, changed: sequence > previous_sequence }
    }

    /// How long the terminal is watched, in milliseconds.
    pub fn duration(&self) -> (n: u64)
        ensures
            n == (if self.initial {
                INITIAL_OBSERVATION
            } else {
                FOLLOW_UP_DEADLINE
            }),
    {
        if self.initial {
            INITIAL_OBSERVATION
        } else {
            FOLLOW_UP_DEADLINE
        }
    }

    /// What to do after a look at the terminal. A new one is watched to the end of its process, any
    /// other until it changed and is stable; neither past the deadline.
    pub fn observe(&mut self, exited: bool, sequence: u64, stable_for: u64, at_deadline: bool) -> (r:
        WatchStep)
        ensures
            final(self).initial == old(self).initial,
            final(self).previous_sequence == old(self).previous_sequence,
            ({
                let changed = old(self).changed || sequence > old(self).previous_sequence;
                if exited && old(self).initial {
                    r == WatchStep::Drain && final(self).changed == old(self).changed
                } else {
                    &&& final(self).changed == changed
                    &&& r == (if at_deadline || !old(self).initial && changed && stable_for
                        >= SCREEN_STABILITY {
                        WatchStep::Done
                    } else {
                        WatchStep::Wait
                    })
                }
            }),
    {
        if exited && self.initial {
            return WatchStep::Drain;
        }
        if sequence > self.previous_sequence {
            self.changed = true;
        }
        if !self.initial && self.changed && stable_for >= SCREEN_STABILITY {
            return WatchStep::Done;
        }
        if at_deadline {
            return WatchStep::Done;
        }
        WatchStep::Wait
    }

    /// What was seen when the watching ended.
    pub fn outcome(&self, stable_for: u64, exited: bool) -> (r: ObservationClassification)
        ensures
            r == classified(self.changed, stable_for, exited),
    {
        classify_observation(self.changed, stable_for, exited)
    }
}

// ---------------------------------------------------------------------------
// Numbers

/// The number of a terminal, by its id.
pub open spec fn number_of(id: Seq<char>) -> u64 {
    if text::begins_with(id, "terminal_"@) {
        match numbers::unsigned_upto(id.skip("terminal_"@.len() as int), u64::MAX as nat) {
            Some(n) => n as u64,
            None => u64::MAX,
        }
    } else {
        u64::MAX
    }
}

/// The number of a terminal, by its id.
pub fn terminal_number(id: &str) -> (n: u64)
    ensures
        n == number_of(id@),
{
    match text::strip_prefix(id, "terminal_") {
        Some(rest) => match numbers::parse_unsigned(rest, u64::MAX) {
            Some(n) => n,
            None => u64::MAX,
        },
        None => u64::MAX,
    }
}

/// The largest number among the first `n` terminals.
pub open spec fn largest_number(records: Seq<TerminalRecord>, n: nat) -> u64
    decreases n,
{
    if n == 0 {
        0
    } else {
        let before = largest_number(records, (n - 1) as nat);
        let own = number_of(records[n - 1].id@);
        if own > before {
            own
        } else {
            before
        }
    }
}

/// The number that follows those of some terminals.
pub open spec fn following_number(records: Seq<TerminalRecord>) -> u64 {
    let n = largest_number(records, records.len());
    if n == u64::MAX {
        n
    } else {
        (n + 1) as u64
    }
}

/// The number that follows those of some terminals.
pub fn next_terminal_id(records: &Vec<TerminalRecord>) -> (r: u64)
    ensures
        r == following_number(records@),
{
    let mut n: u64 = 0;
    let mut i: usize = 0;
    while i < records.len()
        invariant
            i <= records@.len(),
            n == largest_number(records@, i as nat),
        decreases records@.len() - i,
    {
        let own: u64 = terminal_number(&records[i].id);
        if own > n {
            n = own;
        }
        i += 1;
    }
    if n == u64::MAX {
        n
    } else {
        n + 1
    }
}

// ---------------------------------------------------------------------------
// The terminals

/// The terminals of a conversation, and the number of the next.
#[derive(Debug)]
pub struct ManagerState {
    pub records: Table<TerminalRecord>,
    pub next_id: u64,
    pub starting: usize,
}

/// A terminal as it is found when a conversation is taken up again: what ran then runs no more.
pub open spec fn restored(r: TerminalRecord, now: i128) -> TerminalRecord {
    if r.state == TerminalProcessState::Running {
        TerminalRecord {
            state: TerminalProcessState::Interrupted,
            completed_at: Some(now),
            updated_at: now,
            latest_snapshot: match r.latest_snapshot {
                Some(s) => Some(
                    TerminalScreenSnapshot { process_state: TerminalProcessState::Interrupted, ..s },
                ),
                None => None,
            },
            ..r
        }
    } else {
        r
    }
}

/// The first `n` terminals as they are found, by their ids.
pub open spec fn restored_map(records: Seq<TerminalRecord>, now: i128, n: nat) -> Map<
    Seq<char>,
    TerminalRecord,
>
    decreases n,
{
    if n == 0 {
        Map::empty()
    } else {
        restored_map(records, now, (n - 1) as nat).insert(
            records[n - 1].id@,
            restored(records[n - 1], now),
        )
    }
}

/// How many of the first `n` terminals are live.
pub open spec fn live_among(records: Seq<TerminalRecord>, n: nat) -> nat
    decreases n,
{
    if n == 0 {
        0
    } else {
        live_among(records, (n - 1) as nat) + (if records[n - 1].state
            == TerminalProcessState::Running {
            1nat
        } else {
            0nat
        })
    }
}

/// The id of a terminal with a number.
pub open spec fn id_of(n: u64) -> Seq<char> {
    "terminal_"@ + text::decimal(n as nat)
}

impl ManagerState {
    /// Whether the table of terminals is sound.
    pub open spec fn wf(self) -> bool {
        self.records.wf()
    }

    /// How many terminals are live.
    pub open spec fn live(self) -> nat {
        live_among(self.records.values(), self.records.values().len())
    }

    /// No terminals.
    pub fn new() -> (s: ManagerState)
        ensures
            s.wf(),
            s.records.map() == Map::<Seq<char>, TerminalRecord>::empty(),
            s.next_id == 1,
            s.starting == 0,
    {
        ManagerState { records: Table::new(), next_id: 1, starting: 0 }
    }

    /// Takes up the terminals of an earlier conversation.
    pub fn restore(&mut self, records: Vec<TerminalRecord>, next_id: u64, now: i128)
        ensures
            final(self).wf(),
            final(self).starting == old(self).starting,
            final(self).records.map() == restored_map(records@, now, records@.len()),
            final(self).next_id == (if next_id > following_number(records@) {
                next_id
            } else {
                following_number(records@)
            }),
    {
        let follows: u64 = next_terminal_id(&records);
        let ghost all = records@;
        let mut rest = records;
        let mut reversed: Vec<TerminalRecord> = Vec::new();
        while rest.len() > 0
            invariant
                rest@.len() + reversed@.len() == all.len(),
                rest@ == all.take(rest@.len() as int),
                forall|i: int|
                    0 <= i < reversed@.len() ==> #[trigger] reversed@[i] == all[all.len() - 1 - i],
            decreases rest@.len(),
        {
            let last = rest.pop().unwrap();
            reversed.push(last);
        }
        let mut table: Table<TerminalRecord> = Table::new();
        while reversed.len() > 0
            invariant
                reversed@.len() <= all.len(),
                table.wf(),
                forall|i: int|
                    0 <= i < reversed@.len() ==> #[trigger] reversed@[i] == all[all.len() - 1 - i],
                table.map() == restored_map(all, now, (all.len() - reversed@.len()) as nat),
            decreases reversed@.len(),
        {
            let ghost k = (all.len() - reversed@.len()) as int;
            let mut record = reversed.pop().unwrap();
            assert(record == all[k]);
            let running = match record.state {
                TerminalProcessState::Running => true,
                _ => false,
            };
            if running {
                record.state = TerminalProcessState::Interrupted;
                record.completed_at = Some(now);
                record.updated_at = now;
                record.latest_snapshot = match record.latest_snapshot {
                    Some(s) => Some(
                        TerminalScreenSnapshot {
                            process_state: TerminalProcessState::Interrupted,
                            ..s
                        },
                    ),
                    None => None,
                };
            }
            assert(record == restored(all[k], now));
            let id = record.id.clone();
            let _ = table.insert(&id, record);
        }
        self.records = table;
        self.next_id = if next_id > follows {
            next_id
        } else {
            follows
        };
    }

    /// The terminals in the order of their numbers.
    pub fn persisted_records(&self) -> (r: Vec<&TerminalRecord>)
        requires
            self.wf(),
        ensures
            ({
                let values = self.records.values();
                let order = sort::sort_by(number_keys(values), sort::upto(values.len()));
                &&& r@.len() == order.len()
                &&& forall|i: int| 0 <= i < r@.len() ==> *(#[trigger] r@[i]) == values[order[i]]
            }),
    {
        let ghost values = self.records.values();
        let mut keys: Vec<SmallestFirst> = Vec::new();
        let mut i: usize = 0;
        while i < self.records.len()
            invariant
                i <= values.len(),
                values == self.records.values(),
                keys@.len() == i,
                forall|j: int|
                    0 <= j < i ==> #[trigger] keys@[j] == (SmallestFirst {
                        number: number_of(values[j].id@) as i128,
                    }),
            decreases values.len() - i,
        {
            keys.push(
                SmallestFirst { number: terminal_number(&self.records.value_at(i).id) as i128 },
            );
            i += 1;
        }
        assert(keys@ == number_keys(values));
        let order = sort::sort_all(&keys);
        let mut r: Vec<&TerminalRecord> = Vec::new();
        let mut i: usize = 0;
        while i < order.len()
            invariant
                i <= order@.len(),
                values == self.records.values(),
                r@.len() == i,
                forall|j: int| 0 <= j < order@.len() ==> #[trigger] order@[j] < values.len(),
                forall|j: int| 0 <= j < i ==> *(#[trigger] r@[j]) == values[order@[j] as int],
            decreases order@.len() - i,
        {
            r.push(self.records.value_at(order[i]));
            i += 1;
        }
        proof {
            let sorted = sort::sort_by(number_keys(values), sort::upto(values.len()));
            assert(sort::ints(order@) == sorted);
            assert forall|j: int| 0 <= j < r@.len() implies *(#[trigger] r@[j])
                == values[sorted[j]] by {
                assert(sorted[j] == order@[j] as int);
            }
        }
        r
    }

    /// Reserves the id of a new terminal, unless too many are live.
    pub fn begin_start(&mut self) -> (r: Result<String, String>)
        requires
            old(self).wf(),
            old(self).live() + old(self).starting < usize::MAX,
        ensures
            final(self).records == old(self).records,
            match r {
                Ok(id) => {
                    &&& old(self).live() + old(self).starting < MAX_TERMINALS_PER_SESSION
                    &&& id@ == id_of(old(self).next_id)
                    &&& final(self).starting == old(self).starting + 1
                    &&& final(self).live() + final(self).starting <= MAX_TERMINALS_PER_SESSION
                    &&& final(self).next_id == (if old(self).next_id == u64::MAX {
                        u64::MAX
                    } else {
                        (old(self).next_id + 1) as u64
                    })
                },
                Err(e) => {
                    &&& old(self).live() + old(self).starting >= MAX_TERMINALS_PER_SESSION
                    &&& e@ == "a conversation can have at most "@ + text::decimal(
                        MAX_TERMINALS_PER_SESSION as nat,
                    ) + " live terminals"@
                    &&& *final(self) == *old(self)
                },
            },
    {
        let ghost values = self.records.values();
        let mut live: usize = 0;
        let mut i: usize = 0;
        while i < self.records.len()
            invariant
                i <= values.len(),
                values == self.records.values(),
                live <= i,
                live == live_among(values, i as nat),
            decreases values.len() - i,
        {
            match self.records.value_at(i).state {
                TerminalProcessState::Running => {
                    live += 1;
                },
                _ => {},
            }
            i += 1;
        }
        if live + self.starting >= MAX_TERMINALS_PER_SESSION {
            return Err(
                text::cat3(
                    "a conversation can have at most ",
                    &text::to_decimal(MAX_TERMINALS_PER_SESSION as u64),
                    " live terminals",
                ),
            );
        }
        let id = text::cat2("terminal_", &text::to_decimal(self.next_id));
        if self.next_id < u64::MAX {
            self.next_id = self.next_id + 1;
        }
        self.starting = self.starting + 1;
        Ok(id)
    }

    /// A terminal that was reserved has started, or could not be.
    pub fn finish_start(&mut self, record: Option<TerminalRecord>)
        requires
            old(self).wf(),
        ensures
            final(self).wf(),
            final(self).next_id == old(self).next_id,
            final(self).starting == (if old(self).starting == 0 {
                0
            } else {
                old(self).starting - 1
            }),
            final(self).records.map() == (match record {
                Some(r) => old(self).records.map().insert(r.id@, r),
                None => old(self).records.map(),
            }),
    {
        if self.starting > 0 {
            self.starting = self.starting - 1;
        }
        if let Some(r) = record {
            let id = r.id.clone();
            let _ = self.records.insert(&id, r);
        }
    }

    /// Stores what is known of a terminal now; when it ended stays as it was first known.
    pub fn update_record(&mut self, record: TerminalRecord)
        requires
            old(self).wf(),
        ensures
            final(self).wf(),
            final(self).next_id == old(self).next_id,
            final(self).starting == old(self).starting,
            final(self).records.map() == old(self).records.map().insert(
                record.id@,
                kept_end(record, old(self).records.map()),
            ),
    {
        let mut r = record;
        if r.completed_at.is_some() {
            if let Some(previous) = self.records.get(&r.id) {
                if previous.completed_at.is_some() {
                    r.completed_at = previous.completed_at;
                }
            }
        }
        let id = r.id.clone();
        let _ = self.records.insert(&id, r);
    }

    /// Marks a terminal as looked at that runs no more; tells whether there is one.
    pub fn inspect(&mut self, terminal_id: &str, now: i128) -> (found: bool)
        requires
            old(self).wf(),
        ensures
            final(self).wf(),
            final(self).next_id == old(self).next_id,
            final(self).starting == old(self).starting,
            found == old(self).records.map().contains_key(terminal_id@),
            found ==> final(self).records.map() == old(self).records.map().insert(
                terminal_id@,
                inspected(old(self).records.map()[terminal_id@], now),
            ),
            !found ==> *final(self) == *old(self),
    {
        let ghost before = self.records.map();
        match self.records.remove(terminal_id) {
            Some(record) => {
                let mut r = record;
                r.latest_observation = ObservationClassification::Unchanged;
                r.updated_at = now;
                r.latest_snapshot = match r.latest_snapshot {
                    Some(s) => Some(
                        TerminalScreenSnapshot {
                            observation: ObservationClassification::Unchanged,
                            ..s
                        },
                    ),
                    None => None,
                };
                let ghost v = r;
                assert(v == inspected(record, now));
                let _ = self.records.insert(terminal_id, r);
                assert(before.remove(terminal_id@).insert(terminal_id@, v) == before.insert(
                    terminal_id@,
                    v,
                ));
                true
            },
            None => false,
        }
    }

    /// Forgets a terminal.
    pub fn forget(&mut self, terminal_id: &str)
        requires
            old(self).wf(),
        ensures
            final(self).wf(),
            final(self).next_id == old(self).next_id,
            final(self).starting == old(self).starting,
            final(self).records.map() == old(self).records.map().remove(terminal_id@),
    {
        let _ = self.records.remove(terminal_id);
    }

    /// Forgets all terminals.
    pub fn clear(&mut self)
        ensures
            final(self).wf(),
            final(self).records.map() == Map::<Seq<char>, TerminalRecord>::empty(),
            final(self).next_id == 1,
            final(self).starting == old(self).starting,
    {
        self.records = Table::new();
        self.next_id = 1;
    }
}

/// The ranks of terminals by their numbers.
pub open spec fn number_keys(records: Seq<TerminalRecord>) -> Seq<SmallestFirst> {
    Seq::new(
        records.len(),
        |i: int| SmallestFirst { number: number_of(records[i].id@) as i128 },
    )
}

/// What is known of a terminal now, with when it ended as it was first known.
pub open spec fn kept_end(r: TerminalRecord, records: Map<Seq<char>, TerminalRecord>) -> TerminalRecord {
    if r.completed_at is Some && records.contains_key(r.id@) && records[r.id@].completed_at is Some {
        TerminalRecord { completed_at: records[r.id@].completed_at, ..r }
    } else {
        r
    }
}

/// A terminal that was looked at and runs no more.
pub open spec fn inspected(r: TerminalRecord, now: i128) -> TerminalRecord {
    TerminalRecord {
        latest_observation: ObservationClassification::Unchanged,
        updated_at: now,
        latest_snapshot: match r.latest_snapshot {
            Some(s) => Some(
                TerminalScreenSnapshot { observation: ObservationClassification::Unchanged, ..s },
            ),
            None => None,
        },
        ..r
    }
}

/// What became of a process: a terminal that was closed counts as such.
pub fn process_state(closed: bool, exited: bool) -> (r: TerminalProcessState)
    ensures
        r == (if closed {
            TerminalProcessState::Closed
        } else if exited {
            TerminalProcessState::Exited
        } else {
            TerminalProcessState::Running
        }),
{
    if closed {
        TerminalProcessState::Closed
    } else if exited {
        TerminalProcessState::Exited
    } else {
        TerminalProcessState::Running
    }
}

/// What a terminal was started with.
#[derive(Debug)]
pub struct Started {
    pub id: String,
    pub command: String,
    pub shell: String,
    pub working_directory: String,
    pub created_at: i128,
}

/// What is known of a terminal at `now`.
pub fn record(
    started: &Started,
    shown: &EmulatedScreen,
    closed: bool,
    exit_code: Option<u32>,
    observation: ObservationClassification,
    now: i128,
) -> (r: TerminalRecord)
    requires
        shown.cursor_x < usize::MAX,
        shown.cursor_y < usize::MAX,
    ensures
        r.id@ == started.id@,
        r.command@ == started.command@,
        r.shell@ == started.shell@,
        r.working_directory@ == started.working_directory@,
        r.created_at == started.created_at,
        r.updated_at == now,
        r.completed_at == (if r.state == TerminalProcessState::Running {
            None
        } else {
            Some(now)
        }),
        r.columns == shown.columns as u16,
        r.rows == shown.rows as u16,
        r.state == (if closed {
            TerminalProcessState::Closed
        } else if exit_code is Some {
            TerminalProcessState::Exited
        } else {
            TerminalProcessState::Running
        }),
        r.exit_code == exit_code,
        r.latest_observation == observation,
        r.recent_transcript@ == screen::tail_of(
            text::strip_back(
                screen::seen_lines(shown.lines@, shown.lines@.len()),
                |c: char| screen::is_filling(c),
            ),
            screen::MODEL_TRANSCRIPT_TAIL as nat,
        ),
        r.latest_snapshot matches Some(s) && screen::pictures(
            s,
            started.id@,
            started.command@,
            *shown,
            r.state,
            exit_code,
            observation,
            r.recent_transcript@,
        ),
{
    let state = process_state(closed, exit_code.is_some());
    let seen = screen::transcript(&shown.lines);
    let snapshot = screen::snapshot(
        &started.id,
        &started.command,
        shown,
        state,
        exit_code,
        observation,
        seen.clone(),
    );
    let completed_at = match state {
        TerminalProcessState::Running => None,
        _ => Some(now),
    };
    TerminalRecord {
        id: started.id.clone(),
        command: started.command.clone(),
        shell: started.shell.clone(),
        working_directory: started.working_directory.clone(),
        created_at: started.created_at,
        updated_at: now,
        completed_at,
        columns: shown.columns as u16,
        rows: shown.rows as u16,
        state,
        exit_code,
        latest_snapshot: Some(snapshot),
        latest_observation: observation,
        recent_transcript: seen,
    }
}

/// Whether something can be done to a terminal, and what a person is told where not.
pub fn check_live(terminal_id: &str, state: TerminalProcessState) -> (r: Result<(), String>)
    ensures
        r is Ok == (state == TerminalProcessState::Running),
        r matches Err(e) ==> e@ == "terminal "@ + text::quoted(terminal_id@) + " is "@ + state_text(
            state,
        ) + "; only running terminals accept this operation"@,
{
    match state {
        TerminalProcessState::Running => Ok(()),
        _ => Err(
            text::cat5(
                "terminal ",
                &text::quote(terminal_id),
                " is ",
                state_name(state),
                "; only running terminals accept this operation",
            ),
        ),
    }
}

/// Whether a command can be run, and what a person is told where not.
pub fn check_command(command: &str) -> (r: Result<(), String>)
    ensures
        r is Ok == (text::trimmed(command@).len() > 0),
        r matches Err(e) ==> e@ == "command cannot be empty"@,
{
    if text::trim(command).is_empty() {
        Err("command cannot be empty".to_owned())
    } else {
        Ok(())
    }
}

// ---------------------------------------------------------------------------
// What always holds

proof fn lemma_largest(records: Seq<TerminalRecord>, n: nat)
    requires
        n <= records.len(),
    ensures
        forall|i: int|
            0 <= i < n ==> number_of((#[trigger] records[i]).id@) <= largest_number(records, n),
    decreases n,
{
    if n > 0 {
        lemma_largest(records, (n - 1) as nat);
    }
}

proof fn lemma_restored_ids(records: Seq<TerminalRecord>, now: i128, n: nat, k: Seq<char>)
    requires
        n <= records.len(),
    ensures
        restored_map(records, now, n).contains_key(k) <==> exists|i: int|
            0 <= i < n && (#[trigger] records[i]).id@ == k,
    decreases n,
{
    if n > 0 {
        lemma_restored_ids(records, now, (n - 1) as nat, k);
        if records[n - 1].id@ == k {
            assert(records[n - 1].id@ == k);
        }
        if exists|i: int| 0 <= i < n - 1 && (#[trigger] records[i]).id@ == k {
            let i = choose|i: int| 0 <= i < n - 1 && (#[trigger] records[i]).id@ == k;
            assert(0 <= i < n && records[i].id@ == k);
        }
    }
}

/// The number of a terminal is the one that its id was made with.
pub proof fn ids_keep_their_numbers(n: u64)
    ensures
        number_of(id_of(n)) == n,
{
    let id = id_of(n);
    let prefix = "terminal_"@;
    assert(id.subrange(0, prefix.len() as int) == prefix);
    assert(id.skip(prefix.len() as int) == text::decimal(n as nat));
    numbers::decimals_read_back(n as nat);
}

/// A terminal that is started after others were restored has an id that none of them has.
pub proof fn new_terminals_have_new_ids(records: Seq<TerminalRecord>, next_id: u64, now: i128)
    requires
        following_number(records) <= next_id < u64::MAX,
    ensures
        !restored_map(records, now, records.len()).contains_key(id_of(next_id)),
{
    ids_keep_their_numbers(next_id);
    lemma_restored_ids(records, now, records.len(), id_of(next_id));
    lemma_largest(records, records.len());
}

/// Of what is restored, nothing runs.
pub proof fn nothing_runs_after_restoring(records: Seq<TerminalRecord>, now: i128, n: nat)
    requires
        n <= records.len(),
    ensures
        forall|k: Seq<char>|
            restored_map(records, now, n).contains_key(k) ==> (#[trigger] restored_map(
                records,
                now,
                n,
            )[k]).state != TerminalProcessState::Running,
    decreases n,
{
    if n > 0 {
        nothing_runs_after_restoring(records, now, (n - 1) as nat);
    }
}

/// A screen that did not change is told as unchanged. One that did is told as settled where it has been
/// the same for a quarter of a second or its process has ended, and else as still changing.
pub proof fn screens_are_told_apart(changed: bool, stable_for: u64, exited: bool)
    ensures
        classified(changed, stable_for, exited) == ObservationClassification::Unchanged
            <==> !changed,
        classified(changed, stable_for, exited)
            == ObservationClassification::ChangedThenStabilized <==> changed && (stable_for >= 250
            || exited),
        classified(changed, stable_for, exited)
            == ObservationClassification::StillChangingAtDeadline <==> changed && stable_for < 250
            && !exited,
{
}

/// A terminal that is taken up again keeps all that is known of it, but that what ran is interrupted,
/// now, as its last picture tells too.
pub proof fn restored_terminals_keep_what_is_known(r: TerminalRecord, now: i128)
    ensures
        ({
            let after = restored(r, now);
            &&& after.id@ == r.id@ && after.command@ == r.command@ && after.recent_transcript@
                == r.recent_transcript@ && after.created_at == r.created_at && after.exit_code
                == r.exit_code
            &&& r.state != TerminalProcessState::Running ==> after == r
            &&& r.state == TerminalProcessState::Running ==> after.state
                == TerminalProcessState::Interrupted && after.completed_at == Some(now)
            &&& r.state == TerminalProcessState::Running && r.latest_snapshot is Some
                ==> after.latest_snapshot is Some && after.latest_snapshot->0.process_state
                == TerminalProcessState::Interrupted && after.latest_snapshot->0.lines
                == r.latest_snapshot->0.lines
        }),
{
}

/// When a terminal ended stays as it was first known; nothing else of what is known now is changed.
pub proof fn the_first_end_stays(r: TerminalRecord, records: Map<Seq<char>, TerminalRecord>)
    ensures
        r.completed_at is Some && records.contains_key(r.id@) && records[r.id@].completed_at is Some
            ==> kept_end(r, records).completed_at == records[r.id@].completed_at,
        r.completed_at is None || !records.contains_key(r.id@)
            || records[r.id@].completed_at is None ==> kept_end(r, records) == r,
        kept_end(r, records).id == r.id && kept_end(r, records).state == r.state && kept_end(
            r,
            records,
        ).recent_transcript == r.recent_transcript && kept_end(r, records).exit_code == r.exit_code
            && kept_end(r, records).latest_snapshot == r.latest_snapshot,
{
}

/// The terminals that are live are exactly those that run.
pub proof fn running_terminals_are_counted(records: Seq<TerminalRecord>, r: TerminalRecord)
    ensures
        live_among(records.push(r), records.len() + 1) == live_among(records, records.len()) + (
        if r.state == TerminalProcessState::Running {
            1int
        } else {
            0
        }),
        live_among(Seq::empty(), 0) == 0,
{
    lemma_live_prefix(records, records.push(r), records.len());
}

proof fn lemma_live_prefix(a: Seq<TerminalRecord>, b: Seq<TerminalRecord>, n: nat)
    requires
        n <= a.len(),
        n <= b.len(),
        forall|i: int| 0 <= i < n ==> a[i] == b[i],
    ensures
        live_among(a, n) == live_among(b, n),
    decreases n,
{
    if n > 0 {
        lemma_live_prefix(a, b, (n - 1) as nat);
    }
}

/// Looking at a terminal changes when it was last seen and that nothing changed, and nothing else.
pub proof fn looking_changes_nothing_else(r: TerminalRecord, now: i128)
    ensures
        ({
            let seen = inspected(r, now);
            &&& seen.id == r.id
            &&& seen.command == r.command
            &&& seen.state == r.state
            &&& seen.exit_code == r.exit_code
            &&& seen.created_at == r.created_at
            &&& seen.completed_at == r.completed_at
            &&& seen.recent_transcript == r.recent_transcript
            &&& seen.updated_at == now
            &&& seen.latest_observation == ObservationClassification::Unchanged
            &&& seen.latest_snapshot is Some <==> r.latest_snapshot is Some
            &&& (seen.latest_snapshot matches Some(s) ==> s.lines == r.latest_snapshot->0.lines
                && s.observation == ObservationClassification::Unchanged)
        }),
{
}

/// A new terminal is watched until its process ends, any other until it changed and is still; neither
/// past the deadline, and what changed once has changed.
pub proof fn a_terminal_is_watched_until_enough_was_seen(
    w: &mut Watch,
    exited: bool,
    sequence: u64,
    stable_for: u64,
    at_deadline: bool,
    r: WatchStep,
)
    requires
        call_ensures(Watch::observe, (w, exited, sequence, stable_for, at_deadline), r),
    ensures
        r == WatchStep::Drain <==> exited && old(w).initial,
        r == WatchStep::Wait ==> !at_deadline,
        at_deadline && !(exited && old(w).initial) ==> r == WatchStep::Done,
        r == WatchStep::Done && !at_deadline ==> !old(w).initial && (old(w).changed || sequence
            > old(w).previous_sequence) && stable_for >= 250,
        old(w).changed ==> final(w).changed,
        final(w).changed && !old(w).changed ==> sequence > old(w).previous_sequence,
{
}

/// What is said of a look: nothing changed, or it changed and is still or over, or it goes on.
pub proof fn a_look_tells_what_changed(changed: bool, stable_for: u64, exited: bool)
    ensures
        classified(changed, stable_for, exited) == ObservationClassification::Unchanged
            <==> !changed,
        classified(changed, stable_for, exited)
            == ObservationClassification::ChangedThenStabilized <==> changed && (stable_for >= 250
            || exited),
{
}

/// A terminal is begun under a new number while fewer than eight run or begin, and else refused.
pub proof fn eight_terminals_run_at_most(m: &mut ManagerState, r: Result<String, String>)
    requires
        call_ensures(ManagerState::begin_start, (m,), r),
        old(m).wf(),
        old(m).live() + old(m).starting < usize::MAX,
    ensures
        r is Ok <==> old(m).live() + old(m).starting < 8,
        r is Ok ==> final(m).starting == old(m).starting + 1,
        r is Ok && old(m).next_id < u64::MAX ==> final(m).next_id == old(m).next_id + 1,
        r is Err ==> *final(m) == *old(m),
        final(m).records == old(m).records,
{
}

/// A terminal that is forgotten is gone, and every other one stays.
pub proof fn forgetting_takes_one_terminal(m: &mut ManagerState, id: &str, other: Seq<char>)
    requires
        call_ensures(ManagerState::forget, (m, id), ()),
        old(m).wf(),
        other != id@,
    ensures
        !final(m).records.map().contains_key(id@),
        final(m).records.map().contains_key(other) == old(m).records.map().contains_key(other),
        old(m).records.map().contains_key(other) ==> final(m).records.map()[other]
            == old(m).records.map()[other],
        final(m).next_id == old(m).next_id,
{
}

} // verus!
