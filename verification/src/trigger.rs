//! The on-change trigger's decisions. Change notifications are gathered into
//! a pending set of names; once notifications have been quiet for the
//! debounce period (or a flush is requested), the command runs once for the
//! whole burst, with the changed names in its environment.
use vstd::prelude::*;

use crate::config::OnChangeConfig;
use crate::nameset::{texts, NameSet};
use crate::state::strictly_sorted;
use crate::text::{blank, copy_string, decimal, is_blank, natural_text, push_char};

verus! {

/// Where the trigger task stands.
#[derive(Clone, Copy, Debug, PartialEq, Eq, Structural)]
pub enum Phase {
    /// Nothing pending: wait for the next message, however long it takes.
    Idle,
    /// A burst is being gathered: wait for the next message at most the
    /// debounce period.
    Quiet,
    /// The channel closed: the task ends.
    Stopped,
}

/// What the trigger task observed.
pub enum TriggerEvent {
    /// These names changed.
    Changed(Vec<String>),
    /// Run whatever is pending now, and acknowledge.
    Flush,
    /// The debounce period passed without a message.
    QuietElapsed,
    /// Every sender is gone.
    Closed,
}

/// What the trigger task does next.
pub struct TriggerDecision {
    /// Run the command for these names (in increasing order), if any.
    pub run: Option<Vec<String>>,
    /// Acknowledge the flush request (after the run, if there is one).
    pub ack: bool,
    /// How to wait next.
    pub next: Phase,
}

/// The trigger's state, over views.
pub struct TriggerView {
    pub pending: Set<Seq<char>>,
    pub phase: Phase,
}

/// An observed event, over views.
pub enum EventView {
    Changed(Seq<Seq<char>>),
    Flush,
    QuietElapsed,
    Closed,
}

/// The view of an event.
pub open spec fn event_view(e: TriggerEvent) -> EventView {
    match e {
        TriggerEvent::Changed(v) => EventView::Changed(texts(v@)),
        TriggerEvent::Flush => EventView::Flush,
        TriggerEvent::QuietElapsed => EventView::QuietElapsed,
        TriggerEvent::Closed => EventView::Closed,
    }
}

/// The run a pending set gives: none when nothing is pending.
pub open spec fn run_of(pending: Set<Seq<char>>) -> Option<Set<Seq<char>>> {
    if pending == Set::<Seq<char>>::empty() {
        None
    } else {
        Some(pending)
    }
}

/// The trigger's transition: the next state, the run (if any), and whether
/// to acknowledge.
pub open spec fn trigger_next(s: TriggerView, e: EventView) -> (TriggerView, Option<Set<Seq<char>>>, bool) {
    let idle = TriggerView { pending: Set::empty(), phase: Phase::Idle };
    match s.phase {
        Phase::Stopped => (s, None, false),
        Phase::Idle => match e {
            EventView::Changed(ns) => (TriggerView { pending: s.pending.union(ns.to_set()), phase: Phase::Quiet }, None, false),
            EventView::Flush => (s, None, true),
            EventView::QuietElapsed => (s, None, false),
            EventView::Closed => (TriggerView { pending: s.pending, phase: Phase::Stopped }, None, false),
        },
        Phase::Quiet => match e {
            EventView::Changed(ns) => (TriggerView { pending: s.pending.union(ns.to_set()), phase: Phase::Quiet }, None, false),
            EventView::Flush => (idle, run_of(s.pending), true),
            EventView::QuietElapsed => (idle, run_of(s.pending), false),
            EventView::Closed => (TriggerView { pending: s.pending, phase: Phase::Stopped }, None, false),
        },
    }
}

/// The debounce state machine of the trigger task.
pub struct Debouncer {
    pending: NameSet,
    phase: Phase,
}

impl View for Debouncer {
    type V = TriggerView;

    closed spec fn view(&self) -> TriggerView {
        TriggerView { pending: self.pending@, phase: self.phase }
    }
}

impl Debouncer {
    /// The invariant.
    pub closed spec fn wf(&self) -> bool {
        self.pending.wf()
    }

    /// A trigger with nothing pending.
    pub fn new() -> (d: Self)
        ensures
            d.wf(),
            d@ == (TriggerView { pending: Set::empty(), phase: Phase::Idle }),
    {
        Debouncer { pending: NameSet::new(), phase: Phase::Idle }
    }

    /// How the task waits now.
    pub fn phase(&self) -> (p: Phase)
        ensures
            p == self@.phase,
    {
        self.phase
    }

    fn take_run(&mut self) -> (r: Option<Vec<String>>)
        requires
            old(self).wf(),
        ensures
            final(self).wf(),
            final(self)@.pending == Set::<Seq<char>>::empty(),
            final(self)@.phase == old(self)@.phase,
            match r {
                Some(v) => run_of(old(self)@.pending) == Some(texts(v@).to_set()) && strictly_sorted(texts(v@)),
                None => run_of(old(self)@.pending) is None,
            },
    {
        proof {
            self.pending.lemma_listing();
            assert(self.pending.listing().to_set() =~= self.pending@);
        }
        let r = if self.pending.is_empty() {
            None
        } else {
            Some(self.pending.to_vec())
        };
        self.pending = NameSet::new();
        r
    }

    /// Takes one event and decides what to do.
    pub fn step(&mut self, event: TriggerEvent) -> (d: TriggerDecision)
        requires
            old(self).wf(),
        ensures
            final(self).wf(),
            ({
                let (s, run, ack) = trigger_next(old(self)@, event_view(event));
                &&& final(self)@ == s
                &&& d.next == s.phase
                &&& d.ack == ack
                &&& match d.run {
                    Some(v) => run == Some(texts(v@).to_set()) && strictly_sorted(texts(v@)),
                    None => run is None,
                }
            }),
    {
        let ghost before = self@;
        match self.phase {
            Phase::Stopped => TriggerDecision { run: None, ack: false, next: Phase::Stopped },
            Phase::Idle => match event {
                TriggerEvent::Changed(names) => {
                    self.pending.extend(&names);
                    self.phase = Phase::Quiet;
                    TriggerDecision { run: None, ack: false, next: Phase::Quiet }
                },
                TriggerEvent::Flush => TriggerDecision { run: None, ack: true, next: Phase::Idle },
                TriggerEvent::QuietElapsed => TriggerDecision { run: None, ack: false, next: Phase::Idle },
                TriggerEvent::Closed => {
                    self.phase = Phase::Stopped;
                    TriggerDecision { run: None, ack: false, next: Phase::Stopped }
                },
            },
            Phase::Quiet => match event {
                TriggerEvent::Changed(names) => {
                    self.pending.extend(&names);
                    TriggerDecision { run: None, ack: false, next: Phase::Quiet }
                },
                TriggerEvent::Flush => {
                    let run = self.take_run();
                    self.phase = Phase::Idle;
                    TriggerDecision { run, ack: true, next: Phase::Idle }
                },
                TriggerEvent::QuietElapsed => {
                    let run = self.take_run();
                    self.phase = Phase::Idle;
                    TriggerDecision { run, ack: false, next: Phase::Idle }
                },
                TriggerEvent::Closed => {
                    self.phase = Phase::Stopped;
                    TriggerDecision { run: None, ack: false, next: Phase::Stopped }
                },
            },
        }
    }
}

/// The state after a sequence of change notifications.
pub open spec fn after_changes(s: TriggerView, bursts: Seq<Seq<Seq<char>>>) -> TriggerView
    decreases bursts.len(),
{
    if bursts.len() == 0 {
        s
    } else {
        trigger_next(after_changes(s, bursts.drop_last()), EventView::Changed(bursts.last())).0
    }
}

/// Every name of every burst.
pub open spec fn all_names(bursts: Seq<Seq<Seq<char>>>) -> Set<Seq<char>>
    decreases bursts.len(),
{
    if bursts.len() == 0 {
        Set::empty()
    } else {
        all_names(bursts.drop_last()).union(bursts.last().to_set())
    }
}

/// A burst is coalesced into one run. From an idle trigger, a sequence of
/// change notifications runs nothing while it lasts; once the debounce
/// period passes quietly (or a flush comes), the command runs exactly once,
/// for every name of the burst, and the trigger is idle with nothing pending.
pub proof fn law_burst_runs_once(bursts: Seq<Seq<Seq<char>>>)
    requires
        bursts.len() > 0,
    ensures
        ({
            let idle = TriggerView { pending: Set::empty(), phase: Phase::Idle };
            let s = after_changes(idle, bursts);
            &&& forall|i: int| 0 <= i < bursts.len() ==> (#[trigger] trigger_next(after_changes(idle, bursts.take(i)), EventView::Changed(bursts[i]))).1 is None
            &&& s.phase == Phase::Quiet
            &&& s.pending == all_names(bursts)
            &&& trigger_next(s, EventView::QuietElapsed) == (idle, run_of(all_names(bursts)), false)
            &&& trigger_next(s, EventView::Flush) == (idle, run_of(all_names(bursts)), true)
        }),
    decreases bursts.len(),
{
    let idle = TriggerView { pending: Set::empty(), phase: Phase::Idle };
    if bursts.len() == 1 {
        assert(bursts.drop_last() =~= Seq::<Seq<Seq<char>>>::empty());
        assert(all_names(bursts.drop_last()) == Set::<Seq<char>>::empty());
        assert(bursts.take(0) =~= Seq::<Seq<Seq<char>>>::empty());
    } else {
        let pre = bursts.drop_last();
        law_burst_runs_once(pre);
        assert forall|i: int| 0 <= i < bursts.len() implies (#[trigger] trigger_next(after_changes(idle, bursts.take(i)), EventView::Changed(bursts[i]))).1 is None by {
            if i < pre.len() {
                assert(bursts.take(i) =~= pre.take(i));
                assert(bursts[i] == pre[i]);
                assert(trigger_next(after_changes(idle, pre.take(i)), EventView::Changed(pre[i])).1 is None);
            } else {
                assert(bursts.take(i) =~= pre);
            }
        }
    }
}

/// Whether the trigger runs at all: only when a command is configured.
pub fn trigger_enabled(cfg: &OnChangeConfig) -> (r: bool)
    ensures
        r == !is_blank(cfg.command@),
{
    !blank(cfg.command.as_str())
}

/// The names joined with a separator between each two.
pub open spec fn joined(ns: Seq<Seq<char>>, sep: char) -> Seq<char>
    decreases ns.len(),
{
    if ns.len() == 0 {
        Seq::empty()
    } else if ns.len() == 1 {
        ns[0]
    } else {
        joined(ns.drop_last(), sep).push(sep) + ns.last()
    }
}

/// Joins names with commas.
pub fn join_names(names: &Vec<String>) -> (s: String)
    ensures
        s@ == joined(texts(names@), ','),
{
    let mut s = String::new();
    let mut i: usize = 0;
    while i < names.len()
        invariant
            i <= names@.len(),
            s@ == joined(texts(names@.take(i as int)), ','),
        decreases names.len() - i,
    {
        let ghost t = texts(names@.take(i + 1));
        proof {
            assert(t.drop_last() =~= texts(names@.take(i as int)));
            assert(t.last() == names@[i as int]@);
        }
        if i > 0 {
            push_char(&mut s, ',');
        }
        s.append(names[i].as_str());
        proof {
            if i == 0 {
                assert(t.len() == 1);
                assert(s@ =~= t[0]);
            }
        }
        i = i + 1;
    }
    assert(names@.take(names@.len() as int) =~= names@);
    s
}

/// How to start the on-change command.
pub struct CommandSpec {
    /// The program: the shell.
    pub program: String,
    /// Its arguments: `-c` and the configured command.
    pub args: Vec<String>,
    /// The working directory, when one is configured.
    pub workdir: Option<String>,
    /// Environment variables to set, in order (a later one wins).
    pub env: Vec<(String, String)>,
}

/// The views of environment pairs.
pub open spec fn pairs_view(v: Seq<(String, String)>) -> Seq<(Seq<char>, Seq<char>)> {
    v.map_values(|p: (String, String)| (p.0@, p.1@))
}

/// The variable holding the changed names.
pub open spec fn changed_params_var() -> Seq<char> {
    "WATCHER_CHANGED_PARAMS"@
}

/// The variable holding how many names changed.
pub open spec fn changed_count_var() -> Seq<char> {
    "WATCHER_CHANGED_COUNT"@
}

/// The command to run for a burst of changed names: `sh -c <command>`, in
/// the configured working directory unless it is blank, with the
/// comma-joined names and their count in the environment before the
/// configured variables. Nothing runs for an empty burst.
pub fn command_for(cfg: &OnChangeConfig, names: &Vec<String>) -> (r: Option<CommandSpec>)
    ensures
        names@.len() == 0 ==> r is None,
        names@.len() > 0 ==> (r matches Some(c) && {
            &&& c.program@ == "sh"@
            &&& texts(c.args@) == seq!["-c"@, cfg.command@]
            &&& match c.workdir {
                Some(w) => !is_blank(cfg.workdir@) && w@ == cfg.workdir@,
                None => is_blank(cfg.workdir@),
            }
            &&& pairs_view(c.env@) == seq![
                (changed_params_var(), joined(texts(names@), ',')),
                (changed_count_var(), decimal(names@.len() as nat)),
            ] + pairs_view(cfg.env@)
        }),
{
    if names.len() == 0 {
        return None;
    }
    let mut args: Vec<String> = Vec::new();
    args.push("-c".to_string());
    args.push(copy_string(&cfg.command));
    let workdir = if blank(cfg.workdir.as_str()) {
        None
    } else {
        Some(copy_string(&cfg.workdir))
    };
    let mut env: Vec<(String, String)> = Vec::new();
    env.push(("WATCHER_CHANGED_PARAMS".to_string(), join_names(names)));
    env.push(("WATCHER_CHANGED_COUNT".to_string(), natural_text(names.len() as u64)));
    let ghost head = pairs_view(env@);
    let mut i: usize = 0;
    while i < cfg.env.len()
        invariant
            i <= cfg.env@.len(),
            pairs_view(env@) == head + pairs_view(cfg.env@.take(i as int)),
        decreases cfg.env.len() - i,
    {
        let ghost before = env@;
        env.push((copy_string(&cfg.env[i].0), copy_string(&cfg.env[i].1)));
        proof {
            assert(pairs_view(env@) =~= pairs_view(before).push((cfg.env@[i as int].0@, cfg.env@[i as int].1@)));
            assert(pairs_view(cfg.env@.take(i + 1)) =~= pairs_view(cfg.env@.take(i as int)).push((cfg.env@[i as int].0@, cfg.env@[i as int].1@)));
        }
        i = i + 1;
    }
    proof {
        assert(cfg.env@.take(cfg.env@.len() as int) =~= cfg.env@);
        assert(texts(args@) =~= seq!["-c"@, cfg.command@]);
    }
    Some(CommandSpec { program: "sh".to_string(), args, workdir, env })
}

} // verus!
