//! A sequential chain of agents. Each agent's output is handed, whole, to
//! the next agent as its input, and every turn is logged in order.
//!
//! The chain decides what runs next; the caller runs the model on the
//! prompts the chain gives and reports how the turn ended.
use vstd::prelude::*;
use crate::agent::{Agent, AgentView, TurnStatus, effective_prompt};

verus! {

/// One entry of a chain's log.
pub struct LogEntry {
    pub agent_name: String,
    pub input: String,
    pub output: String,
    pub timestamp: u64,
    pub status: TurnStatus,
}

/// A log entry as seen in contracts: agent name, input, output, time, status.
pub type LogView = (Seq<char>, Seq<char>, Seq<char>, u64, TurnStatus);

impl View for LogEntry {
    type V = LogView;

    open spec fn view(&self) -> LogView {
        (self.agent_name@, self.input@, self.output@, self.timestamp, self.status)
    }
}

pub open spec fn log_views(v: Seq<LogEntry>) -> Seq<LogView> {
    v.map_values(|e: LogEntry| e@)
}

pub open spec fn agent_views(v: Seq<Agent>) -> Seq<AgentView> {
    v.map_values(|a: Agent| a@)
}

/// Where a chain stands.
#[derive(Debug, Clone, Copy, PartialEq, Eq, Structural)]
pub enum ChainPhase {
    /// Built, not run yet.
    NotStarted,
    /// The agent at `index` is to run, or running.
    Running { index: usize },
    /// Every agent ran to completion.
    Finished,
    /// The agent at `index` failed; no further agent runs.
    Failed { index: usize },
    /// The chain was cancelled while the agent at `index` ran; no further agent runs.
    Cancelled { index: usize },
}

/// The errors of a chain run.
#[derive(Debug, PartialEq, Eq)]
pub enum ChainError {
    /// The chain was run before.
    AlreadyRun,
    /// The agent at `index` failed, for `cause`.
    AgentFailed { index: usize, cause: String },
    /// The run was cancelled.
    Cancelled,
}

/// What the caller is to do next.
pub enum Step {
    /// Run the agent at `index` on these prompts.
    Run { index: usize, system_prompt: String, user_prompt: String },
    /// Nothing is left to run.
    Done,
}

/// A chain as seen in contracts: its agents, its log, its phase, and the
/// input waiting for the agent that runs next.
pub struct ChainView {
    pub agents: Seq<AgentView>,
    pub logs: Seq<LogView>,
    pub phase: ChainPhase,
    pub pending: Seq<char>,
}

/// The log holds one entry per agent that ran, in the order of the agents.
pub open spec fn chain_wf(c: ChainView) -> bool {
    &&& c.logs.len() <= c.agents.len()
    &&& forall|k: int| 0 <= k < c.logs.len() ==> (#[trigger] c.logs[k]).0 == c.agents[k].name
    &&& match c.phase {
        ChainPhase::NotStarted => c.logs.len() == 0 && c.pending.len() == 0,
        ChainPhase::Running { index } => index < c.agents.len() && c.logs.len() == index,
        ChainPhase::Finished => c.logs.len() == c.agents.len(),
        ChainPhase::Failed { index } => index < c.agents.len() && c.logs.len() == index + 1,
        ChainPhase::Cancelled { index } => index < c.agents.len() && c.logs.len() == index + 1,
    }
}

/// The chain after the running agent's turn ended with `output` and
/// `status`: the turn is in the agent's memory and in the log, and the chain
/// moves on to the next agent on a completed turn, or stops otherwise.
/// Nothing changes where no agent is running.
pub open spec fn after_turn(c: ChainView, output: Seq<char>, ts: u64, status: TurnStatus) -> ChainView {
    match c.phase {
        ChainPhase::Running { index } => {
            let a = c.agents[index as int];
            ChainView {
                agents: c.agents.update(
                    index as int,
                    AgentView { memory: a.memory.push((c.pending, output, ts, status)), ..a },
                ),
                logs: c.logs.push((a.name, c.pending, output, ts, status)),
                phase: match status {
                    TurnStatus::Completed => if index + 1 < c.agents.len() {
                        ChainPhase::Running { index: (index + 1) as usize }
                    } else {
                        ChainPhase::Finished
                    },
                    TurnStatus::Failed => ChainPhase::Failed { index },
                    TurnStatus::Cancelled => ChainPhase::Cancelled { index },
                },
                pending: output,
            }
        },
        _ => c,
    }
}

/// Each turn that the chain records appends one log entry, names the agent
/// at the next place in the chain, and keeps every earlier entry; so the
/// log's agent names are those of the agents in the order they were added.
pub proof fn lemma_log_order(c: ChainView, output: Seq<char>, ts: u64, status: TurnStatus)
    requires
        chain_wf(c),
        c.phase is Running,
        c.agents.len() <= usize::MAX,
    ensures
        chain_wf(after_turn(c, output, ts, status)),
        after_turn(c, output, ts, status).logs.len() == c.logs.len() + 1,
        after_turn(c, output, ts, status).logs.subrange(0, c.logs.len() as int) == c.logs,
        after_turn(c, output, ts, status).logs.last().0 == c.agents[c.logs.len() as int].name,
        forall|k: int|
            0 <= k < after_turn(c, output, ts, status).logs.len() ==> (#[trigger] after_turn(c, output, ts, status).logs[k]).0
                == after_turn(c, output, ts, status).agents[k].name,
{
    let d = after_turn(c, output, ts, status);
    let i = c.logs.len() as int;
    assert(d.agents.len() == c.agents.len());
    assert(d.logs.subrange(0, c.logs.len() as int) =~= c.logs);
    assert forall|k: int| 0 <= k < d.logs.len() implies (#[trigger] d.logs[k]).0 == d.agents[k].name by {
        if k < c.logs.len() {
            assert(d.logs[k] == c.logs[k]);
            assert(d.agents[k] == c.agents[k]);
        } else {
            assert(k == i);
            assert(d.agents[i].name == c.agents[i].name);
        }
    }
}

/// A recorded turn grows the running agent's memory by exactly that one
/// turn, keeps its earlier turns as they were, and leaves every other
/// agent's memory alone.
pub proof fn lemma_memory_append_only(c: ChainView, output: Seq<char>, ts: u64, status: TurnStatus)
    requires
        chain_wf(c),
        c.phase is Running,
    ensures
        ({
            let d = after_turn(c, output, ts, status);
            let i = c.logs.len() as int;
            &&& d.agents.len() == c.agents.len()
            &&& d.agents[i].memory.len() == c.agents[i].memory.len() + 1
            &&& d.agents[i].memory.subrange(0, c.agents[i].memory.len() as int) == c.agents[i].memory
            &&& d.agents[i].memory.last() == (c.pending, output, ts, status)
            &&& forall|k: int| 0 <= k < c.agents.len() && k != i ==> (#[trigger] d.agents[k]).memory == c.agents[k].memory
        }),
{
    let d = after_turn(c, output, ts, status);
    let i = c.logs.len() as int;
    assert(d.agents[i].memory.subrange(0, c.agents[i].memory.len() as int) =~= c.agents[i].memory);
}

/// A cancelled chain runs no further agent: it records the cancelled agent
/// with its partial output as the last log entry, and no later report
/// changes it.
pub proof fn lemma_cancel_stops(
    c: ChainView,
    partial: Seq<char>,
    ts: u64,
    output: Seq<char>,
    ts2: u64,
    status: TurnStatus,
)
    requires
        chain_wf(c),
        c.phase is Running,
    ensures
        ({
            let d = after_turn(c, partial, ts, TurnStatus::Cancelled);
            &&& d.phase is Cancelled
            &&& d.logs.last() == (c.agents[c.logs.len() as int].name, c.pending, partial, ts, TurnStatus::Cancelled)
            &&& after_turn(d, output, ts2, status) == d
        }),
{
}

/// A chain of agents, run once.
pub struct Chain {
    agents: Vec<Agent>,
    logs: Vec<LogEntry>,
    phase: ChainPhase,
    pending: String,
}

impl View for Chain {
    type V = ChainView;

    closed spec fn view(&self) -> ChainView {
        ChainView {
            agents: agent_views(self.agents@),
            logs: log_views(self.logs@),
            phase: self.phase,
            pending: self.pending@,
        }
    }
}

impl Chain {
    pub open spec fn wf(&self) -> bool {
        chain_wf(self@)
    }

    /// A chain with no agents, not started.
    pub fn new() -> (r: Self)
        ensures
            r.wf(),
            r@.agents.len() == 0,
            r@.phase == ChainPhase::NotStarted,
    {
        let r = Chain { agents: Vec::new(), logs: Vec::new(), phase: ChainPhase::NotStarted, pending: String::new() };
        assert(r@.logs =~= Seq::<LogView>::empty());
        assert(r@.agents =~= Seq::<AgentView>::empty());
        r
    }

    /// The chain with `agent` added last; a chain that has started keeps its agents.
    pub fn add_agent(self, agent: Agent) -> (r: Self)
        requires
            self.wf(),
        ensures
            r.wf(),
            self@.phase == ChainPhase::NotStarted ==> r@ == (ChainView { agents: self@.agents.push(agent@), ..self@ }),
            self@.phase != ChainPhase::NotStarted ==> r@ == self@,
    {
        if self.phase != ChainPhase::NotStarted {
            return self;
        }
        let mut c = self;
        let ghost before = c.agents@;
        c.agents.push(agent);
        assert(agent_views(c.agents@) =~= agent_views(before).push(c.agents@.last()@));
        c
    }

    /// Starts the run: the first agent is to run on an empty input, so on its
    /// own user prompt. A chain that has started before is not run again.
    pub fn run(&mut self) -> (r: Result<(), ChainError>)
        requires
            old(self).wf(),
        ensures
            final(self).wf(),
            old(self)@.phase != ChainPhase::NotStarted ==> r == Err::<(), ChainError>(ChainError::AlreadyRun)
                && final(self)@ == old(self)@,
            old(self)@.phase == ChainPhase::NotStarted ==> r is Ok && final(self)@ == (ChainView {
                phase: if old(self)@.agents.len() == 0 {
                    ChainPhase::Finished
                } else {
                    ChainPhase::Running { index: 0 }
                },
                ..old(self)@
            }),
    {
        if self.phase != ChainPhase::NotStarted {
            return Err(ChainError::AlreadyRun);
        }
        if self.agents.len() == 0 {
            self.phase = ChainPhase::Finished;
        } else {
            self.phase = ChainPhase::Running { index: 0 };
        }
        Ok(())
    }

    /// What is to run next: the running agent, with its system prompt and
    /// the input waiting for it (its own user prompt where that is empty).
    pub fn next_step(&self) -> (r: Step)
        requires
            self.wf(),
        ensures
            match self@.phase {
                ChainPhase::Running { index } => r matches Step::Run { index: i, system_prompt, user_prompt } && i == index
                    && system_prompt@ == self@.agents[index as int].system_prompt
                    && user_prompt@ == effective_prompt(self@.pending, self@.agents[index as int].user_prompt),
                _ => r is Done,
            },
    {
        match self.phase {
            ChainPhase::Running { index } => {
                let a = &self.agents[index];
                assert(self@.agents[index as int] == a@);
                let (system_prompt, user_prompt) = a.prompts(&self.pending);
                Step::Run { index, system_prompt, user_prompt }
            },
            _ => Step::Done,
        }
    }

    /// Records the end of the running agent's turn.
    fn record(&mut self, output: String, timestamp: u64, status: TurnStatus)
        requires
            old(self).wf(),
        ensures
            final(self).wf(),
            final(self)@ == after_turn(old(self)@, output@, timestamp, status),
    {
        match self.phase {
            ChainPhase::Running { index } => {
                // The number of agents fits in a `usize`, as the lemma asks.
                let _agent_count = self.agents.len();
                proof {
                    lemma_log_order(self@, output@, timestamp, status);
                }
                let ghost before = self.agents@;
                let ghost before_logs = self.logs@;
                let mut a = self.agents.remove(index);
                let input = self.pending.clone();
                a.record_turn(input, output.clone(), timestamp, status);
                let name = a.name().clone();
                let ghost a_view = a@;
                self.agents.insert(index, a);
                assert(self.agents@ =~= before.update(index as int, self.agents@[index as int]));
                assert(agent_views(self.agents@) =~= agent_views(before).update(index as int, a_view));
                self.logs.push(LogEntry { agent_name: name, input: self.pending.clone(), output: output.clone(), timestamp, status });
                assert(log_views(self.logs@) =~= log_views(before_logs).push(self.logs@.last()@));
                assert(index < self.agents.len());
                self.phase = match status {
                    TurnStatus::Completed => if index + 1 < self.agents.len() {
                        ChainPhase::Running { index: index + 1 }
                    } else {
                        ChainPhase::Finished
                    },
                    TurnStatus::Failed => ChainPhase::Failed { index },
                    TurnStatus::Cancelled => ChainPhase::Cancelled { index },
                };
                self.pending = output;
            },
            _ => {},
        }
    }

    /// The running agent's stream ended with `output`: the turn is recorded
    /// and the output becomes the next agent's input.
    pub fn agent_finished(&mut self, output: String, timestamp: u64)
        requires
            old(self).wf(),
        ensures
            final(self).wf(),
            final(self)@ == after_turn(old(self)@, output@, timestamp, TurnStatus::Completed),
    {
        self.record(output, timestamp, TurnStatus::Completed)
    }

    /// The running agent's stream broke off after `partial`: the turn is
    /// recorded as failed and the chain stops with the agent's index.
    pub fn agent_failed(&mut self, partial: String, cause: String, timestamp: u64) -> (r: Option<ChainError>)
        requires
            old(self).wf(),
        ensures
            final(self).wf(),
            final(self)@ == after_turn(old(self)@, partial@, timestamp, TurnStatus::Failed),
            match old(self)@.phase {
                ChainPhase::Running { index } => r matches Some(ChainError::AgentFailed { index: i, cause: c }) && i == index && c@ == cause@,
                _ => r is None,
            },
    {
        match self.phase {
            ChainPhase::Running { index } => {
                self.record(partial, timestamp, TurnStatus::Failed);
                Some(ChainError::AgentFailed { index, cause })
            },
            _ => None,
        }
    }

    /// Cancels the run while an agent runs, after it produced `partial`: the
    /// turn is recorded as cancelled and no further agent runs.
    pub fn cancel(&mut self, partial: String, timestamp: u64) -> (r: Option<ChainError>)
        requires
            old(self).wf(),
        ensures
            final(self).wf(),
            final(self)@ == after_turn(old(self)@, partial@, timestamp, TurnStatus::Cancelled),
            old(self)@.phase is Running ==> r == Some(ChainError::Cancelled),
            !(old(self)@.phase is Running) ==> r is None,
    {
        match self.phase {
            ChainPhase::Running { index: _ } => {
                self.record(partial, timestamp, TurnStatus::Cancelled);
                Some(ChainError::Cancelled)
            },
            _ => None,
        }
    }

    /// Where the chain stands.
    pub fn phase(&self) -> (r: ChainPhase)
        ensures
            r == self@.phase,
    {
        self.phase
    }

    /// The log of the turns taken, in order.
    pub fn memory_logs(&self) -> (r: &Vec<LogEntry>)
        ensures
            log_views(r@) == self@.logs,
    {
        &self.logs
    }

    /// The chain's agents, in order.
    pub fn agents(&self) -> (r: &Vec<Agent>)
        ensures
            agent_views(r@) == self@.agents,
    {
        &self.agents
    }
}

} // verus!
