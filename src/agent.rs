//! Agents: a prompt template bound to a model, with a memory of the turns
//! it has taken.
use vstd::prelude::*;

verus! {

/// How a turn ended.
#[derive(Debug, Clone, Copy, PartialEq, Eq, Structural)]
pub enum TurnStatus {
    /// The model's stream ended normally.
    Completed,
    /// The stream broke off with an error; the output is what came before it.
    Failed,
    /// The turn was cancelled; the output is what came before it.
    Cancelled,
}

/// One turn of an agent: what it was given, what it answered, and when.
pub struct Turn {
    pub input: String,
    pub output: String,
    pub timestamp: u64,
    pub status: TurnStatus,
}

/// A turn as seen in contracts.
pub type TurnView = (Seq<char>, Seq<char>, u64, TurnStatus);

impl View for Turn {
    type V = TurnView;

    open spec fn view(&self) -> TurnView {
        (self.input@, self.output@, self.timestamp, self.status)
    }
}

pub open spec fn turn_views(v: Seq<Turn>) -> Seq<TurnView> {
    v.map_values(|t: Turn| t@)
}

/// The user prompt of a turn: the input handed in, or the agent's own
/// default where the input is empty.
pub open spec fn effective_prompt(input: Seq<char>, default: Seq<char>) -> Seq<char> {
    if input.len() == 0 {
        default
    } else {
        input
    }
}

/// An agent as seen in contracts.
pub struct AgentView {
    pub name: Seq<char>,
    pub system_prompt: Seq<char>,
    pub user_prompt: Seq<char>,
    pub stream: bool,
    pub llm: Seq<char>,
    pub memory: Seq<TurnView>,
}

/// A prompt-driven agent over one model, named by `llm`.
pub struct Agent {
    name: String,
    system_prompt: String,
    user_prompt: String,
    stream: bool,
    llm: String,
    memory: Vec<Turn>,
}

impl View for Agent {
    type V = AgentView;

    closed spec fn view(&self) -> AgentView {
        AgentView {
            name: self.name@,
            system_prompt: self.system_prompt@,
            user_prompt: self.user_prompt@,
            stream: self.stream,
            llm: self.llm@,
            memory: turn_views(self.memory@),
        }
    }
}

impl Agent {
    /// The agent's name, as used in chain logs.
    pub fn name(&self) -> (r: &String)
        ensures
            r@ == self@.name,
    {
        &self.name
    }

    /// The name of the model the agent runs on.
    pub fn llm(&self) -> (r: &String)
        ensures
            r@ == self@.llm,
    {
        &self.llm
    }

    /// Whether the agent's output is streamed.
    pub fn stream(&self) -> (r: bool)
        ensures
            r == self@.stream,
    {
        self.stream
    }

    /// The turns the agent has taken, oldest first.
    pub fn memory(&self) -> (r: &Vec<Turn>)
        ensures
            turn_views(r@) == self@.memory,
    {
        &self.memory
    }

    /// The system prompt and the user prompt of a turn on `input`.
    pub fn prompts(&self, input: &String) -> (r: (String, String))
        ensures
            r.0@ == self@.system_prompt,
            r.1@ == effective_prompt(input@, self@.user_prompt),
    {
        let user = if input.as_str().is_empty() {
            self.user_prompt.clone()
        } else {
            input.clone()
        };
        (self.system_prompt.clone(), user)
    }

    /// Appends a turn to the agent's memory; earlier turns stay as they were.
    pub fn record_turn(&mut self, input: String, output: String, timestamp: u64, status: TurnStatus)
        ensures
            final(self)@ == (AgentView {
                memory: old(self)@.memory.push((input@, output@, timestamp, status)),
                ..old(self)@
            }),
    {
        let ghost before = self.memory@;
        self.memory.push(Turn { input, output, timestamp, status });
        assert(turn_views(self.memory@) =~= turn_views(before).push((input@, output@, timestamp, status)));
    }
}

/// Builds an agent option by option.
pub struct AgentBuilder {
    name: String,
    system_prompt: String,
    user_prompt: String,
    stream: bool,
    llm: String,
}

impl AgentBuilder {
    pub closed spec fn spec_agent(&self) -> AgentView {
        AgentView {
            name: self.name@,
            system_prompt: self.system_prompt@,
            user_prompt: self.user_prompt@,
            stream: self.stream,
            llm: self.llm@,
            memory: Seq::empty(),
        }
    }

    /// A builder with empty texts and streaming off.
    pub fn new() -> (r: Self)
        ensures
            r.spec_agent() == (AgentView {
                name: Seq::empty(),
                system_prompt: Seq::empty(),
                user_prompt: Seq::empty(),
                stream: false,
                llm: Seq::empty(),
                memory: Seq::empty(),
            }),
    {
        let r = AgentBuilder {
            name: String::new(),
            system_prompt: String::new(),
            user_prompt: String::new(),
            stream: false,
            llm: String::new(),
        };
        assert(r.spec_agent().name =~= Seq::<char>::empty());
        r
    }

    pub fn with_name(self, name: String) -> (r: Self)
        ensures
            r.spec_agent() == (AgentView { name: name@, ..self.spec_agent() }),
    {
        AgentBuilder { name, ..self }
    }

    pub fn with_system_prompt(self, system_prompt: String) -> (r: Self)
        ensures
            r.spec_agent() == (AgentView { system_prompt: system_prompt@, ..self.spec_agent() }),
    {
        AgentBuilder { system_prompt, ..self }
    }

    pub fn with_user_prompt(self, user_prompt: String) -> (r: Self)
        ensures
            r.spec_agent() == (AgentView { user_prompt: user_prompt@, ..self.spec_agent() }),
    {
        AgentBuilder { user_prompt, ..self }
    }

    pub fn with_stream(self, stream: bool) -> (r: Self)
        ensures
            r.spec_agent() == (AgentView { stream, ..self.spec_agent() }),
    {
        AgentBuilder { stream, ..self }
    }

    pub fn with_llm(self, llm: String) -> (r: Self)
        ensures
            r.spec_agent() == (AgentView { llm: llm@, ..self.spec_agent() }),
    {
        AgentBuilder { llm, ..self }
    }

    /// The agent with the options given, and an empty memory.
    pub fn build(self) -> (r: Agent)
        ensures
            r@ == self.spec_agent(),
    {
        let r = Agent {
            name: self.name,
            system_prompt: self.system_prompt,
            user_prompt: self.user_prompt,
            stream: self.stream,
            llm: self.llm,
            memory: Vec::new(),
        };
        assert(r@.memory =~= Seq::<TurnView>::empty());
        r
    }
}

} // verus!
