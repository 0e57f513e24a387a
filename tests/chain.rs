use pyano::agent::{AgentBuilder, TurnStatus};
use pyano::chain::{Chain, ChainError, ChainPhase, Step};

fn agent(name: &str, system: &str, user: &str) -> pyano::agent::Agent {
    AgentBuilder::new()
        .with_name(name.to_string())
        .with_system_prompt(system.to_string())
        .with_user_prompt(user.to_string())
        .with_stream(true)
        .with_llm("M".to_string())
        .build()
}

fn two_agents() -> Chain {
    Chain::new()
        .add_agent(agent("A", "ask intellectual questions about X", "Generate a question"))
        .add_agent(agent("B", "answer about paper Y", "Reply to the question"))
}

#[test]
fn two_agent_chain_logs_in_order() {
    let mut chain = two_agents();
    chain.run().unwrap();
    match chain.next_step() {
        Step::Run { index, system_prompt, user_prompt } => {
            assert_eq!(index, 0);
            assert_eq!(system_prompt, "ask intellectual questions about X");
            assert_eq!(user_prompt, "Generate a question");
        }
        Step::Done => panic!("agent A should run"),
    }
    chain.agent_finished("What is X?".to_string(), 1);
    match chain.next_step() {
        Step::Run { index, system_prompt, user_prompt } => {
            assert_eq!(index, 1);
            assert_eq!(system_prompt, "answer about paper Y");
            assert_eq!(user_prompt, "What is X?");
        }
        Step::Done => panic!("agent B should run"),
    }
    chain.agent_finished("X is Y.".to_string(), 2);
    assert!(matches!(chain.next_step(), Step::Done));
    assert_eq!(chain.phase(), ChainPhase::Finished);
    let logs = chain.memory_logs();
    assert_eq!(logs.len(), 2);
    assert_eq!(logs[0].agent_name, "A");
    assert_eq!(logs[0].input, "");
    assert_eq!(logs[0].output, "What is X?");
    assert_eq!(logs[1].agent_name, "B");
    assert_eq!(logs[1].input, "What is X?");
    assert_eq!(logs[1].output, "X is Y.");
    assert_eq!(chain.agents()[1].memory().len(), 1);
}

#[test]
fn failing_first_agent_stops_the_chain() {
    let mut chain = two_agents();
    chain.run().unwrap();
    let e = chain.agent_failed("Half a quest".to_string(), "stream broke".to_string(), 5);
    assert_eq!(e, Some(ChainError::AgentFailed { index: 0, cause: "stream broke".to_string() }));
    let logs = chain.memory_logs();
    assert_eq!(logs.len(), 1);
    assert_eq!(logs[0].agent_name, "A");
    assert_eq!(logs[0].output, "Half a quest");
    assert_eq!(logs[0].status, TurnStatus::Failed);
    assert!(matches!(chain.next_step(), Step::Done));
    assert_eq!(chain.phase(), ChainPhase::Failed { index: 0 });
    assert_eq!(chain.agents()[1].memory().len(), 0);
}

#[test]
fn cancelled_chain_runs_no_further_agent() {
    let mut chain = two_agents();
    chain.run().unwrap();
    chain.agent_finished("Q".to_string(), 1);
    assert_eq!(chain.cancel("Partial ans".to_string(), 2), Some(ChainError::Cancelled));
    assert!(matches!(chain.next_step(), Step::Done));
    chain.agent_finished("late".to_string(), 3);
    let logs = chain.memory_logs();
    assert_eq!(logs.len(), 2);
    assert_eq!(logs[1].agent_name, "B");
    assert_eq!(logs[1].output, "Partial ans");
    assert_eq!(logs[1].status, TurnStatus::Cancelled);
    assert_eq!(chain.cancel("again".to_string(), 4), None);
}

#[test]
fn chain_runs_once() {
    let mut chain = two_agents();
    assert_eq!(chain.run(), Ok(()));
    assert_eq!(chain.run(), Err(ChainError::AlreadyRun));
}

#[test]
fn empty_chain_finishes_at_once() {
    let mut chain = Chain::new();
    chain.run().unwrap();
    assert_eq!(chain.phase(), ChainPhase::Finished);
    assert!(chain.memory_logs().is_empty());
}

#[test]
fn started_chain_takes_no_new_agent() {
    let mut chain = two_agents();
    chain.run().unwrap();
    let chain = chain.add_agent(agent("C", "s", "u"));
    assert_eq!(chain.agents().len(), 2);
}

#[test]
fn agent_memory_grows_by_one_turn() {
    let mut a = agent("A", "sys", "default");
    a.record_turn("in".to_string(), "out".to_string(), 7, TurnStatus::Completed);
    a.record_turn("in2".to_string(), "out2".to_string(), 8, TurnStatus::Completed);
    assert_eq!(a.memory().len(), 2);
    assert_eq!(a.memory()[0].output, "out");
    assert_eq!(a.memory()[1].input, "in2");
    assert_eq!(a.memory()[1].timestamp, 8);
}

#[test]
fn empty_input_uses_default_prompt() {
    let a = agent("A", "sys", "default");
    let (s, u) = a.prompts(&String::new());
    assert_eq!(s, "sys");
    assert_eq!(u, "default");
    let (_, u2) = a.prompts(&"given".to_string());
    assert_eq!(u2, "given");
    assert_eq!(a.name(), "A");
    assert_eq!(a.llm(), "M");
    assert!(a.stream());
}
