//! Tests for the scheduler: merging command lists into the timeline.

use h2lang::expander::Command;
use h2lang::scheduler::Scheduler;

#[test]
fn test_single_agent() {
    let agents = vec![(0, vec![Command::Straight, Command::Right, Command::Left])];

    let timeline = Scheduler::schedule(&agents);

    assert_eq!(timeline.len(), 3);
    assert_eq!(timeline[0].agent_commands.len(), 1);
    assert_eq!(timeline[0].agent_commands[0].agent_id, 0);
    assert_eq!(timeline[0].agent_commands[0].command, Command::Straight);
}

#[test]
fn test_multiple_agents_same_length() {
    let agents = vec![
        (0, vec![Command::Straight, Command::Right]),
        (1, vec![Command::Left, Command::Straight]),
    ];

    let timeline = Scheduler::schedule(&agents);

    assert_eq!(timeline.len(), 2);
    assert_eq!(timeline[0].agent_commands.len(), 2);
    assert_eq!(timeline[1].agent_commands.len(), 2);
}

#[test]
fn test_multiple_agents_different_length() {
    let agents = vec![
        (0, vec![Command::Straight, Command::Right, Command::Left]),
        (1, vec![Command::Left]),
    ];

    let timeline = Scheduler::schedule(&agents);

    assert_eq!(timeline.len(), 3);
    assert_eq!(timeline[0].agent_commands.len(), 2);
    assert_eq!(timeline[1].agent_commands.len(), 1);
    assert_eq!(timeline[2].agent_commands.len(), 1);
}

#[test]
fn test_empty_agents() {
    let agents: Vec<(u32, Vec<Command>)> = vec![];
    let timeline = Scheduler::schedule(&agents);
    assert!(timeline.is_empty());
}

#[test]
fn test_max_steps() {
    let agents = vec![
        (0, vec![Command::Straight, Command::Right, Command::Left]),
        (1, vec![Command::Left]),
    ];

    assert_eq!(Scheduler::max_steps(&agents), 3);
}
