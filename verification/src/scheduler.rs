//! Scheduler: merges each agent's command list into a step-indexed
//! lock-step timeline.
//!
//! Scheduling is a pure function of the input lists, specified by
//! [`spec_schedule`]; agents whose list is shorter than the longest one
//! simply have no entry at the later steps.

use vstd::prelude::*;

use crate::expander::Command;

verus! {

/// A command for a specific agent at a specific step.
#[derive(Debug, Clone, Copy, PartialEq, Eq, Structural)]
pub struct AgentCommand {
    /// Agent ID.
    pub agent_id: u32,
    /// Command to execute.
    pub command: Command,
}

/// One step of the timeline: every agent's command at this step.
#[derive(Debug, Clone)]
pub struct TimelineStep {
    /// Step number (0-based).
    pub step: usize,
    /// Commands of all agents that still run at this step, in input order.
    pub agent_commands: Vec<AgentCommand>,
}

/// Spec-level mirror of [`TimelineStep`].
pub struct SpecTimelineStep {
    /// Step number (0-based).
    pub step: int,
    /// Commands of all agents that still run at this step.
    pub agent_commands: Seq<AgentCommand>,
}

impl View for TimelineStep {
    type V = SpecTimelineStep;

    open spec fn view(&self) -> SpecTimelineStep {
        SpecTimelineStep { step: self.step as int, agent_commands: self.agent_commands@ }
    }
}

/// The deep view of the scheduler's input: each agent's ID and command
/// sequence.
pub open spec fn agents_view(s: Seq<(u32, Vec<Command>)>) -> Seq<(u32, Seq<Command>)> {
    Seq::new(s.len(), |i: int| (s[i].0, s[i].1@))
}

/// The longest command list among the first `k` agents.
pub open spec fn max_len_of(ags: Seq<(u32, Seq<Command>)>, k: int) -> nat
    decreases k,
{
    if k <= 0 || k > ags.len() {
        0
    } else if ags[k - 1].1.len() > max_len_of(ags, k - 1) {
        ags[k - 1].1.len()
    } else {
        max_len_of(ags, k - 1)
    }
}

/// The number of timeline steps: the longest command list's length.
pub open spec fn spec_max_steps(ags: Seq<(u32, Seq<Command>)>) -> nat {
    max_len_of(ags, ags.len() as int)
}

/// The entries of one step, over the first `k` agents: each agent whose
/// list reaches `step` contributes its command, in input order.
pub open spec fn step_entries_of(ags: Seq<(u32, Seq<Command>)>, step: int, k: int) -> Seq<
    AgentCommand,
>
    decreases k,
{
    if k <= 0 || k > ags.len() {
        Seq::<AgentCommand>::empty()
    } else {
        step_entries_of(ags, step, k - 1) + (if 0 <= step < ags[k - 1].1.len() {
            seq![AgentCommand { agent_id: ags[k - 1].0, command: ags[k - 1].1[step] }]
        } else {
            Seq::<AgentCommand>::empty()
        })
    }
}

/// The entries of one step, over all agents.
pub open spec fn step_entries(ags: Seq<(u32, Seq<Command>)>, step: int) -> Seq<AgentCommand> {
    step_entries_of(ags, step, ags.len() as int)
}

/// The whole timeline: one entry for every step below the maximum.
pub open spec fn spec_schedule(ags: Seq<(u32, Seq<Command>)>) -> Seq<SpecTimelineStep> {
    Seq::new(
        spec_max_steps(ags),
        |i: int| SpecTimelineStep { step: i, agent_commands: step_entries(ags, i) },
    )
}

/// Law: the scheduler is a pure function of its input lists.  The
/// timeline has exactly `max_steps` entries; entry `i` carries step
/// index `i` and exactly the commands of the agents whose lists reach
/// step `i`; and equal inputs give equal timelines.
pub proof fn lemma_schedule_pure(ags: Seq<(u32, Seq<Command>)>)
    ensures
        spec_schedule(ags).len() == spec_max_steps(ags),
        forall|i: int| 0 <= i < spec_schedule(ags).len() ==> (#[trigger] spec_schedule(ags)[i]).step
            == i && spec_schedule(ags)[i].agent_commands == step_entries(ags, i),
{
}

/// Scheduler for the parallel execution of several agents.
pub struct Scheduler;

impl Scheduler {
    /// The longest command list among all agents.
    pub fn max_steps(agents: &[(u32, Vec<Command>)]) -> (r: usize)
        ensures
            r == spec_max_steps(agents_view(agents@)),
    {
        let ghost ags = agents_view(agents@);
        let n = agents.len();
        let mut best: usize = 0;
        let mut k: usize = 0;
        while k < n
            invariant
                n == agents@.len(),
                ags == agents_view(agents@),
                k <= n,
                best == max_len_of(ags, k as int),
            decreases n - k,
        {
            let len_k = agents[k].1.len();
            if len_k > best {
                best = len_k;
            }
            k = k + 1;
        }
        best
    }

    /// Merges the agents' command lists into a step-indexed timeline:
    /// exactly what [`spec_schedule`] says.
    pub fn schedule(agents: &[(u32, Vec<Command>)]) -> (r: Vec<TimelineStep>)
        ensures
            r@.len() == spec_max_steps(agents_view(agents@)),
            forall|i: int| 0 <= i < r@.len() ==> (#[trigger] r@[i])@ == spec_schedule(
                agents_view(agents@),
            )[i],
    {
        let ghost ags = agents_view(agents@);
        let max_len = Self::max_steps(agents);
        let n = agents.len();
        let mut timeline: Vec<TimelineStep> = Vec::new();
        let mut step: usize = 0;
        while step < max_len
            invariant
                n == agents@.len(),
                ags == agents_view(agents@),
                max_len == spec_max_steps(ags),
                step <= max_len,
                timeline@.len() == step,
                forall|i: int| 0 <= i < step ==> (#[trigger] timeline@[i])@ == spec_schedule(ags)[i],
            decreases max_len - step,
        {
            let mut entries: Vec<AgentCommand> = Vec::new();
            let mut k: usize = 0;
            while k < n
                invariant
                    n == agents@.len(),
                    ags == agents_view(agents@),
                    k <= n,
                    entries@ == step_entries_of(ags, step as int, k as int),
                decreases n - k,
            {
                let cmds = &agents[k].1;
                if step < cmds.len() {
                    entries.push(AgentCommand { agent_id: agents[k].0, command: cmds[step] });
                    proof {
                        assert(entries@ =~= step_entries_of(ags, step as int, k + 1));
                    }
                } else {
                    proof {
                        assert(entries@ =~= step_entries_of(ags, step as int, k + 1));
                    }
                }
                k = k + 1;
            }
            timeline.push(TimelineStep { step, agent_commands: entries });
            step = step + 1;
        }
        timeline
    }
}

} // verus!
