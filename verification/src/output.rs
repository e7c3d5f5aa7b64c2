//! Output data structures: the compiled program handed to callers, with
//! per-agent command lists and the execution timeline.

use vstd::prelude::*;

use crate::error::CompileError;
use crate::error::SpecError;
use crate::expander::Command;
use crate::scheduler::{SpecTimelineStep, TimelineStep};

verus! {

/// Command type in the output layer.
#[derive(Debug, Clone, Copy, PartialEq, Eq, Structural)]
pub enum CommandType {
    /// Move straight (forward).
    Straight,
    /// Rotate right.
    RotateRight,
    /// Rotate left.
    RotateLeft,
    /// Wait: no command at this step.
    Wait,
}

impl CommandType {
    /// The output command type for an expanded command.
    pub fn from_command(cmd: Command) -> (r: CommandType)
        ensures
            r == spec_command_type(cmd),
    {
        match cmd {
            Command::Straight => CommandType::Straight,
            Command::Right => CommandType::RotateRight,
            Command::Left => CommandType::RotateLeft,
        }
    }
}

/// The output command type an expanded command maps to.
pub open spec fn spec_command_type(cmd: Command) -> CommandType {
    match cmd {
        Command::Straight => CommandType::Straight,
        Command::Right => CommandType::RotateRight,
        Command::Left => CommandType::RotateLeft,
    }
}

/// An output command with its movement parameters.
#[derive(Debug, Clone, Copy, PartialEq, Eq)]
pub struct ToioCommand {
    /// Command type.
    pub command_type: CommandType,
    /// Steps of straight movement (straight commands only).
    pub steps: Option<u32>,
    /// Rotation angle in degrees (rotation commands only).
    pub angle: Option<i32>,
}

/// The output command for an expanded command: one step forward, or a
/// quarter turn right (90) or left (-90).
pub open spec fn spec_toio(cmd: Command) -> ToioCommand {
    match cmd {
        Command::Straight => ToioCommand {
            command_type: CommandType::Straight,
            steps: Some(1u32),
            angle: None,
        },
        Command::Right => ToioCommand {
            command_type: CommandType::RotateRight,
            steps: None,
            angle: Some(90i32),
        },
        Command::Left => ToioCommand {
            command_type: CommandType::RotateLeft,
            steps: None,
            angle: Some(-90i32),
        },
    }
}

impl ToioCommand {
    /// A one-step straight movement.
    pub fn straight() -> (r: ToioCommand)
        ensures
            r == spec_toio(Command::Straight),
    {
        ToioCommand { command_type: CommandType::Straight, steps: Some(1), angle: None }
    }

    /// A quarter turn clockwise.
    pub fn rotate_right() -> (r: ToioCommand)
        ensures
            r == spec_toio(Command::Right),
    {
        ToioCommand { command_type: CommandType::RotateRight, steps: None, angle: Some(90) }
    }

    /// A quarter turn counter-clockwise.
    pub fn rotate_left() -> (r: ToioCommand)
        ensures
            r == spec_toio(Command::Left),
    {
        ToioCommand { command_type: CommandType::RotateLeft, steps: None, angle: Some(-90) }
    }

    /// A wait entry (no command this step).
    pub fn wait() -> (r: ToioCommand)
        ensures
            r == (ToioCommand { command_type: CommandType::Wait, steps: None, angle: None }),
    {
        ToioCommand { command_type: CommandType::Wait, steps: None, angle: None }
    }

    /// The output command for an expanded command.
    pub fn from_command(cmd: Command) -> (r: ToioCommand)
        ensures
            r == spec_toio(cmd),
    {
        match cmd {
            Command::Straight => Self::straight(),
            Command::Right => Self::rotate_right(),
            Command::Left => Self::rotate_left(),
        }
    }
}

/// A compiled agent: its ID and its full command list.
#[derive(Debug, Clone)]
pub struct CompiledAgent {
    /// Agent ID.
    pub id: u32,
    /// The agent's commands, in execution order.
    pub commands: Vec<ToioCommand>,
}

/// Spec-level mirror of [`CompiledAgent`].
pub struct SpecCompiledAgent {
    /// Agent ID.
    pub id: u32,
    /// The agent's commands.
    pub commands: Seq<ToioCommand>,
}

impl View for CompiledAgent {
    type V = SpecCompiledAgent;

    open spec fn view(&self) -> SpecCompiledAgent {
        SpecCompiledAgent { id: self.id, commands: self.commands@ }
    }
}

/// An agent's command inside one timeline entry.
#[derive(Debug, Clone, Copy, PartialEq, Eq)]
pub struct AgentTimelineCommand {
    /// Agent ID.
    pub agent_id: u32,
    /// The command this agent executes at this step.
    pub command: ToioCommand,
}

/// One timeline entry of the output layer.
#[derive(Debug, Clone)]
pub struct TimelineEntry {
    /// Step number (0-based).
    pub step: usize,
    /// Commands of all agents at this step.
    pub agent_commands: Vec<AgentTimelineCommand>,
}

/// Spec-level mirror of [`TimelineEntry`].
pub struct SpecTimelineEntry {
    /// Step number (0-based).
    pub step: int,
    /// Commands of all agents at this step.
    pub agent_commands: Seq<AgentTimelineCommand>,
}

impl View for TimelineEntry {
    type V = SpecTimelineEntry;

    open spec fn view(&self) -> SpecTimelineEntry {
        SpecTimelineEntry { step: self.step as int, agent_commands: self.agent_commands@ }
    }
}

/// The compiled program: all agents and the execution timeline.
#[derive(Debug, Clone)]
pub struct CompiledProgram {
    /// The compiled agents, in source order.
    pub agents: Vec<CompiledAgent>,
    /// Number of timeline steps.
    pub max_steps: usize,
    /// The execution timeline.
    pub timeline: Vec<TimelineEntry>,
}

/// Spec-level mirror of [`CompiledProgram`].
pub struct SpecCompiledProgram {
    /// The compiled agents.
    pub agents: Seq<SpecCompiledAgent>,
    /// Number of timeline steps.
    pub max_steps: int,
    /// The execution timeline.
    pub timeline: Seq<SpecTimelineEntry>,
}

impl View for CompiledProgram {
    type V = SpecCompiledProgram;

    open spec fn view(&self) -> SpecCompiledProgram {
        SpecCompiledProgram {
            agents: Seq::new(self.agents@.len(), |i: int| self.agents@[i]@),
            max_steps: self.max_steps as int,
            timeline: Seq::new(self.timeline@.len(), |i: int| self.timeline@[i]@),
        }
    }
}

/// The output commands of a whole command sequence.
pub open spec fn toio_of(cmds: Seq<Command>) -> Seq<ToioCommand> {
    Seq::new(cmds.len(), |i: int| spec_toio(cmds[i]))
}

/// The output form of one scheduler timeline step.
pub open spec fn entry_of(ts: SpecTimelineStep) -> SpecTimelineEntry {
    SpecTimelineEntry {
        step: ts.step,
        agent_commands: Seq::new(
            ts.agent_commands.len(),
            |j: int| AgentTimelineCommand {
                agent_id: ts.agent_commands[j].agent_id,
                command: spec_toio(ts.agent_commands[j].command),
            },
        ),
    }
}

/// The compiled program built from the expanded agents and the
/// scheduler's timeline.
pub open spec fn spec_from_expanded(
    ex: Seq<(u32, Seq<Command>)>,
    tl: Seq<SpecTimelineStep>,
) -> SpecCompiledProgram {
    SpecCompiledProgram {
        agents: Seq::new(
            ex.len(),
            |i: int| SpecCompiledAgent { id: ex[i].0, commands: toio_of(ex[i].1) },
        ),
        max_steps: tl.len() as int,
        timeline: Seq::new(tl.len(), |i: int| entry_of(tl[i])),
    }
}

impl CompiledProgram {
    /// Builds the output program from the expanded agents and timeline:
    /// exactly what [`spec_from_expanded`] says.
    pub fn from_expanded(expanded: &[(u32, Vec<Command>)], timeline: Vec<TimelineStep>) -> (r:
        CompiledProgram)
        ensures
            r@ == spec_from_expanded(
                crate::scheduler::agents_view(expanded@),
                Seq::new(timeline@.len(), |i: int| timeline@[i]@),
            ),
    {
        let ghost ex = crate::scheduler::agents_view(expanded@);
        let ghost tlv = Seq::new(timeline@.len(), |i: int| timeline@[i]@);
        let n = expanded.len();
        let mut agents: Vec<CompiledAgent> = Vec::new();
        let mut k: usize = 0;
        while k < n
            invariant
                n == expanded@.len(),
                ex == crate::scheduler::agents_view(expanded@),
                k <= n,
                agents@.len() == k,
                forall|i: int| 0 <= i < k ==> (#[trigger] agents@[i])@ == (SpecCompiledAgent {
                    id: ex[i].0,
                    commands: toio_of(ex[i].1),
                }),
            decreases n - k,
        {
            let cmds = &expanded[k].1;
            let m = cmds.len();
            let mut out: Vec<ToioCommand> = Vec::new();
            let mut j: usize = 0;
            while j < m
                invariant
                    m == cmds@.len(),
                    j <= m,
                    out@.len() == j,
                    forall|i: int| 0 <= i < j ==> out@[i] == spec_toio(cmds@[i]),
                decreases m - j,
            {
                out.push(ToioCommand::from_command(cmds[j]));
                j = j + 1;
            }
            proof {
                assert(out@ =~= toio_of(ex[k as int].1));
            }
            agents.push(CompiledAgent { id: expanded[k].0, commands: out });
            k = k + 1;
        }
        let steps = timeline.len();
        let mut entries: Vec<TimelineEntry> = Vec::new();
        let mut k2: usize = 0;
        while k2 < steps
            invariant
                steps == timeline@.len(),
                tlv == Seq::new(timeline@.len(), |i: int| timeline@[i]@),
                k2 <= steps,
                entries@.len() == k2,
                forall|i: int| 0 <= i < k2 ==> (#[trigger] entries@[i])@ == entry_of(tlv[i]),
            decreases steps - k2,
        {
            let ts = &timeline[k2];
            let m = ts.agent_commands.len();
            let mut acs: Vec<AgentTimelineCommand> = Vec::new();
            let mut j: usize = 0;
            while j < m
                invariant
                    m == ts.agent_commands@.len(),
                    j <= m,
                    acs@.len() == j,
                    forall|i: int| 0 <= i < j ==> acs@[i] == (AgentTimelineCommand {
                        agent_id: ts.agent_commands@[i].agent_id,
                        command: spec_toio(ts.agent_commands@[i].command),
                    }),
                decreases m - j,
            {
                let ac = ts.agent_commands[j];
                acs.push(
                    AgentTimelineCommand {
                        agent_id: ac.agent_id,
                        command: ToioCommand::from_command(ac.command),
                    },
                );
                j = j + 1;
            }
            let entry = TimelineEntry { step: ts.step, agent_commands: acs };
            proof {
                assert(entry@.agent_commands =~= entry_of(tlv[k2 as int]).agent_commands);
            }
            entries.push(entry);
            k2 = k2 + 1;
        }
        let r = CompiledProgram { agents, max_steps: steps, timeline: entries };
        proof {
            assert(r@.agents =~= spec_from_expanded(ex, tlv).agents);
            assert(r@.timeline =~= spec_from_expanded(ex, tlv).timeline);
        }
        r
    }
}

/// The result of compiling a whole source text.
#[derive(Debug, Clone)]
pub enum CompileResult {
    /// Successful compilation.
    Success {
        /// The compiled program.
        program: CompiledProgram,
    },
    /// Compilation failed.
    Error {
        /// The errors, in the order found (compilation stops at the first).
        errors: Vec<CompileError>,
    },
}

/// Spec-level mirror of [`CompileResult`].
pub enum SpecCompileResult {
    /// Successful compilation.
    Success(SpecCompiledProgram),
    /// Compilation failed with the given errors.
    Error(Seq<SpecError>),
}

impl View for CompileResult {
    type V = SpecCompileResult;

    open spec fn view(&self) -> SpecCompileResult {
        match self {
            CompileResult::Success { program } => SpecCompileResult::Success(program@),
            CompileResult::Error { errors } => SpecCompileResult::Error(
                Seq::new(errors@.len(), |i: int| errors@[i]@),
            ),
        }
    }
}

} // verus!
