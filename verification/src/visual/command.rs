//! Shell input and GPU picks, decoded into one command language.
use vstd::prelude::*;

verus! {

/// A visual object's identity: shared by every panel that draws the object.
#[derive(Debug, Clone, Copy, PartialEq, Eq, PartialOrd, Ord, Hash, Structural)]
pub struct VisualObjectId(pub u64);

/// The commands that reach the selection reducer.
#[derive(Debug, Clone, Copy, PartialEq, Eq, Structural)]
pub enum DomainCommand {
    SelectObject(VisualObjectId),
    FocusProvenance(VisualObjectId),
    FollowTarget(VisualObjectId),
    OpenSource(VisualObjectId),
    ClearSelection,
}

/// Input from the ordinary shell UI.
#[derive(Debug, Clone, Copy, PartialEq, Eq, Structural)]
pub enum ShellInput {
    Select(VisualObjectId),
    FocusProvenance(VisualObjectId),
    FollowTarget(VisualObjectId),
    OpenSource(VisualObjectId),
    Clear,
}

/// A proposal from the GPU picking pass.
#[derive(Debug, Clone, Copy, PartialEq, Eq, Structural)]
pub enum GpuPickInput {
    Hit(VisualObjectId),
    FocusProvenance(VisualObjectId),
    FollowTarget(VisualObjectId),
    OpenSource(VisualObjectId),
    Miss,
}

pub open spec fn shell_command(input: ShellInput) -> DomainCommand {
    match input {
        ShellInput::Select(id) => DomainCommand::SelectObject(id),
        ShellInput::FocusProvenance(id) => DomainCommand::FocusProvenance(id),
        ShellInput::FollowTarget(id) => DomainCommand::FollowTarget(id),
        ShellInput::OpenSource(id) => DomainCommand::OpenSource(id),
        ShellInput::Clear => DomainCommand::ClearSelection,
    }
}

pub open spec fn gpu_command(input: GpuPickInput) -> DomainCommand {
    match input {
        GpuPickInput::Hit(id) => DomainCommand::SelectObject(id),
        GpuPickInput::FocusProvenance(id) => DomainCommand::FocusProvenance(id),
        GpuPickInput::FollowTarget(id) => DomainCommand::FollowTarget(id),
        GpuPickInput::OpenSource(id) => DomainCommand::OpenSource(id),
        GpuPickInput::Miss => DomainCommand::ClearSelection,
    }
}

/// The GPU input that expresses the same intent as a shell input.
pub open spec fn gpu_counterpart(input: ShellInput) -> GpuPickInput {
    match input {
        ShellInput::Select(id) => GpuPickInput::Hit(id),
        ShellInput::FocusProvenance(id) => GpuPickInput::FocusProvenance(id),
        ShellInput::FollowTarget(id) => GpuPickInput::FollowTarget(id),
        ShellInput::OpenSource(id) => GpuPickInput::OpenSource(id),
        ShellInput::Clear => GpuPickInput::Miss,
    }
}

pub fn decode_shell(input: ShellInput) -> (c: DomainCommand)
    ensures
        c == shell_command(input),
{
    match input {
        ShellInput::Select(id) => DomainCommand::SelectObject(id),
        ShellInput::FocusProvenance(id) => DomainCommand::FocusProvenance(id),
        ShellInput::FollowTarget(id) => DomainCommand::FollowTarget(id),
        ShellInput::OpenSource(id) => DomainCommand::OpenSource(id),
        ShellInput::Clear => DomainCommand::ClearSelection,
    }
}

pub fn decode_gpu(input: GpuPickInput) -> (c: DomainCommand)
    ensures
        c == gpu_command(input),
{
    match input {
        GpuPickInput::Hit(id) => DomainCommand::SelectObject(id),
        GpuPickInput::FocusProvenance(id) => DomainCommand::FocusProvenance(id),
        GpuPickInput::FollowTarget(id) => DomainCommand::FollowTarget(id),
        GpuPickInput::OpenSource(id) => DomainCommand::OpenSource(id),
        GpuPickInput::Miss => DomainCommand::ClearSelection,
    }
}

/// Shell input and its GPU counterpart decode to the same command, and that
/// pairing is one to one: no shell input has two GPU counterparts and every
/// GPU input is the counterpart of exactly one shell input.
pub proof fn lemma_shell_gpu_decode_parity(s: ShellInput, g: GpuPickInput)
    ensures
        shell_command(s) == gpu_command(gpu_counterpart(s)),
        (gpu_command(g) == shell_command(s)) <==> (g == gpu_counterpart(s)),
{
}

/// Each command language is faithful: distinct inputs decode to distinct
/// commands, and every command comes from some shell input and some GPU input.
pub proof fn lemma_decoders_are_bijective(a: ShellInput, b: ShellInput, c: DomainCommand)
    ensures
        shell_command(a) == shell_command(b) ==> a == b,
        gpu_command(gpu_counterpart(a)) == gpu_command(gpu_counterpart(b)) ==> a == b,
        exists|s: ShellInput| shell_command(s) == c,
        exists|g: GpuPickInput| gpu_command(g) == c,
{
    match c {
        DomainCommand::SelectObject(id) => {
            assert(shell_command(ShellInput::Select(id)) == c);
            assert(gpu_command(GpuPickInput::Hit(id)) == c);
        },
        DomainCommand::FocusProvenance(id) => {
            assert(shell_command(ShellInput::FocusProvenance(id)) == c);
            assert(gpu_command(GpuPickInput::FocusProvenance(id)) == c);
        },
        DomainCommand::FollowTarget(id) => {
            assert(shell_command(ShellInput::FollowTarget(id)) == c);
            assert(gpu_command(GpuPickInput::FollowTarget(id)) == c);
        },
        DomainCommand::OpenSource(id) => {
            assert(shell_command(ShellInput::OpenSource(id)) == c);
            assert(gpu_command(GpuPickInput::OpenSource(id)) == c);
        },
        DomainCommand::ClearSelection => {
            assert(shell_command(ShellInput::Clear) == c);
            assert(gpu_command(GpuPickInput::Miss) == c);
        },
    }
}

} // verus!
