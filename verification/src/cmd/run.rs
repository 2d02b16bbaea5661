//! Deciding how a command line is run: which command, and how a pipeline is wired.
use vstd::prelude::*;
use crate::structs::SimpleCmd;
use crate::text::str_equals;
use crate::cmd::built_in_cmds::builtin_names;

verus! {

/// The commands the shell runs itself.
#[derive(Debug, Clone, Copy, PartialEq, Eq, Structural)]
pub enum Builtin {
    Cd,
    Echo,
    Type,
    Exit,
    Pwd,
    History,
}

/// How a command is run.
#[derive(Debug, Clone, Copy, PartialEq, Eq, Structural)]
pub enum CommandKind {
    /// There is no command: nothing runs, status 0.
    Empty,
    /// The shell runs it itself.
    Builtin(Builtin),
    /// An executable found on the search path runs it.
    External,
}

/// The builtin a name stands for.
pub open spec fn spec_builtin(name: Seq<char>) -> Option<Builtin> {
    if name == "cd"@ {
        Some(Builtin::Cd)
    } else if name == "echo"@ {
        Some(Builtin::Echo)
    } else if name == "type"@ {
        Some(Builtin::Type)
    } else if name == "exit"@ {
        Some(Builtin::Exit)
    } else if name == "pwd"@ {
        Some(Builtin::Pwd)
    } else if name == "history"@ {
        Some(Builtin::History)
    } else {
        None
    }
}

/// How `run_simplecmd` runs a command: nothing for an empty one, else by its first word.
pub open spec fn spec_command_kind(args: Seq<Seq<char>>) -> CommandKind {
    if args.len() == 0 {
        CommandKind::Empty
    } else {
        match spec_builtin(args[0]) {
            Some(b) => CommandKind::Builtin(b),
            None => CommandKind::External,
        }
    }
}

/// How a command is run.
pub fn command_kind(cmd: &SimpleCmd) -> (k: CommandKind)
    ensures
        k == spec_command_kind(cmd@.args),
{
    if cmd.args.len() == 0 {
        return CommandKind::Empty;
    }
    let name = cmd.args[0].as_str();
    assert(cmd@.args[0] == cmd.args@[0]@);
    if str_equals(name, "cd") {
        CommandKind::Builtin(Builtin::Cd)
    } else if str_equals(name, "echo") {
        CommandKind::Builtin(Builtin::Echo)
    } else if str_equals(name, "type") {
        CommandKind::Builtin(Builtin::Type)
    } else if str_equals(name, "exit") {
        CommandKind::Builtin(Builtin::Exit)
    } else if str_equals(name, "pwd") {
        CommandKind::Builtin(Builtin::Pwd)
    } else if str_equals(name, "history") {
        CommandKind::Builtin(Builtin::History)
    } else {
        CommandKind::External
    }
}

/// The names the shell runs itself are exactly those that `is_builtin` recognises.
pub proof fn law_builtin_names_agree(name: Seq<char>)
    ensures
        spec_builtin(name) is Some <==> builtin_names().contains(name),
{
    reveal_strlit("cd");
    reveal_strlit("echo");
    reveal_strlit("exit");
    reveal_strlit("type");
    reveal_strlit("pwd");
    reveal_strlit("history");
    let names = builtin_names();
    assert(names[0] =~= "cd"@);
    assert(names[1] =~= "echo"@);
    assert(names[2] =~= "exit"@);
    assert(names[3] =~= "type"@);
    assert(names[4] =~= "pwd"@);
    assert(names[5] =~= "history"@);
    if spec_builtin(name) is Some {
        if name == names[0] { assert(names.contains(name)); }
        else if name == names[1] { assert(names.contains(name)); }
        else if name == names[2] { assert(names.contains(name)); }
        else if name == names[3] { assert(names.contains(name)); }
        else if name == names[4] { assert(names.contains(name)); }
        else { assert(names.contains(name)); }
    }
}

/// Each builtin name runs the builtin of that name, whatever arguments follow it; any
/// other first word runs an external program, and no word runs nothing.
pub proof fn law_builtin_dispatch(args: Seq<Seq<char>>)
    ensures
        args.len() > 0 && args[0] == seq!['c', 'd'] ==> spec_command_kind(args) == CommandKind::Builtin(Builtin::Cd),
        args.len() > 0 && args[0] == seq!['e', 'c', 'h', 'o']
            ==> spec_command_kind(args) == CommandKind::Builtin(Builtin::Echo),
        args.len() > 0 && args[0] == seq!['t', 'y', 'p', 'e']
            ==> spec_command_kind(args) == CommandKind::Builtin(Builtin::Type),
        args.len() > 0 && args[0] == seq!['e', 'x', 'i', 't']
            ==> spec_command_kind(args) == CommandKind::Builtin(Builtin::Exit),
        args.len() > 0 && args[0] == seq!['p', 'w', 'd'] ==> spec_command_kind(args) == CommandKind::Builtin(Builtin::Pwd),
        args.len() > 0 && args[0] == seq!['h', 'i', 's', 't', 'o', 'r', 'y']
            ==> spec_command_kind(args) == CommandKind::Builtin(Builtin::History),
        args.len() > 0 && !builtin_names().contains(args[0]) ==> spec_command_kind(args) == CommandKind::External,
        args.len() == 0 ==> spec_command_kind(args) == CommandKind::Empty,
{
    reveal_strlit("cd");
    reveal_strlit("echo");
    reveal_strlit("exit");
    reveal_strlit("type");
    reveal_strlit("pwd");
    reveal_strlit("history");
    assert("cd"@ =~= seq!['c', 'd']);
    assert("echo"@ =~= seq!['e', 'c', 'h', 'o']);
    assert("type"@ =~= seq!['t', 'y', 'p', 'e']);
    assert("exit"@ =~= seq!['e', 'x', 'i', 't']);
    assert("pwd"@ =~= seq!['p', 'w', 'd']);
    assert("history"@ =~= seq!['h', 'i', 's', 't', 'o', 'r', 'y']);
    if args.len() > 0 {
        law_builtin_names_agree(args[0]);
    }
}

/// How one command of a pipeline is wired. Pipes are named by their position: pipe `k`
/// carries the output of command `k` to command `k + 1`.
#[derive(Debug, Clone, Copy, PartialEq, Eq, Structural)]
pub struct StageWiring {
    /// The pipe whose read end the command reads its input from.
    pub input: Option<usize>,
    /// The pipe the command writes its output into; the shell makes it before starting
    /// the command.
    pub output: Option<usize>,
    /// The child exits with the command's status; otherwise it exits with status 0.
    pub keeps_status: bool,
    /// Once the command is started, the shell waits for every child of the pipeline.
    pub wait_all: bool,
}

/// The wiring of command `i` of a pipeline of `n` commands: it reads the pipe before it
/// (none for the first), writes the pipe after it (none for the last), and only the last
/// keeps its status and is followed by the wait for all children.
pub open spec fn spec_stage(n: nat, i: nat) -> StageWiring {
    StageWiring {
        input: if i == 0 { None } else { Some((i - 1) as usize) },
        output: if i + 1 < n { Some(i as usize) } else { None },
        keeps_status: i + 1 == n,
        wait_all: i + 1 == n,
    }
}

/// How `run_pipeline` wires a line of `n` commands, one child per command: for two or more
/// commands the stages of [`spec_stage`]; for fewer, nothing runs.
pub open spec fn spec_pipeline_plan(n: nat) -> Seq<StageWiring> {
    if n < 2 {
        Seq::empty()
    } else {
        Seq::new(n, |i: int| spec_stage(n, i as nat))
    }
}

/// The wiring of every command of a pipeline of `n` commands. In each child the read end
/// of the output pipe is closed, the input pipe's read end becomes standard input and the
/// output pipe's write end standard output; in the shell the input pipe's read end and the
/// output pipe's write end are closed once the child is started.
pub fn pipeline_plan(n: usize) -> (plan: Vec<StageWiring>)
    ensures
        plan@ == spec_pipeline_plan(n as nat),
{
    let mut plan: Vec<StageWiring> = Vec::new();
    if n < 2 {
        assert(plan@ =~= spec_pipeline_plan(n as nat));
        return plan;
    }
    let mut i: usize = 0;
    while i < n
        invariant
            2 <= n,
            i <= n,
            plan@ == spec_pipeline_plan(n as nat).take(i as int),
        decreases n - i,
    {
        let stage = StageWiring {
            input: if i == 0 { None } else { Some(i - 1) },
            output: if i + 1 < n { Some(i) } else { None },
            keeps_status: i + 1 == n,
            wait_all: i + 1 == n,
        };
        plan.push(stage);
        i = i + 1;
        assert(plan@ =~= spec_pipeline_plan(n as nat).take(i as int));
    }
    assert(spec_pipeline_plan(n as nat).take(n as int) =~= spec_pipeline_plan(n as nat));
    plan
}

/// The commands of a pipeline are chained: each command but the last writes into a pipe
/// that the next command, and no other, reads; the first reads the shell's input, the last
/// writes the shell's output and is the one whose status is kept and after which the
/// shell waits.
pub proof fn law_pipes_chain_commands(n: usize)
    requires
        n >= 2,
    ensures
        spec_pipeline_plan(n as nat).len() == n,
        spec_pipeline_plan(n as nat)[0].input is None,
        spec_pipeline_plan(n as nat)[n - 1].output is None,
        forall|i: int| 0 <= i < n - 1 ==> (#[trigger] spec_pipeline_plan(n as nat)[i]).output is Some
            && spec_pipeline_plan(n as nat)[i].output == spec_pipeline_plan(n as nat)[i + 1].input,
        forall|i: int, j: int| 0 <= i < n && 0 <= j < n && i != j
            && (#[trigger] spec_pipeline_plan(n as nat)[i]).input is Some
            ==> (#[trigger] spec_pipeline_plan(n as nat)[j]).input != spec_pipeline_plan(n as nat)[i].input,
        forall|i: int| 0 <= i < n ==> ((#[trigger] spec_pipeline_plan(n as nat)[i]).keeps_status <==> i == n - 1),
{
    let p = spec_pipeline_plan(n as nat);
    assert(p.len() == n);
    assert(p[0] == spec_stage(n as nat, 0));
    assert(p[n - 1] == spec_stage(n as nat, (n - 1) as nat));
    assert forall|i: int| 0 <= i < n - 1 implies (#[trigger] p[i]).output is Some && p[i].output == p[i + 1].input by {
        assert(p[i] == spec_stage(n as nat, i as nat));
        assert(p[i + 1] == spec_stage(n as nat, (i + 1) as nat));
    }
    assert forall|i: int, j: int| 0 <= i < n && 0 <= j < n && i != j && (#[trigger] p[i]).input is Some
        implies (#[trigger] p[j]).input != p[i].input by {
        assert(p[i] == spec_stage(n as nat, i as nat));
        assert(p[j] == spec_stage(n as nat, j as nat));
    }
    assert forall|i: int| 0 <= i < n implies ((#[trigger] p[i]).keeps_status <==> i == n - 1) by {
        assert(p[i] == spec_stage(n as nat, i as nat));
    }
}

} // verus!
