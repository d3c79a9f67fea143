use vstd::prelude::*;

use crate::argparse::{lookup, ParsedArguments};

verus! {

/// How a command ended: it could not be started, or it exited with a
/// status code (none when it was killed by a signal).
#[derive(Debug, Clone, Copy, PartialEq, Eq, Structural)]
pub enum Outcome {
    SpawnFailed,
    Exited(Option<i32>),
}

/// One command of the run.
#[derive(Debug, Clone, Copy, PartialEq, Eq, Structural)]
pub enum Phase {
    Pre(usize),
    Main,
    Post(usize),
}

/// Where a run stands. `Post` carries the exit code of the main command.
#[derive(Debug, Clone, Copy, PartialEq, Eq, Structural)]
pub enum RunState {
    Pre(usize),
    Main,
    Post(usize, i32),
    Done(i32),
}

/// What the caller must do next: run a command, or exit with a code.
#[derive(Debug, Clone, Copy, PartialEq, Eq, Structural)]
pub enum Step {
    Run(Phase),
    Finish(i32),
}

/// The commands of a run, taken from the parsed arguments.
#[derive(Debug, Clone)]
pub struct RunPlan {
    pub pre: Vec<String>,
    pub cmd: String,
    pub post: Vec<String>,
}

/// Decides, one outcome at a time, which command runs next and how the
/// run ends.
#[derive(Debug, Clone)]
pub struct PhaseRunner {
    plan: RunPlan,
    state: RunState,
}

/// The code a run ends with for a command that ended with `code`.
pub open spec fn exit_code(code: Option<i32>) -> i32 {
    match code {
        Some(c) => c,
        None => 1,
    }
}

pub open spec fn succeeded(code: Option<i32>) -> bool {
    code == Some(0i32)
}

pub open spec fn start_state(n_pre: nat) -> RunState {
    if n_pre > 0 {
        RunState::Pre(0)
    } else {
        RunState::Main
    }
}

/// The state after the current command ended with `o`.
pub open spec fn next_state(n_pre: nat, n_post: nat, s: RunState, o: Outcome) -> RunState {
    match o {
        Outcome::SpawnFailed => RunState::Done(1),
        Outcome::Exited(code) => match s {
            RunState::Pre(i) => if !succeeded(code) {
                RunState::Done(exit_code(code))
            } else if i + 1 < n_pre {
                RunState::Pre((i + 1) as usize)
            } else {
                RunState::Main
            },
            RunState::Main => if n_post > 0 {
                RunState::Post(0, exit_code(code))
            } else {
                RunState::Done(exit_code(code))
            },
            RunState::Post(i, c) => if i + 1 < n_post {
                RunState::Post((i + 1) as usize, c)
            } else {
                RunState::Done(c)
            },
            RunState::Done(c) => RunState::Done(c),
        },
    }
}

pub open spec fn step_of(s: RunState) -> Step {
    match s {
        RunState::Pre(i) => Step::Run(Phase::Pre(i)),
        RunState::Main => Step::Run(Phase::Main),
        RunState::Post(i, _) => Step::Run(Phase::Post(i)),
        RunState::Done(c) => Step::Finish(c),
    }
}

/// The state names a command that the plan holds.
pub open spec fn state_in_range(n_pre: nat, n_post: nat, s: RunState) -> bool {
    match s {
        RunState::Pre(i) => i < n_pre,
        RunState::Post(i, _) => i < n_post,
        _ => true,
    }
}

/// The number of commands that may still run from state `s`.
pub open spec fn commands_left(n_pre: nat, n_post: nat, s: RunState) -> nat {
    match s {
        RunState::Pre(i) => ((n_pre - i) + 1 + n_post) as nat,
        RunState::Main => 1 + n_post,
        RunState::Post(i, _) => (n_post - i) as nat,
        RunState::Done(_) => 0,
    }
}

/// The state reached from `s` by feeding the outcomes `outs` in order,
/// ignoring those that arrive after the run has ended.
pub open spec fn run_from(n_pre: nat, n_post: nat, s: RunState, outs: Seq<Outcome>) -> RunState
    decreases outs.len(),
{
    if outs.len() == 0 || s is Done {
        s
    } else {
        run_from(n_pre, n_post, next_state(n_pre, n_post, s, outs[0]), outs.drop_first())
    }
}

pub open spec fn all_exited(outs: Seq<Outcome>) -> bool {
    forall|i: int| 0 <= i < outs.len() ==> (#[trigger] outs[i]) is Exited
}

/// Each recorded outcome stays within the plan and brings the run closer to
/// its end, so every run ends.
pub proof fn lemma_progress(n_pre: nat, n_post: nat, s: RunState, o: Outcome)
    requires
        n_pre <= usize::MAX,
        n_post <= usize::MAX,
        state_in_range(n_pre, n_post, s),
        !(s is Done),
    ensures
        state_in_range(n_pre, n_post, next_state(n_pre, n_post, s, o)),
        commands_left(n_pre, n_post, next_state(n_pre, n_post, s, o)) < commands_left(
            n_pre,
            n_post,
            s,
        ),
{
}

/// A pre command that does not succeed ends the run at once with its own
/// exit code, whatever would come after it.
pub proof fn lemma_pre_failure_aborts(
    n_pre: nat,
    n_post: nat,
    i: usize,
    code: Option<i32>,
    rest: Seq<Outcome>,
)
    requires
        !succeeded(code),
    ensures
        run_from(n_pre, n_post, RunState::Pre(i), seq![Outcome::Exited(code)] + rest)
            == RunState::Done(exit_code(code)),
{
    let outs = seq![Outcome::Exited(code)] + rest;
    assert(outs[0] == Outcome::Exited(code));
    let d = RunState::Done(exit_code(code));
    assert(run_from(n_pre, n_post, d, outs.drop_first()) == d);
}

/// Once the post commands have started, their exit codes never change the
/// code the run ends with.
pub proof fn lemma_post_keeps_code(n_pre: nat, n_post: nat, i: usize, c: i32, outs: Seq<Outcome>)
    requires
        n_post <= usize::MAX,
        i < n_post,
        all_exited(outs),
        outs.len() >= n_post - i,
    ensures
        run_from(n_pre, n_post, RunState::Post(i, c), outs) == RunState::Done(c),
    decreases n_post - i,
{
    assert(outs[0] is Exited);
    let rest = outs.drop_first();
    assert(forall|j: int| 0 <= j < rest.len() ==> rest[j] == outs[j + 1]);
    if i + 1 < n_post {
        lemma_post_keeps_code(n_pre, n_post, (i + 1) as usize, c, rest);
    } else {
        assert(run_from(n_pre, n_post, RunState::Done(c), rest) == RunState::Done(c));
    }
}

/// When the main command runs and no post command fails to start, the run
/// ends with the main command's exit code, after every post command.
pub proof fn lemma_main_code_is_final(
    n_pre: nat,
    n_post: nat,
    code: Option<i32>,
    posts: Seq<Outcome>,
)
    requires
        n_post <= usize::MAX,
        all_exited(posts),
        posts.len() >= n_post,
    ensures
        run_from(n_pre, n_post, RunState::Main, seq![Outcome::Exited(code)] + posts)
            == RunState::Done(exit_code(code)),
{
    let outs = seq![Outcome::Exited(code)] + posts;
    assert(outs.drop_first() =~= posts);
    if n_post > 0 {
        lemma_post_keeps_code(n_pre, n_post, 0, exit_code(code), posts);
    } else {
        assert(run_from(n_pre, n_post, RunState::Done(exit_code(code)), posts) == RunState::Done(
            exit_code(code),
        ));
    }
}

/// The values of `key` if given, else none.
fn values_or_empty(args: &ParsedArguments, key: &str) -> (r: Vec<String>)
    ensures
        match lookup(args@, key@) {
            Some(v) => r@.map_values(|s: String| s@) == v,
            None => r@.len() == 0,
        },
{
    match args.get(key) {
        Some(v) => v.clone(),
        None => Vec::new(),
    }
}

impl RunPlan {
    /// Takes the pre commands, the main command (the first value of `cmd`)
    /// and the post commands from parsed arguments.
    pub fn from_args(args: &ParsedArguments) -> (r: RunPlan)
        requires
            lookup(args@, "cmd"@) is Some,
        ensures
            lookup(args@, "pre"@) is Some ==> r.pre@.map_values(|s: String| s@) == lookup(
                args@,
                "pre"@,
            )->0,
            lookup(args@, "pre"@) is None ==> r.pre@.len() == 0,
            r.cmd@ == lookup(args@, "cmd"@)->0[0],
            lookup(args@, "post"@) is Some ==> r.post@.map_values(|s: String| s@) == lookup(
                args@,
                "post"@,
            )->0,
            lookup(args@, "post"@) is None ==> r.post@.len() == 0,
    {
        let pre = values_or_empty(args, "pre");
        let post = values_or_empty(args, "post");
        let cmds = args.get("cmd").unwrap();
        let cmd = cmds[0].clone();
        RunPlan { pre, cmd, post }
    }
}

impl PhaseRunner {
    pub closed spec fn plan(&self) -> RunPlan {
        self.plan
    }

    pub closed spec fn state(&self) -> RunState {
        self.state
    }

    pub open spec fn n_pre(&self) -> nat {
        self.plan().pre@.len()
    }

    pub open spec fn n_post(&self) -> nat {
        self.plan().post@.len()
    }

    pub open spec fn wf(&self) -> bool {
        state_in_range(self.n_pre(), self.n_post(), self.state())
    }

    /// A runner at the start of `plan`.
    pub fn new(plan: RunPlan) -> (r: PhaseRunner)
        ensures
            r.plan() == plan,
            r.state() == start_state(plan.pre@.len()),
            r.wf(),
    {
        let state = if plan.pre.len() > 0 {
            RunState::Pre(0)
        } else {
            RunState::Main
        };
        PhaseRunner { plan, state }
    }

    /// What to do next.
    pub fn next_step(&self) -> (r: Step)
        ensures
            r == step_of(self.state()),
    {
        match self.state {
            RunState::Pre(i) => Step::Run(Phase::Pre(i)),
            RunState::Main => Step::Run(Phase::Main),
            RunState::Post(i, _) => Step::Run(Phase::Post(i)),
            RunState::Done(c) => Step::Finish(c),
        }
    }

    /// Whether the run has ended.
    pub fn is_done(&self) -> (r: bool)
        ensures
            r == (self.state() is Done),
    {
        match self.state {
            RunState::Done(_) => true,
            _ => false,
        }
    }

    /// The command line of the current command.
    pub fn current_command(&self) -> (r: &String)
        requires
            self.wf(),
            !(self.state() is Done),
        ensures
            match self.state() {
                RunState::Pre(i) => *r == self.plan().pre@[i as int],
                RunState::Main => *r == self.plan().cmd,
                RunState::Post(i, _) => *r == self.plan().post@[i as int],
                RunState::Done(_) => false,
            },
    {
        match self.state {
            RunState::Pre(i) => &self.plan.pre[i],
            RunState::Main => &self.plan.cmd,
            RunState::Post(i, _) => &self.plan.post[i],
            RunState::Done(_) => &self.plan.cmd,
        }
    }

    /// Records how the current command ended and moves to the next state.
    pub fn record(&mut self, outcome: Outcome)
        requires
            old(self).wf(),
            !(old(self).state() is Done),
        ensures
            final(self).plan() == old(self).plan(),
            final(self).state() == next_state(
                old(self).n_pre(),
                old(self).n_post(),
                old(self).state(),
                outcome,
            ),
            final(self).wf(),
    {
        let n_pre = self.plan.pre.len();
        let n_post = self.plan.post.len();
        let next = match outcome {
            Outcome::SpawnFailed => RunState::Done(1),
            Outcome::Exited(code) => {
                let c = match code {
                    Some(c) => c,
                    None => 1,
                };
                match self.state {
                    RunState::Pre(i) => if code != Some(0i32) {
                        RunState::Done(c)
                    } else if i + 1 < n_pre {
                        RunState::Pre(i + 1)
                    } else {
                        RunState::Main
                    },
                    RunState::Main => if n_post > 0 {
                        RunState::Post(0, c)
                    } else {
                        RunState::Done(c)
                    },
                    RunState::Post(i, m) => if i + 1 < n_post {
                        RunState::Post(i + 1, m)
                    } else {
                        RunState::Done(m)
                    },
                    RunState::Done(m) => RunState::Done(m),
                }
            },
        };
        self.state = next;
    }
}

} // verus!
