use vstd::prelude::*;

use crate::ast::{Ast, AstModel};
use crate::grammar::Token;

verus! {

/// Where a process reads its standard input from.
#[derive(Debug, Clone, Copy, PartialEq, Eq, Structural)]
pub enum Input {
    /// The caller's own standard input.
    Inherit,
    /// The read end of the pipe on which the given child writes.
    PipeFrom(usize),
}

/// Where a process writes its standard output to.
#[derive(Debug, Clone, Copy, PartialEq, Eq, Structural)]
pub enum Output {
    /// The caller's own standard output.
    Inherit,
    /// A fresh pipe, whose read end a later process takes as its input.
    Piped,
    /// The file opened under the given handle.
    File(usize),
}

/// The outcome of the subtree evaluated last.
#[derive(Debug, Clone, Copy, PartialEq, Eq, Structural)]
pub enum Last {
    /// Nothing ran.
    Nothing,
    /// The given child carries the subtree's status.
    Child(usize),
    /// The subtree was sent to the background; the given child is its last process.
    Detached(usize),
}

/// What the caller reports back after doing what the previous step asked.
#[derive(Debug, Clone, Copy, PartialEq, Eq, Structural)]
pub enum Event {
    /// Nothing to report: the first step, or the one after a `Continue`.
    Ready,
    /// The requested process was spawned under the given handle.
    Spawned(usize),
    /// The requested file was opened under the given handle.
    Opened(usize),
    /// The awaited child exited; whether it succeeded.
    Exited(bool),
}

/// One piece of pending work.
#[derive(Debug)]
pub enum Task {
    /// Run a subtree with the given streams.
    Eval { node: Ast, stdin: Input, stdout: Output },
    /// Feed the output of the last child into `right`.
    PipeInto { right: Ast, stdout: Output },
    /// Wait for the last child, then decide on `right`.
    Branch { on_success: bool, right: Ast, stdout: Output },
    /// Run `right` if the last status is `on_success`.
    Decide { on_success: bool, right: Ast, stdout: Output },
    /// Wait for the last child, then run `right`.
    Then { right: Ast, stdout: Output },
    /// Run `left` with its output sent to the file opened last.
    RedirectTo { left: Ast },
    /// Mark the last child as detached.
    Detach,
}

/// What the caller must do next.
#[derive(Debug, PartialEq)]
pub enum Action {
    /// Nothing outside; step again with `Event::Ready`.
    Continue,
    /// Spawn `command` with `args`, then report `Event::Spawned`.
    Spawn { command: Token, args: Vec<Token>, stdin: Input, stdout: Output },
    /// Open the file at `path`, created if absent, truncated or appended to,
    /// then report `Event::Opened`.
    Open { path: Token, append: bool },
    /// Wait for the given child, then report `Event::Exited`.
    Wait(usize),
    /// The whole tree has been started; the outcome is the given one.
    Done(Last),
}

/// The values that events leave behind for later tasks.
#[derive(Debug, Clone, Copy, PartialEq, Eq, Structural)]
pub struct Registers {
    pub last: Last,
    pub status: bool,
    pub file: usize,
}

/// The registers before anything ran.
pub open spec fn initial_registers() -> Registers {
    Registers { last: Last::Nothing, status: true, file: 0 }
}

/// The registers once `e` has been recorded.
pub open spec fn absorb(r: Registers, e: Event) -> Registers {
    match e {
        Event::Ready => r,
        Event::Spawned(c) => Registers { last: Last::Child(c), ..r },
        Event::Opened(f) => Registers { file: f, ..r },
        Event::Exited(ok) => Registers { status: ok, ..r },
    }
}

/// The input through which a process reads what the last child wrote.
pub open spec fn pipe_source(last: Last) -> Input {
    match last {
        Last::Child(c) => Input::PipeFrom(c),
        Last::Detached(c) => Input::PipeFrom(c),
        Last::Nothing => Input::Inherit,
    }
}

/// The outcome once the last subtree is sent to the background.
pub open spec fn detach(last: Last) -> Last {
    match last {
        Last::Child(c) => Last::Detached(c),
        _ => last,
    }
}

/// The pending work, the registers and the action after evaluating `node`
/// with the given streams on top of the pending work `rest`.
pub open spec fn eval_spec(rest: Seq<Task>, r: Registers, node: Ast, stdin: Input, stdout: Output) -> (
    Seq<Task>,
    Registers,
    Action,
) {
    match node {
        Ast::Command { command, args } => (rest, r, Action::Spawn { command, args, stdin, stdout }),
        Ast::Pipe { left, right } => (
            rest.push(Task::PipeInto { right: *right, stdout }).push(
                Task::Eval { node: *left, stdin: Input::Inherit, stdout: Output::Piped },
            ),
            r,
            Action::Continue,
        ),
        Ast::RedirectOut { left, right } => (
            rest.push(Task::RedirectTo { left: *left }),
            r,
            Action::Open { path: right, append: false },
        ),
        Ast::RedirectAppend { left, right } => (
            rest.push(Task::RedirectTo { left: *left }),
            r,
            Action::Open { path: right, append: true },
        ),
        Ast::And { left, right } => (
            rest.push(Task::Branch { on_success: true, right: *right, stdout }).push(
                Task::Eval { node: *left, stdin: Input::Inherit, stdout: Output::Inherit },
            ),
            r,
            Action::Continue,
        ),
        Ast::Or { left, right } => (
            rest.push(Task::Branch { on_success: false, right: *right, stdout }).push(
                Task::Eval { node: *left, stdin: Input::Inherit, stdout: Output::Inherit },
            ),
            r,
            Action::Continue,
        ),
        Ast::Sequence { left, right } => (
            rest.push(Task::Then { right: *right, stdout }).push(
                Task::Eval { node: *left, stdin: Input::Inherit, stdout: Output::Inherit },
            ),
            r,
            Action::Continue,
        ),
        Ast::Subshell { inner } => (
            rest.push(Task::Eval { node: *inner, stdin, stdout }),
            r,
            Action::Continue,
        ),
        Ast::Background { inner } => (
            rest.push(Task::Detach).push(Task::Eval { node: *inner, stdin, stdout }),
            r,
            Action::Continue,
        ),
        Ast::Empty => (rest, r, Action::Continue),
    }
}

/// The pending work, the registers and the action after one step on the
/// pending work `tasks` (its last element on top) with registers `r`.
pub open spec fn step_spec(tasks: Seq<Task>, r: Registers) -> (Seq<Task>, Registers, Action) {
    if tasks.len() == 0 {
        (tasks, r, Action::Done(r.last))
    } else {
        let rest = tasks.drop_last();
        match tasks.last() {
            Task::Eval { node, stdin, stdout } => eval_spec(rest, r, node, stdin, stdout),
            Task::PipeInto { right, stdout } => (
                rest.push(Task::Eval { node: right, stdin: pipe_source(r.last), stdout }),
                r,
                Action::Continue,
            ),
            Task::Branch { on_success, right, stdout } => {
                let decide = rest.push(Task::Decide { on_success, right, stdout });
                match r.last {
                    Last::Child(c) => (decide, r, Action::Wait(c)),
                    _ => (decide, Registers { status: true, ..r }, Action::Continue),
                }
            },
            Task::Decide { on_success, right, stdout } => if r.status == on_success {
                (
                    rest.push(Task::Eval { node: right, stdin: Input::Inherit, stdout }),
                    r,
                    Action::Continue,
                )
            } else {
                (rest, r, Action::Continue)
            },
            Task::Then { right, stdout } => {
                let next = rest.push(Task::Eval { node: right, stdin: Input::Inherit, stdout });
                match r.last {
                    Last::Child(c) => (next, r, Action::Wait(c)),
                    _ => (next, r, Action::Continue),
                }
            },
            Task::RedirectTo { left } => (
                rest.push(Task::Eval { node: left, stdin: Input::Inherit, stdout: Output::File(r.file) }),
                r,
                Action::Continue,
            ),
            Task::Detach => (rest, Registers { last: detach(r.last), ..r }, Action::Continue),
        }
    }
}

/// Walks a command tree one decision at a time. The caller performs each
/// action it asks for (spawning, opening, waiting) and reports the result
/// with the next step, until the action is `Done`.
pub struct Executor {
    /// The pending work; the last element is done first.
    pub tasks: Vec<Task>,
    pub regs: Registers,
}

/// `e` has not taken a step yet and is to run a tree whose model is `a`
/// with the caller's own streams.
pub open spec fn starts(e: &Executor, a: AstModel) -> bool {
    &&& e.regs == initial_registers()
    &&& e.tasks@.len() == 1
    &&& match e.tasks@[0] {
        Task::Eval { node, stdin, stdout } => node@ == a && stdin == Input::Inherit && stdout
            == Output::Inherit,
        _ => false,
    }
}

impl Executor {
    /// The executor for a whole tree, run with the caller's own streams.
    pub fn new(ast: Ast) -> (r: Executor)
        ensures
            r.tasks@ == seq![Task::Eval { node: ast, stdin: Input::Inherit, stdout: Output::Inherit }],
            r.regs == initial_registers(),
    {
        let mut tasks: Vec<Task> = Vec::new();
        tasks.push(Task::Eval { node: ast, stdin: Input::Inherit, stdout: Output::Inherit });
        proof {
            assert(tasks@ =~= seq![Task::Eval { node: ast, stdin: Input::Inherit, stdout: Output::Inherit }]);
        }
        Executor { tasks, regs: Registers { last: Last::Nothing, status: true, file: 0 } }
    }

    /// Records `event`, the result of the previous action, and takes the
    /// next decision.
    pub fn step(&mut self, event: Event) -> (a: Action)
        ensures
            (final(self).tasks@, final(self).regs, a) == step_spec(
                old(self).tasks@,
                absorb(old(self).regs, event),
            ),
    {
        let r = self.regs;
        let r = match event {
            Event::Ready => r,
            Event::Spawned(c) => Registers { last: Last::Child(c), ..r },
            Event::Opened(f) => Registers { file: f, ..r },
            Event::Exited(ok) => Registers { status: ok, ..r },
        };
        self.regs = r;
        let task = match self.tasks.pop() {
            None => {
                return Action::Done(r.last);
            },
            Some(task) => task,
        };
        match task {
            Task::Eval { node, stdin, stdout } => self.eval(node, stdin, stdout),
            Task::PipeInto { right, stdout } => {
                let stdin = match r.last {
                    Last::Child(c) => Input::PipeFrom(c),
                    Last::Detached(c) => Input::PipeFrom(c),
                    Last::Nothing => Input::Inherit,
                };
                self.tasks.push(Task::Eval { node: right, stdin, stdout });
                Action::Continue
            },
            Task::Branch { on_success, right, stdout } => {
                self.tasks.push(Task::Decide { on_success, right, stdout });
                match r.last {
                    Last::Child(c) => Action::Wait(c),
                    _ => {
                        self.regs = Registers { status: true, ..r };
                        Action::Continue
                    },
                }
            },
            Task::Decide { on_success, right, stdout } => {
                if r.status == on_success {
                    self.tasks.push(Task::Eval { node: right, stdin: Input::Inherit, stdout });
                }
                Action::Continue
            },
            Task::Then { right, stdout } => {
                self.tasks.push(Task::Eval { node: right, stdin: Input::Inherit, stdout });
                match r.last {
                    Last::Child(c) => Action::Wait(c),
                    _ => Action::Continue,
                }
            },
            Task::RedirectTo { left } => {
                self.tasks.push(
                    Task::Eval { node: left, stdin: Input::Inherit, stdout: Output::File(r.file) },
                );
                Action::Continue
            },
            Task::Detach => {
                let last = match r.last {
                    Last::Child(c) => Last::Detached(c),
                    other => other,
                };
                self.regs = Registers { last, ..r };
                Action::Continue
            },
        }
    }

    fn eval(&mut self, node: Ast, stdin: Input, stdout: Output) -> (a: Action)
        ensures
            (final(self).tasks@, final(self).regs, a) == eval_spec(
                old(self).tasks@,
                old(self).regs,
                node,
                stdin,
                stdout,
            ),
    {
        match node {
            Ast::Command { command, args } => Action::Spawn { command, args, stdin, stdout },
            Ast::Pipe { left, right } => {
                self.tasks.push(Task::PipeInto { right: *right, stdout });
                self.tasks.push(Task::Eval { node: *left, stdin: Input::Inherit, stdout: Output::Piped });
                Action::Continue
            },
            Ast::RedirectOut { left, right } => {
                self.tasks.push(Task::RedirectTo { left: *left });
                Action::Open { path: right, append: false }
            },
            Ast::RedirectAppend { left, right } => {
                self.tasks.push(Task::RedirectTo { left: *left });
                Action::Open { path: right, append: true }
            },
            Ast::And { left, right } => {
                self.tasks.push(Task::Branch { on_success: true, right: *right, stdout });
                self.tasks.push(Task::Eval { node: *left, stdin: Input::Inherit, stdout: Output::Inherit });
                Action::Continue
            },
            Ast::Or { left, right } => {
                self.tasks.push(Task::Branch { on_success: false, right: *right, stdout });
                self.tasks.push(Task::Eval { node: *left, stdin: Input::Inherit, stdout: Output::Inherit });
                Action::Continue
            },
            Ast::Sequence { left, right } => {
                self.tasks.push(Task::Then { right: *right, stdout });
                self.tasks.push(Task::Eval { node: *left, stdin: Input::Inherit, stdout: Output::Inherit });
                Action::Continue
            },
            Ast::Subshell { inner } => {
                self.tasks.push(Task::Eval { node: *inner, stdin, stdout });
                Action::Continue
            },
            Ast::Background { inner } => {
                self.tasks.push(Task::Detach);
                self.tasks.push(Task::Eval { node: *inner, stdin, stdout });
                Action::Continue
            },
            Ast::Empty => Action::Continue,
        }
    }
}

} // verus!
