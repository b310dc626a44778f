//! Running a command: the decisions taken between the steps that touch the
//! outside world. A `CommandRun` holds a prepared `RunPlan` and answers
//! each reported event with the next action to take: run the dependencies,
//! ask for confirmation, run the `before` script, check privileges, run the
//! script (or show it in a dry run), run `after` or `fallback`, write the
//! log, run `finally`, and finish.

use vstd::prelude::*;
use crate::ast::{ArgMap, BindingV, Command, Constant, Directive, DirectiveV, Variable, assoc_insert, opt_view};
use crate::directives::{DirectiveResolver, HostOs, best_hidden, best_value, first_where, validations};
use crate::env::{EnvironmentManager, directive_env, insert_all};
use crate::runtime::{
    DirEntryV, Runtime, all_consts, all_env, all_vars, call_stack_spec, check_call_stack, env_directives,
    parent_dirs, parents_of,
};
use crate::runtime_validator::{RuntimeValidator, validate_spec};
use crate::template::{TemplateContext, TemplateProcessor, process_spec, var_map_spec};
use crate::text::{chars_of, chars_of_string, join, push_all, string_of};

verus! {

/// Everything a command run needs, prepared before it starts.
pub struct RunPlan {
    /// The command has dependencies to run first.
    pub has_dependencies: bool,
    /// The confirmation message to ask first (never in a dry run).
    pub confirm: Option<String>,
    /// The `before` script, processed, with its hide flag.
    pub before: Option<(String, bool)>,
    /// The main script, processed, with its hide flag.
    pub script: Option<(String, bool)>,
    /// The `after` script, processed, with its hide flag.
    pub after: Option<(String, bool)>,
    /// The `fallback` script as written (it is processed with the error
    /// message once the script has failed), with its hide flag.
    pub fallback: Option<(String, bool)>,
    /// The `finally` script, processed, with its hide flag.
    pub finally: Option<(String, bool)>,
    /// The command needs privileged access.
    pub privileged: bool,
    /// Nothing is run: scripts are only shown.
    pub dry_run: bool,
    /// The log file and its format.
    pub logs: Option<(String, String)>,
    /// The environment the scripts run with.
    pub env: ArgMap,
    /// The directory the scripts run in.
    pub cwd: Option<String>,
    /// The arguments of the command.
    pub args: ArgMap,
    /// The arguments of the parent command.
    pub parent_args: ArgMap,
    /// The variables and constants in scope, for templates.
    pub vars: ArgMap,
    /// The time that `{{now}}` stands for.
    pub now: String,
    /// The user that `{{user}}` stands for.
    pub user: String,
}

/// Where a command run stands.
#[derive(PartialEq, Eq, Structural, Clone, Copy, Debug)]
pub enum Stage {
    Start,
    Dependencies,
    Confirm,
    Before,
    Privileges,
    DryRun,
    Main,
    After,
    Fallback,
    Log,
    Finally,
    Done,
}

/// What the caller reports after performing an action.
#[derive(Debug)]
pub enum RunEvent {
    /// The action succeeded, or failed with this message.
    Outcome(Result<(), String>),
    /// The answer to a confirmation request.
    Answer(bool),
}

/// What the caller must do next.
#[derive(Debug)]
pub enum RunAction {
    /// Run the command's dependencies; report the outcome.
    RunDependencies,
    /// Ask the user to confirm with this message; report the answer (or
    /// the failure of the prompt).
    Confirm(String),
    /// Check for privileged access; report failure with the message to give.
    CheckPrivileges,
    /// Show this script as a dry-run preview; report anything.
    ShowDryRun(String),
    /// Run this script, with its output hidden or not, with these
    /// arguments; report the outcome.
    RunScript(String, bool, ArgMap),
    /// Write a log entry for this outcome to the file in the format; report
    /// anything (a failure to write is not an error of the command).
    WriteLog(String, String, Result<(), String>),
    /// The run is over, with this result.
    Finish(Result<(), String>),
}

/// The model of an event.
pub enum EventV {
    Outcome(Result<(), Seq<char>>),
    Answer(bool),
}

/// The model of an action.
pub enum ActionV {
    Dependencies,
    Confirm(Seq<char>),
    CheckPrivileges,
    DryRun(Seq<char>),
    Run(Seq<char>, bool, Seq<(Seq<char>, Seq<char>)>),
    Log(Seq<char>, Seq<char>, Result<(), Seq<char>>),
    Finish(Result<(), Seq<char>>),
}

/// The model of an outcome.
pub open spec fn res_view(r: Result<(), String>) -> Result<(), Seq<char>> {
    match r {
        Ok(()) => Ok(()),
        Err(e) => Err(e@),
    }
}

impl View for RunEvent {
    type V = EventV;

    open spec fn view(&self) -> EventV {
        match self {
            RunEvent::Outcome(r) => EventV::Outcome(res_view(*r)),
            RunEvent::Answer(b) => EventV::Answer(*b),
        }
    }
}

impl View for RunAction {
    type V = ActionV;

    open spec fn view(&self) -> ActionV {
        match self {
            RunAction::RunDependencies => ActionV::Dependencies,
            RunAction::Confirm(m) => ActionV::Confirm(m@),
            RunAction::CheckPrivileges => ActionV::CheckPrivileges,
            RunAction::ShowDryRun(s) => ActionV::DryRun(s@),
            RunAction::RunScript(s, h, a) => ActionV::Run(s@, *h, a.entries_view()),
            RunAction::WriteLog(p, f, r) => ActionV::Log(p@, f@, res_view(*r)),
            RunAction::Finish(r) => ActionV::Finish(res_view(*r)),
        }
    }
}

/// What a stage leads to: the stage after it, the outcome kept for the
/// log and `finally`, and the action.
pub type StepV = (Stage, Result<(), Seq<char>>, ActionV);

/// The run ends with `res`.
pub open spec fn finish(res: Result<(), Seq<char>>) -> StepV {
    (Stage::Done, res, ActionV::Finish(res))
}

/// Runs `finally` where there is one, then ends with `res`.
pub open spec fn to_finally(p: RunPlan, res: Result<(), Seq<char>>) -> StepV {
    match p.finally {
        Some(f) => (Stage::Finally, res, ActionV::Run(f.0@, f.1, p.args.entries_view())),
        None => finish(res),
    }
}

/// Writes the log where there is one (not in a dry run), then goes on to
/// `finally`.
pub open spec fn to_log(p: RunPlan, res: Result<(), Seq<char>>) -> StepV {
    match p.logs {
        Some(l) => if !p.dry_run {
            (Stage::Log, res, ActionV::Log(l.0@, l.1@, res))
        } else {
            to_finally(p, res)
        },
        None => to_finally(p, res),
    }
}

/// The error of a command without a script.
pub open spec fn no_script_msg() -> Seq<char> {
    "Command has no script directive"@
}

/// Runs the script, or shows it in a dry run.
pub open spec fn to_main(p: RunPlan) -> StepV {
    match p.script {
        Some(s) => if p.dry_run {
            (Stage::DryRun, Ok(()), ActionV::DryRun(s.0@))
        } else {
            (Stage::Main, Ok(()), ActionV::Run(s.0@, s.1, p.args.entries_view()))
        },
        None => finish(Err(no_script_msg())),
    }
}

/// Checks for a script, then for privileges where they are needed.
pub open spec fn to_privileges(p: RunPlan) -> StepV {
    if p.script is None {
        finish(Err(no_script_msg()))
    } else if p.privileged && !p.dry_run {
        (Stage::Privileges, Ok(()), ActionV::CheckPrivileges)
    } else {
        to_main(p)
    }
}

/// Runs `before` where there is one (shows it in a dry run).
pub open spec fn to_before(p: RunPlan) -> StepV {
    match p.before {
        Some(b) => if p.dry_run {
            (Stage::Before, Ok(()), ActionV::DryRun(b.0@))
        } else {
            (Stage::Before, Ok(()), ActionV::Run(b.0@, b.1, p.args.entries_view()))
        },
        None => to_privileges(p),
    }
}

/// Asks for confirmation where it is required.
pub open spec fn to_confirm(p: RunPlan) -> StepV {
    match p.confirm {
        Some(m) => (Stage::Confirm, Ok(()), ActionV::Confirm(m@)),
        None => to_before(p),
    }
}

/// The first step of a run: its dependencies, where it has any.
pub open spec fn to_start(p: RunPlan) -> StepV {
    if p.has_dependencies {
        (Stage::Dependencies, Ok(()), ActionV::Dependencies)
    } else {
        to_confirm(p)
    }
}

/// The arguments of the fallback script: the command's arguments with the
/// error message as `SYSTEM_ERROR_MESSAGE` and `error`.
pub open spec fn fallback_args(p: RunPlan, e: Seq<char>) -> Seq<(Seq<char>, Seq<char>)> {
    assoc_insert(assoc_insert(p.args.entries_view(), "SYSTEM_ERROR_MESSAGE"@, e), "error"@, e)
}

/// What follows the script's outcome: `after` on success, `fallback`
/// (processed with the error) on failure, else the log.
pub open spec fn after_main(p: RunPlan, r: Result<(), Seq<char>>) -> StepV {
    match r {
        Ok(()) => match p.after {
            Some(a) => (Stage::After, Ok(()), ActionV::Run(a.0@, a.1, p.args.entries_view())),
            None => to_log(p, Ok(())),
        },
        Err(e) => match p.fallback {
            Some(f) => {
                let fa = fallback_args(p, e);
                (
                    Stage::Fallback,
                    Ok(()),
                    ActionV::Run(
                        process_spec(f.0@, fa, p.parent_args.entries_view(), p.vars.entries_view(), p.now@, p.user@),
                        f.1,
                        fa,
                    ),
                )
            },
            None => to_log(p, Err(e)),
        },
    }
}

/// The outcome that an event reports (an answer reports success).
pub open spec fn outcome_of(ev: EventV) -> Result<(), Seq<char>> {
    match ev {
        EventV::Outcome(r) => r,
        EventV::Answer(_) => Ok(()),
    }
}

/// The step after an event, at stage `s` with kept outcome `o`.
pub open spec fn step_spec(p: RunPlan, s: Stage, o: Result<(), Seq<char>>, ev: EventV) -> StepV {
    match s {
        Stage::Start => to_start(p),
        Stage::Dependencies => match outcome_of(ev) {
            Err(e) => finish(Err(e)),
            Ok(()) => to_confirm(p),
        },
        Stage::Confirm => match ev {
            EventV::Answer(false) => finish(Ok(())),
            EventV::Outcome(Err(e)) => finish(Err("Confirmation prompt failed: "@ + e)),
            _ => to_before(p),
        },
        Stage::Before => match outcome_of(ev) {
            Err(e) => finish(Err("Before script failed: "@ + e)),
            Ok(()) => to_privileges(p),
        },
        Stage::Privileges => match outcome_of(ev) {
            Err(e) => finish(Err(e)),
            Ok(()) => to_main(p),
        },
        Stage::DryRun => finish(Ok(())),
        Stage::Main => after_main(p, outcome_of(ev)),
        Stage::After => match outcome_of(ev) {
            Err(e) => finish(Err("After script failed: "@ + e)),
            Ok(()) => to_log(p, Ok(())),
        },
        Stage::Fallback => match outcome_of(ev) {
            Err(e) => finish(Err("Fallback script failed: "@ + e)),
            Ok(()) => to_log(p, Ok(())),
        },
        Stage::Log => to_finally(p, o),
        Stage::Finally => finish(o),
        Stage::Done => finish(o),
    }
}

/// A command run in progress.
pub struct CommandRun {
    plan: RunPlan,
    stage: Stage,
    outcome: Result<(), String>,
}

/// A copy of an outcome.
fn copy_result(r: &Result<(), String>) -> (c: Result<(), String>)
    ensures
        res_view(c) == res_view(*r),
{
    match r {
        Ok(()) => Ok(()),
        Err(e) => Err(e.clone()),
    }
}

/// A copy of a script and its hide flag.
fn copy_pair(p: &(String, bool)) -> (c: (String, bool))
    ensures
        c.0@ == p.0@,
        c.1 == p.1,
{
    (p.0.clone(), p.1)
}

/// `prefix` followed by `e`.
fn prefixed(prefix: &str, e: &String) -> (s: String)
    ensures
        s@ == prefix@ + e@,
{
    let mut m = chars_of(prefix);
    push_all(&mut m, &crate::text::chars_of_string(e));
    string_of(&m)
}

impl CommandRun {
    /// The plan.
    pub closed spec fn plan_v(&self) -> RunPlan {
        self.plan
    }

    /// The stage.
    pub closed spec fn stage_v(&self) -> Stage {
        self.stage
    }

    /// The outcome kept for the log and `finally`.
    pub closed spec fn outcome_v(&self) -> Result<(), Seq<char>> {
        res_view(self.outcome)
    }

    /// A run of the plan, not started.
    pub fn new(plan: RunPlan) -> (r: CommandRun)
        ensures
            r.plan_v() == plan,
            r.stage_v() == Stage::Start,
            r.outcome_v() == Ok::<(), Seq<char>>(()),
    {
        CommandRun { plan, stage: Stage::Start, outcome: Ok(()) }
    }

    /// The plan of the run.
    pub fn plan(&self) -> (p: &RunPlan)
        ensures
            *p == self.plan_v(),
    {
        &self.plan
    }

    /// The action that enters `finally` (or ends the run).
    fn go_finally(&mut self, res: Result<(), String>) -> (a: RunAction)
        ensures
            final(self).plan_v() == old(self).plan_v(),
            (final(self).stage_v(), final(self).outcome_v(), a@) == to_finally(old(self).plan_v(), res_view(res)),
    {
        match &self.plan.finally {
            Some(f) => {
                let (s, h) = copy_pair(f);
                self.stage = Stage::Finally;
                self.outcome = res;
                RunAction::RunScript(s, h, self.plan.args.copy())
            },
            None => {
                self.stage = Stage::Done;
                self.outcome = copy_result(&res);
                RunAction::Finish(res)
            },
        }
    }

    /// The action that writes the log (or goes on to `finally`).
    fn go_log(&mut self, res: Result<(), String>) -> (a: RunAction)
        ensures
            final(self).plan_v() == old(self).plan_v(),
            (final(self).stage_v(), final(self).outcome_v(), a@) == to_log(old(self).plan_v(), res_view(res)),
    {
        match &self.plan.logs {
            Some(l) => {
                if !self.plan.dry_run {
                    let p = l.0.clone();
                    let f = l.1.clone();
                    self.stage = Stage::Log;
                    self.outcome = copy_result(&res);
                    return RunAction::WriteLog(p, f, res);
                }
            },
            None => {},
        }
        self.go_finally(res)
    }

    /// Ends the run.
    fn go_finish(&mut self, res: Result<(), String>) -> (a: RunAction)
        ensures
            final(self).plan_v() == old(self).plan_v(),
            (final(self).stage_v(), final(self).outcome_v(), a@) == finish(res_view(res)),
    {
        self.stage = Stage::Done;
        self.outcome = copy_result(&res);
        RunAction::Finish(res)
    }

    /// Runs the script or shows it.
    fn go_main(&mut self) -> (a: RunAction)
        ensures
            final(self).plan_v() == old(self).plan_v(),
            (final(self).stage_v(), final(self).outcome_v(), a@) == to_main(old(self).plan_v()),
    {
        match &self.plan.script {
            Some(sc) => {
                let (s, h) = copy_pair(sc);
                self.outcome = Ok(());
                if self.plan.dry_run {
                    self.stage = Stage::DryRun;
                    RunAction::ShowDryRun(s)
                } else {
                    self.stage = Stage::Main;
                    RunAction::RunScript(s, h, self.plan.args.copy())
                }
            },
            None => self.go_finish(Err(String::from_str("Command has no script directive"))),
        }
    }

    /// Checks for a script and for privileges.
    fn go_privileges(&mut self) -> (a: RunAction)
        ensures
            final(self).plan_v() == old(self).plan_v(),
            (final(self).stage_v(), final(self).outcome_v(), a@) == to_privileges(old(self).plan_v()),
    {
        if self.plan.script.is_none() {
            return self.go_finish(Err(String::from_str("Command has no script directive")));
        }
        if self.plan.privileged && !self.plan.dry_run {
            self.stage = Stage::Privileges;
            self.outcome = Ok(());
            return RunAction::CheckPrivileges;
        }
        self.go_main()
    }

    /// Runs `before` where there is one.
    fn go_before(&mut self) -> (a: RunAction)
        ensures
            final(self).plan_v() == old(self).plan_v(),
            (final(self).stage_v(), final(self).outcome_v(), a@) == to_before(old(self).plan_v()),
    {
        match &self.plan.before {
            Some(b) => {
                let (s, h) = copy_pair(b);
                self.stage = Stage::Before;
                self.outcome = Ok(());
                if self.plan.dry_run {
                    RunAction::ShowDryRun(s)
                } else {
                    RunAction::RunScript(s, h, self.plan.args.copy())
                }
            },
            None => self.go_privileges(),
        }
    }

    /// Asks for confirmation where it is required.
    fn go_confirm(&mut self) -> (a: RunAction)
        ensures
            final(self).plan_v() == old(self).plan_v(),
            (final(self).stage_v(), final(self).outcome_v(), a@) == to_confirm(old(self).plan_v()),
    {
        match &self.plan.confirm {
            Some(m) => {
                let mc = m.clone();
                self.stage = Stage::Confirm;
                self.outcome = Ok(());
                RunAction::Confirm(mc)
            },
            None => self.go_before(),
        }
    }

    /// What follows the script's outcome.
    fn go_after_main(&mut self, r: Result<(), String>) -> (a: RunAction)
        ensures
            final(self).plan_v() == old(self).plan_v(),
            (final(self).stage_v(), final(self).outcome_v(), a@) == after_main(old(self).plan_v(), res_view(r)),
    {
        match r {
            Ok(()) => match &self.plan.after {
                Some(af) => {
                    let (s, h) = copy_pair(af);
                    self.stage = Stage::After;
                    self.outcome = Ok(());
                    RunAction::RunScript(s, h, self.plan.args.copy())
                },
                None => self.go_log(Ok(())),
            },
            Err(e) => match &self.plan.fallback {
                Some(f) => {
                    let mut fa = self.plan.args.copy();
                    fa.insert(String::from_str("SYSTEM_ERROR_MESSAGE"), e.clone());
                    fa.insert(String::from_str("error"), e);
                    let s = TemplateProcessor::process_vars(
                        f.0.as_str(),
                        &fa,
                        &self.plan.parent_args,
                        &self.plan.vars,
                        self.plan.now.as_str(),
                        self.plan.user.as_str(),
                    );
                    let h = f.1;
                    self.stage = Stage::Fallback;
                    self.outcome = Ok(());
                    RunAction::RunScript(s, h, fa)
                },
                None => self.go_log(Err(e)),
            },
        }
    }

    /// Starts the run: gives the first action.
    pub fn start(&mut self) -> (a: RunAction)
        requires
            old(self).stage_v() == Stage::Start,
        ensures
            final(self).plan_v() == old(self).plan_v(),
            (final(self).stage_v(), final(self).outcome_v(), a@) == to_start(old(self).plan_v()),
    {
        if self.plan.has_dependencies {
            self.stage = Stage::Dependencies;
            self.outcome = Ok(());
            RunAction::RunDependencies
        } else {
            self.go_confirm()
        }
    }

    /// Takes the event that the last action gave and returns the next
    /// action.
    pub fn resume(&mut self, event: RunEvent) -> (a: RunAction)
        ensures
            final(self).plan_v() == old(self).plan_v(),
            (final(self).stage_v(), final(self).outcome_v(), a@) == step_spec(
                old(self).plan_v(),
                old(self).stage_v(),
                old(self).outcome_v(),
                event@,
            ),
    {
        let r: Result<(), String> = match &event {
            RunEvent::Outcome(o) => copy_result(o),
            RunEvent::Answer(_) => Ok(()),
        };
        match self.stage {
            Stage::Start => {
                if self.plan.has_dependencies {
                    self.stage = Stage::Dependencies;
                    self.outcome = Ok(());
                    RunAction::RunDependencies
                } else {
                    self.go_confirm()
                }
            },
            Stage::Dependencies => match r {
                Err(e) => self.go_finish(Err(e)),
                Ok(()) => self.go_confirm(),
            },
            Stage::Confirm => match event {
                RunEvent::Answer(false) => self.go_finish(Ok(())),
                RunEvent::Outcome(Err(e)) => {
                    let m = prefixed("Confirmation prompt failed: ", &e);
                    self.go_finish(Err(m))
                },
                _ => self.go_before(),
            },
            Stage::Before => match r {
                Err(e) => {
                    let m = prefixed("Before script failed: ", &e);
                    self.go_finish(Err(m))
                },
                Ok(()) => self.go_privileges(),
            },
            Stage::Privileges => match r {
                Err(e) => self.go_finish(Err(e)),
                Ok(()) => self.go_main(),
            },
            Stage::DryRun => self.go_finish(Ok(())),
            Stage::Main => self.go_after_main(r),
            Stage::After => match r {
                Err(e) => {
                    let m = prefixed("After script failed: ", &e);
                    self.go_finish(Err(m))
                },
                Ok(()) => self.go_log(Ok(())),
            },
            Stage::Fallback => match r {
                Err(e) => {
                    let m = prefixed("Fallback script failed: ", &e);
                    self.go_finish(Err(m))
                },
                Ok(()) => self.go_log(Ok(())),
            },
            Stage::Log => {
                let o = copy_result(&self.outcome);
                self.go_finally(o)
            },
            Stage::Finally | Stage::Done => {
                let o = copy_result(&self.outcome);
                self.go_finish(o)
            },
        }
    }
}

/// A script that fails, where there is no fallback, fails the run with its
/// own message: the log and `finally` steps that follow cannot change the
/// outcome, whatever they report.
pub proof fn lemma_failure_without_fallback(p: RunPlan, e: Seq<char>, ev1: EventV, ev2: EventV)
    requires
        p.fallback is None,
    ensures
        ({
            let s1 = step_spec(p, Stage::Main, Ok(()), EventV::Outcome(Err(e)));
            let s2 = step_spec(p, s1.0, s1.1, ev1);
            let s3 = step_spec(p, s2.0, s2.1, ev2);
            &&& s1.2 is Finish ==> s1.2 == ActionV::Finish(Err(e))
            &&& s2.2 is Finish ==> s2.2 == ActionV::Finish(Err(e))
            &&& s3 == finish(Err(e))
        }),
{
}

/// A fallback that succeeds turns the script's failure into the run's
/// success; the fallback runs with the error message among its arguments.
pub proof fn lemma_fallback_recovers(p: RunPlan, e: Seq<char>, ev2: EventV, ev3: EventV)
    requires
        p.fallback is Some,
    ensures
        ({
            let s1 = step_spec(p, Stage::Main, Ok(()), EventV::Outcome(Err(e)));
            let s2 = step_spec(p, s1.0, s1.1, EventV::Outcome(Ok(())));
            let s3 = step_spec(p, s2.0, s2.1, ev2);
            let s4 = step_spec(p, s3.0, s3.1, ev3);
            &&& s1.0 == Stage::Fallback
            &&& s1.2 matches ActionV::Run(_, _, a) && crate::ast::assoc_get(a, "error"@) == Some(e)
            &&& s2.2 is Finish ==> s2.2 == ActionV::Finish(Ok(()))
            &&& s3.2 is Finish ==> s3.2 == ActionV::Finish(Ok(()))
            &&& s4 == finish(Ok(()))
        }),
{
    let fa1 = assoc_insert(p.args.entries_view(), "SYSTEM_ERROR_MESSAGE"@, e);
    crate::ast::lemma_assoc_get_insert(fa1, "error"@, e, "error"@);
}

/// In a dry run the script is shown and never run, and the run then
/// succeeds.
pub proof fn lemma_dry_run_shows_script(p: RunPlan, o: Result<(), Seq<char>>, ev: EventV)
    requires
        p.dry_run,
        p.script is Some,
    ensures
        to_privileges(p) == (Stage::DryRun, Ok::<(), Seq<char>>(()), ActionV::DryRun(p.script.unwrap().0@)),
        step_spec(p, Stage::DryRun, o, ev) == finish(Ok(())),
{
}

/// The stages a dry run passes through.
pub open spec fn dry_stage(s: Stage) -> bool {
    s is Start || s is Dependencies || s is Confirm || s is Before || s is Privileges || s is DryRun || s is Done
}

/// A dry run runs no script and writes no log: from each stage it passes
/// through, the next step runs nothing, logs nothing, and stays among
/// those stages.
pub proof fn lemma_dry_run_runs_nothing(p: RunPlan, s: Stage, o: Result<(), Seq<char>>, ev: EventV)
    requires
        p.dry_run,
        dry_stage(s),
    ensures
        !(step_spec(p, s, o, ev).2 is Run),
        !(step_spec(p, s, o, ev).2 is Log),
        dry_stage(step_spec(p, s, o, ev).0),
{
}

/// The actions of a run from stage `s` (with kept outcome `o`) as the
/// events `evs` are reported, one action for each event.
pub open spec fn trace_from(p: RunPlan, s: Stage, o: Result<(), Seq<char>>, evs: Seq<EventV>) -> Seq<ActionV>
    decreases evs.len(),
{
    if evs.len() == 0 {
        Seq::empty()
    } else {
        let st = step_spec(p, s, o, evs[0]);
        seq![st.2] + trace_from(p, st.0, st.1, evs.drop_first())
    }
}

/// Law (a dry run runs nothing): whatever events are reported, no action
/// of a dry run, from its start on, runs a script or writes a log.
pub proof fn lemma_dry_run_trace(p: RunPlan, s: Stage, o: Result<(), Seq<char>>, evs: Seq<EventV>)
    requires
        p.dry_run,
        dry_stage(s),
    ensures
        forall|i: int|
            0 <= i < trace_from(p, s, o, evs).len() ==> !(#[trigger] trace_from(p, s, o, evs)[i] is Run)
                && !(trace_from(p, s, o, evs)[i] is Log),
    decreases evs.len(),
{
    if evs.len() > 0 {
        let st = step_spec(p, s, o, evs[0]);
        lemma_dry_run_runs_nothing(p, s, o, evs[0]);
        lemma_dry_run_trace(p, st.0, st.1, evs.drop_first());
        let t = trace_from(p, s, o, evs);
        let r = trace_from(p, st.0, st.1, evs.drop_first());
        assert(t == seq![st.2] + r);
        assert forall|i: int| 0 <= i < t.len() implies !(#[trigger] t[i] is Run) && !(t[i] is Log) by {
            if i > 0 {
                assert(t[i] == r[i - 1]);
            }
        }
    }
}

/// `after` runs only when the script succeeds, and `fallback` only when it
/// fails.
pub proof fn lemma_after_or_fallback(p: RunPlan, e: Seq<char>)
    ensures
        after_main(p, Ok(())).0 != Stage::Fallback,
        after_main(p, Err(e)).0 != Stage::After,
        p.after is Some ==> after_main(p, Ok(())).0 == Stage::After,
        p.fallback is Some ==> after_main(p, Err(e)).0 == Stage::Fallback,
{
}

/// The value and hide flag of the entry named `k`.
pub open spec fn dir_lookup(m: Seq<DirEntryV>, k: Seq<char>) -> Option<(Seq<char>, bool)>
    decreases m.len(),
{
    if m.len() == 0 {
        None
    } else if m[0].0 == k {
        Some((m[0].1, m[0].2))
    } else {
        dir_lookup(m.drop_first(), k)
    }
}

/// A script-like directive of the command, else the one its parents pass
/// down.
pub open spec fn inherited(
    ds: Seq<DirectiveV>,
    pd: Seq<DirEntryV>,
    name: Seq<char>,
    os: Seq<char>,
    unix: bool,
) -> Option<(Seq<char>, bool)> {
    match best_hidden(ds, name, os, unix).0 {
        Some(p) => Some(p),
        None => dir_lookup(pd, name),
    }
}

/// A script processed as a template, with its hide flag.
pub open spec fn processed(
    o: Option<(Seq<char>, bool)>,
    args: Seq<(Seq<char>, Seq<char>)>,
    pargs: Seq<(Seq<char>, Seq<char>)>,
    vars: Seq<(Seq<char>, Seq<char>)>,
    now: Seq<char>,
    user: Seq<char>,
) -> Option<(Seq<char>, bool)> {
    match o {
        Some(p) => Some((process_spec(p.0, args, pargs, vars, now, user), p.1)),
        None => None,
    }
}

/// The model of a script with its hide flag.
pub open spec fn hidden_opt(o: Option<(String, bool)>) -> Option<(Seq<char>, bool)> {
    match o {
        Some(p) => Some((p.0@, p.1)),
        None => None,
    }
}

/// The entries with each value processed as a template.
pub open spec fn process_values(
    m: Seq<(Seq<char>, Seq<char>)>,
    args: Seq<(Seq<char>, Seq<char>)>,
    pargs: Seq<(Seq<char>, Seq<char>)>,
    vars: Seq<(Seq<char>, Seq<char>)>,
    now: Seq<char>,
    user: Seq<char>,
) -> Seq<(Seq<char>, Seq<char>)> {
    m.map_values(|e: (Seq<char>, Seq<char>)| (e.0, process_spec(e.1, args, pargs, vars, now, user)))
}

/// The call stack that a command with id `id` passes on.
pub open spec fn stack_entry(id: Seq<char>, stack: Option<Seq<char>>) -> Seq<char> {
    match stack {
        Some(s) => if s.len() == 0 {
            id
        } else {
            s + ","@ + id
        },
        None => id,
    }
}

/// The environment of a run: the global, parent and local variables and
/// constants, then the environment directives, all processed as templates;
/// then the call stack with the command added.
pub open spec fn run_env(
    gv: Seq<BindingV>,
    gc: Seq<BindingV>,
    ps: Seq<crate::ast::CommandV>,
    cv: crate::ast::CommandV,
    envd: Seq<(Seq<char>, Seq<char>)>,
    args: Seq<(Seq<char>, Seq<char>)>,
    pargs: Seq<(Seq<char>, Seq<char>)>,
    vars: Seq<(Seq<char>, Seq<char>)>,
    now: Seq<char>,
    user: Seq<char>,
    id: Seq<char>,
    stack: Option<Seq<char>>,
) -> Seq<(Seq<char>, Seq<char>)> {
    let base = insert_all(
        insert_all(
            insert_all(
                insert_all(insert_all(insert_all(Seq::empty(), gc), gv), all_consts(ps)),
                all_vars(ps),
            ),
            cv.local_constants,
        ),
        cv.local_variables,
    );
    let e = process_values(insert_all(base, envd), args, pargs, vars, now, user);
    if id.len() > 0 {
        assoc_insert(e, "NEST_CALL_STACK"@, stack_entry(id, stack))
    } else {
        e
    }
}

/// The model of an optional string slice.
pub open spec fn str_opt(o: Option<&str>) -> Option<Seq<char>> {
    match o {
        Some(s) => Some(s@),
        None => None,
    }
}

/// Appends the environment directives among `ds` to `out`.
fn append_env_directives(out: &mut Vec<Directive>, ds: &[Directive])
    ensures
        final(out)@.map_values(|d: Directive| d@) == old(out)@.map_values(|d: Directive| d@) + env_directives(
            ds@.map_values(|d: Directive| d@),
        ),
{
    let ghost ob = out@.map_values(|d: Directive| d@);
    let ghost dv = ds@.map_values(|d: Directive| d@);
    let mut j: usize = 0;
    assert(dv.take(0) =~= Seq::<DirectiveV>::empty());
    assert(ob + env_directives(dv.take(0)) =~= ob);
    while j < ds.len()
        invariant
            j <= ds@.len(),
            dv == ds@.map_values(|d: Directive| d@),
            out@.map_values(|d: Directive| d@) == ob + env_directives(dv.take(j as int)),
        decreases ds.len() - j,
    {
        let ghost before = out@.map_values(|d: Directive| d@);
        assert(dv.take(j + 1).drop_last() =~= dv.take(j as int));
        assert(dv.take(j + 1).last() == ds@[j as int]@);
        match &ds[j] {
            Directive::Env(k, v, h) => {
                out.push(Directive::Env(k.clone(), v.clone(), *h));
                assert(out@.map_values(|d: Directive| d@) =~= before.push(dv[j as int]));
                assert(ob + env_directives(dv.take(j as int)).push(dv[j as int]) =~= (ob
                    + env_directives(dv.take(j as int))).push(dv[j as int]));
            },
            Directive::EnvFile(p, h) => {
                out.push(Directive::EnvFile(p.clone(), *h));
                assert(out@.map_values(|d: Directive| d@) =~= before.push(dv[j as int]));
                assert(ob + env_directives(dv.take(j as int)).push(dv[j as int]) =~= (ob
                    + env_directives(dv.take(j as int))).push(dv[j as int]));
            },
            _ => {},
        }
        j += 1;
    }
    assert(dv.take(ds@.len() as int) =~= dv);
}

/// Looks up an inherited directive entry.
fn lookup_entry(m: &Vec<(String, String, bool)>, k: &str) -> (r: Option<(String, bool)>)
    ensures
        hidden_opt(r) == dir_lookup(crate::runtime::dir_entries_view(m@), k@),
{
    let ghost ev = crate::runtime::dir_entries_view(m@);
    let kc = chars_of(k);
    let mut i: usize = 0;
    assert(ev.skip(0) =~= ev);
    while i < m.len()
        invariant
            i <= m@.len(),
            kc@ == k@,
            ev == crate::runtime::dir_entries_view(m@),
            dir_lookup(ev, k@) == dir_lookup(ev.skip(i as int), k@),
        decreases m.len() - i,
    {
        assert(ev.skip(i as int).drop_first() =~= ev.skip(i + 1));
        assert(ev.skip(i as int)[0] == ev[i as int]);
        if crate::text::eq(&chars_of_string(&m[i].0), &kc) {
            return Some((m[i].1.clone(), m[i].2));
        }
        i += 1;
    }
    assert(ev.skip(i as int) =~= Seq::<DirEntryV>::empty());
    None
}

/// The command's own directive, else the inherited one.
fn own_or_inherited(
    ds: &[Directive],
    pd: &Vec<(String, String, bool)>,
    name: &str,
    host: &HostOs,
) -> (r: Option<(String, bool)>)
    ensures
        hidden_opt(r) == inherited(
            ds@.map_values(|d: Directive| d@),
            crate::runtime::dir_entries_view(pd@),
            name@,
            host.os@,
            host.unix,
        ),
{
    match DirectiveResolver::get_directive_value_with_hide(ds, name, host) {
        Some(p) => Some(p),
        None => lookup_entry(pd, name),
    }
}

/// Processes a script, keeping its hide flag.
fn process_opt(
    o: Option<(String, bool)>,
    args: &ArgMap,
    pargs: &ArgMap,
    vars: &ArgMap,
    now: &str,
    user: &str,
) -> (r: Option<(String, bool)>)
    ensures
        hidden_opt(r) == processed(
            hidden_opt(o),
            args.entries_view(),
            pargs.entries_view(),
            vars.entries_view(),
            now@,
            user@,
        ),
{
    match o {
        Some((s, h)) => Some((TemplateProcessor::process_vars(s.as_str(), args, pargs, vars, now, user), h)),
        None => None,
    }
}

/// Processes every value of `m` as a template.
fn process_all_values(m: &mut ArgMap, args: &ArgMap, pargs: &ArgMap, vars: &ArgMap, now: &str, user: &str)
    ensures
        final(m).entries_view() == process_values(
            old(m).entries_view(),
            args.entries_view(),
            pargs.entries_view(),
            vars.entries_view(),
            now@,
            user@,
        ),
{
    let ghost orig = m.entries_view();
    let n = m.len();
    let mut i: usize = 0;
    while i < n
        invariant
            i <= n,
            n == orig.len(),
            m.entries_view().len() == n,
            forall|j: int|
                0 <= j < i ==> #[trigger] m.entries_view()[j] == (
                    orig[j].0,
                    process_spec(orig[j].1, args.entries_view(), pargs.entries_view(), vars.entries_view(), now@, user@),
                ),
            forall|j: int| i <= j < n ==> #[trigger] m.entries_view()[j] == orig[j],
        decreases n - i,
    {
        let v = TemplateProcessor::process_vars(m.value_at(i).as_str(), args, pargs, vars, now, user);
        m.set_value_at(i, v);
        i += 1;
    }
    assert(m.entries_view() =~= process_values(
        orig,
        args.entries_view(),
        pargs.entries_view(),
        vars.entries_view(),
        now@,
        user@,
    ));
}

/// Adds the pairs of `src` to `m` in order.
fn insert_entries(m: &mut ArgMap, src: &ArgMap)
    ensures
        final(m).entries_view() == insert_all(old(m).entries_view(), src.entries_view()),
{
    let ghost sv = src.entries_view();
    let ghost m0 = m.entries_view();
    let mut i: usize = 0;
    assert(sv.take(0) =~= Seq::<(Seq<char>, Seq<char>)>::empty());
    while i < src.len()
        invariant
            i <= sv.len(),
            sv == src.entries_view(),
            m.entries_view() == insert_all(m0, sv.take(i as int)),
        decreases sv.len() - i,
    {
        assert(sv.take(i + 1).drop_last() =~= sv.take(i as int));
        assert(sv.take(i + 1).last() == sv[i as int]);
        m.insert(src.key_at(i).clone(), src.value_at(i).clone());
        i += 1;
    }
    assert(sv.take(sv.len() as int) =~= sv);
}

impl Runtime {
    /// Prepares the run of `command` at `command_path` with `args`: checks
    /// the call stack (`call_stack`, the chain of commands already running)
    /// and the `validate` rules, then gathers the scripts (the command's
    /// own `before`, `after`, `fallback`, `finally`, else its parents'),
    /// the environment and the working directory. `files` holds the
    /// contents of the `.env` files that could be read, `system` the system
    /// environment; `now` and `user` stand for `{{now}}` and `{{user}}`.
    pub fn prepare_run(
        &self,
        command: &Command,
        args: &ArgMap,
        command_path: &[String],
        parent_args: &ArgMap,
        dry_run: bool,
        host: &HostOs,
        files: &ArgMap,
        system: &ArgMap,
        call_stack: Option<&str>,
        now: &str,
        user: &str,
    ) -> (r: Result<RunPlan, String>)
        ensures
            ({
                let cv = command@;
                let dv = cv.directives;
                let path = command_path@.map_values(|s: String| s@);
                let ps = parents_of(self.commands_v(), path);
                let gv = self.variables_v();
                let gc = self.constants_v();
                let id = join(path, ":"@);
                let envd = directive_env(all_env(ps) + env_directives(dv), files.entries_view(), system.entries_view(), Seq::empty());
                let vvars = var_map_spec(gc, gv, all_consts(ps), all_vars(ps), Seq::empty(), Seq::empty());
                let vars = var_map_spec(gc, gv, all_consts(ps), all_vars(ps), cv.local_constants, cv.local_variables);
                let pd = parent_dirs(ps, host.os@, host.unix);
                let stack_err = match str_opt(call_stack) {
                    Some(st) => call_stack_spec(id, st),
                    None => None,
                };
                let valid = validate_spec(
                    validations(dv),
                    args.entries_view(),
                    envd,
                    system.entries_view(),
                    all_vars(ps),
                    gv,
                    vvars,
                    parent_args.entries_view(),
                    join(path, " "@),
                    now@,
                    user@,
                );
                let a = args.entries_view();
                let pa = parent_args.entries_view();
                match r {
                    Err(m) => stack_err == Some(m@) || (stack_err is None && valid == Err::<(), Seq<char>>(m@)),
                    Ok(p) => {
                        &&& stack_err is None
                        &&& valid is Ok
                        &&& p.has_dependencies == ({
                            let i = first_where(dv, |d: DirectiveV| d is Depends);
                            0 <= i < dv.len() && dv[i]->Depends_0.len() > 0
                        })
                        &&& opt_view(p.confirm) == if dry_run {
                            None
                        } else {
                            let i = first_where(dv, |d: DirectiveV| d is RequireConfirm);
                            if 0 <= i < dv.len() {
                                Some(dv[i]->RequireConfirm_0)
                            } else {
                                None
                            }
                        }
                        &&& hidden_opt(p.before) == processed(
                            inherited(dv, pd, "before"@, host.os@, host.unix),
                            a,
                            pa,
                            vars,
                            now@,
                            user@,
                        )
                        &&& hidden_opt(p.script) == processed(
                            best_hidden(dv, "script"@, host.os@, host.unix).0,
                            a,
                            pa,
                            vars,
                            now@,
                            user@,
                        )
                        &&& hidden_opt(p.after) == processed(
                            inherited(dv, pd, "after"@, host.os@, host.unix),
                            a,
                            pa,
                            vars,
                            now@,
                            user@,
                        )
                        &&& hidden_opt(p.fallback) == inherited(dv, pd, "fallback"@, host.os@, host.unix)
                        &&& hidden_opt(p.finally) == processed(
                            inherited(dv, pd, "finally"@, host.os@, host.unix),
                            a,
                            pa,
                            vars,
                            now@,
                            user@,
                        )
                        &&& p.privileged == ({
                            let i = first_where(dv, |d: DirectiveV| d is Privileged);
                            0 <= i < dv.len() && dv[i]->Privileged_0
                        })
                        &&& p.dry_run == dry_run
                        &&& match p.logs {
                            Some(l) => {
                                let i = first_where(dv, |d: DirectiveV| d is Logs);
                                0 <= i < dv.len() && l.0@ == dv[i]->Logs_0 && l.1@ == dv[i]->Logs_1
                            },
                            None => !(0 <= first_where(dv, |d: DirectiveV| d is Logs) < dv.len()),
                        }
                        &&& p.env.entries_view() == run_env(
                            gv,
                            gc,
                            ps,
                            cv,
                            envd,
                            a,
                            pa,
                            vars,
                            now@,
                            user@,
                            id,
                            str_opt(call_stack),
                        )
                        &&& match best_value(dv, "cwd"@, host.os@, host.unix).0 {
                            Some(c) => opt_view(p.cwd) == Some(c),
                            None => match dir_lookup(pd, "cwd"@) {
                                Some(e) => opt_view(p.cwd) == Some(e.0),
                                None => match cv.source_file {
                                    Some(sf) => opt_view(p.cwd) == crate::merge::path_parent_of(sf),
                                    None => p.cwd is None,
                                },
                            },
                        }
                        &&& p.args.entries_view() == a
                        &&& p.parent_args.entries_view() == pa
                        &&& p.vars.entries_view() == vars
                        &&& p.now@ == now@
                        &&& p.user@ == user@
                    },
                }
            }),
    {
        let id_chars = crate::runtime::join_strings_vec(command_path, ":");
        match call_stack {
            Some(st) => {
                let id = string_of(&id_chars);
                match check_call_stack(id.as_str(), st) {
                    Some(m) => return Err(m),
                    None => {},
                }
            },
            None => {},
        }
        let ds = command.directives.as_slice();
        let (parent_vars, parent_consts) = self.collect_parent_variables(command_path);
        let mut env_dirs = self.collect_parent_env_directives(command_path);
        append_env_directives(&mut env_dirs, ds);
        let env_vars = EnvironmentManager::extract_env_vars(env_dirs.as_slice(), files, system);
        let rules = DirectiveResolver::get_validate_directives(ds);
        {
            let vctx = TemplateContext {
                global_variables: self.variables().as_slice(),
                global_constants: self.constants().as_slice(),
                local_variables: &[],
                local_constants: &[],
                parent_variables: parent_vars.as_slice(),
                parent_constants: parent_consts.as_slice(),
            };
            assert(vctx.local_variables@.map_values(|v: Variable| v@) =~= Seq::<BindingV>::empty());
            assert(vctx.local_constants@.map_values(|v: Constant| v@) =~= Seq::<BindingV>::empty());
            match RuntimeValidator::validate(
                rules.as_slice(),
                args,
                &env_vars,
                system,
                &vctx,
                command_path,
                parent_args,
                now,
                user,
            ) {
                Err(m) => return Err(m),
                Ok(()) => {},
            }
        }
        let (deps, _parallel) = DirectiveResolver::get_depends_directive(ds);
        let has_dependencies = deps.len() > 0;
        let confirm = if dry_run {
            None
        } else {
            DirectiveResolver::get_require_confirm_directive(ds)
        };
        let pd = self.collect_parent_directives(command_path, host);
        let cwd = match DirectiveResolver::get_directive_value(ds, "cwd", host) {
            Some(c) => Some(c),
            None => match lookup_entry(&pd, "cwd") {
                Some((c, _)) => Some(c),
                None => match &command.source_file {
                    Some(sf) => crate::merge::path_parent(sf),
                    None => None,
                },
            },
        };
        let privileged = DirectiveResolver::get_privileged_directive(ds);
        let logs = DirectiveResolver::get_logs_directive(ds);
        let ctx = TemplateContext {
            global_variables: self.variables().as_slice(),
            global_constants: self.constants().as_slice(),
            local_variables: command.local_variables.as_slice(),
            local_constants: command.local_constants.as_slice(),
            parent_variables: parent_vars.as_slice(),
            parent_constants: parent_consts.as_slice(),
        };
        let vars = TemplateProcessor::build_var_map(&ctx);
        let mut env = ArgMap::new();
        EnvironmentManager::export_all_vars(&mut env, self.variables().as_slice(), self.constants().as_slice());
        EnvironmentManager::export_all_vars(&mut env, parent_vars.as_slice(), parent_consts.as_slice());
        EnvironmentManager::export_all_vars(
            &mut env,
            command.local_variables.as_slice(),
            command.local_constants.as_slice(),
        );
        insert_entries(&mut env, &env_vars);
        process_all_values(&mut env, args, parent_args, &vars, now, user);
        if id_chars.len() > 0 {
            let entry = match call_stack {
                Some(st) => {
                    if st.unicode_len() == 0 {
                        id_chars.clone()
                    } else {
                        let mut e = chars_of(st);
                        e.push(',');
                        push_all(&mut e, &id_chars);
                        proof {
                            reveal_strlit(",");
                        }
                        assert(e@ =~= st@ + ","@ + id_chars@);
                        e
                    }
                },
                None => id_chars.clone(),
            };
            env.insert(String::from_str("NEST_CALL_STACK"), string_of(&entry));
        }
        let before = process_opt(own_or_inherited(ds, &pd, "before", host), args, parent_args, &vars, now, user);
        let script = process_opt(
            DirectiveResolver::get_directive_value_with_hide(ds, "script", host),
            args,
            parent_args,
            &vars,
            now,
            user,
        );
        let after = process_opt(own_or_inherited(ds, &pd, "after", host), args, parent_args, &vars, now, user);
        let fallback = own_or_inherited(ds, &pd, "fallback", host);
        let finally = process_opt(own_or_inherited(ds, &pd, "finally", host), args, parent_args, &vars, now, user);
        Ok(RunPlan {
            has_dependencies,
            confirm,
            before,
            script,
            after,
            fallback,
            finally,
            privileged,
            dry_run,
            logs,
            env,
            cwd,
            args: args.copy(),
            parent_args: parent_args.copy(),
            vars,
            now: String::from_str(now),
            user: String::from_str(user),
        })
    }
}

} // verus!
