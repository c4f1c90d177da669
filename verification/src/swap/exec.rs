//! Privileged operations. Every change to the system goes through the
//! swap-control helper, run with `pkexec` so that one polkit action covers
//! them all. The library describes what to run, as `Request`s grouped in
//! `Plan`s, and decides from each outcome how to go on; the caller runs them.
use vstd::prelude::*;
use crate::text::{owned, strings_view, trim, trim_string};

verus! {

/// The helper program that performs privileged operations.
pub const HELPER: &'static str = "/usr/lib/anduinos-swapcontrol/helper";

/// Exit status of `pkexec` when the user dismissed the authentication.
pub const PKEXEC_CANCELLED: i32 = 126;

/// One privileged operation.
#[derive(Debug, Clone)]
pub enum Request {
    /// `pkexec HELPER <subcmd> <args…>`; its result is the standard output.
    Helper { subcmd: String, args: Vec<String> },
    /// `pkexec HELPER tee <path>`, fed `value` and a newline on standard input;
    /// its result is the empty string.
    WriteFile { path: String, value: String },
}

/// What a `Request` asks for, as plain sequences.
pub enum RequestView {
    Helper { subcmd: Seq<char>, args: Seq<Seq<char>> },
    WriteFile { path: Seq<char>, value: Seq<char> },
}

impl View for Request {
    type V = RequestView;

    open spec fn view(&self) -> RequestView {
        match self {
            Request::Helper { subcmd, args } => RequestView::Helper {
                subcmd: subcmd@,
                args: strings_view(args@),
            },
            Request::WriteFile { path, value } => RequestView::WriteFile {
                path: path@,
                value: value@,
            },
        }
    }
}

/// What a failed step does to the rest of its plan.
#[derive(Debug, Clone, Copy, PartialEq, Eq, Structural)]
pub enum OnError {
    /// The plan ends with the step's error.
    Stop,
    /// The failure is ignored and the plan goes on.
    Ignore,
}

/// A request and what its failure means.
#[derive(Debug, Clone)]
pub struct Step {
    pub request: Request,
    pub on_error: OnError,
}

/// What a plan that ran to its end reports.
#[derive(Debug, Clone)]
pub enum Finish {
    /// The result of the last step.
    LastOutput,
    /// A fixed message.
    Message(String),
}

/// A sequence of privileged steps.
#[derive(Debug, Clone)]
pub struct Plan {
    pub steps: Vec<Step>,
    pub finish: Finish,
}

pub struct StepView {
    pub request: RequestView,
    pub on_error: OnError,
}

pub enum FinishView {
    LastOutput,
    Message(Seq<char>),
}

pub struct PlanView {
    pub steps: Seq<StepView>,
    pub finish: FinishView,
}

impl View for Step {
    type V = StepView;

    open spec fn view(&self) -> StepView {
        StepView { request: self.request@, on_error: self.on_error }
    }
}

impl View for Plan {
    type V = PlanView;

    open spec fn view(&self) -> PlanView {
        PlanView {
            steps: self.steps@.map_values(|s: Step| s@),
            finish: match self.finish {
                Finish::LastOutput => FinishView::LastOutput,
                Finish::Message(m) => FinishView::Message(m@),
            },
        }
    }
}

/// `helper <subcmd> <args…>`.
pub open spec fn helper(subcmd: Seq<char>, args: Seq<Seq<char>>) -> RequestView {
    RequestView::Helper { subcmd, args }
}

/// `helper tee <path>` with `value`.
pub open spec fn write_file(path: Seq<char>, value: Seq<char>) -> RequestView {
    RequestView::WriteFile { path, value }
}

/// A step whose failure ends the plan.
pub open spec fn must(r: RequestView) -> StepView {
    StepView { request: r, on_error: OnError::Stop }
}

/// A step whose failure is ignored.
pub open spec fn may(r: RequestView) -> StepView {
    StepView { request: r, on_error: OnError::Ignore }
}

/// How a plan goes on after one of its steps.
#[derive(Debug)]
pub enum Progress {
    /// Run the step with this index.
    Next(usize),
    /// The plan is over, with this result.
    Done(Result<String, String>),
}

/// The result a finished plan reports, given the result of its last step.
pub open spec fn finish_result(
    finish: FinishView,
    last: Result<Seq<char>, Seq<char>>,
) -> Result<Seq<char>, Seq<char>> {
    match finish {
        FinishView::LastOutput => last,
        FinishView::Message(m) => Ok(m),
    }
}

pub open spec fn result_view(r: Result<String, String>) -> Result<Seq<char>, Seq<char>> {
    match r {
        Ok(s) => Ok(s@),
        Err(e) => Err(e@),
    }
}

/// Where a plan goes after step `index` returned `result`: a failure of a
/// `Stop` step ends it with that failure; otherwise the next step runs, and
/// after the last one the plan reports according to its `finish`.
pub open spec fn advance(plan: PlanView, index: int, result: Result<Seq<char>, Seq<char>>) -> (
    bool,
    int,
    Result<Seq<char>, Seq<char>>,
) {
    if result is Err && plan.steps[index].on_error == OnError::Stop {
        (true, 0, result)
    } else if index + 1 < plan.steps.len() {
        (false, index + 1, result)
    } else {
        (true, 0, finish_result(plan.finish, result))
    }
}

pub open spec fn progress_view(p: Progress) -> (bool, int, Result<Seq<char>, Seq<char>>) {
    match p {
        Progress::Next(i) => (false, i as int, Ok(Seq::empty())),
        Progress::Done(r) => (true, 0, result_view(r)),
    }
}

/// Decides how `plan` goes on after step `index` returned `result`.
pub fn plan_advance(plan: &Plan, index: usize, result: Result<String, String>) -> (p: Progress)
    requires
        index < plan.steps.len(),
    ensures
        advance(plan@, index as int, result_view(result)).0 == progress_view(p).0,
        advance(plan@, index as int, result_view(result)).0 ==> progress_view(p).2 == advance(
            plan@,
            index as int,
            result_view(result),
        ).2,
        !advance(plan@, index as int, result_view(result)).0 ==> progress_view(p).1 == advance(
            plan@,
            index as int,
            result_view(result),
        ).1,
{
    let stop = match plan.steps[index].on_error {
        OnError::Stop => true,
        OnError::Ignore => false,
    };
    assert(plan@.steps[index as int] == plan.steps@[index as int]@);
    if result.is_err() && stop {
        Progress::Done(result)
    } else if index + 1 < plan.steps.len() {
        Progress::Next(index + 1)
    } else {
        match &plan.finish {
            Finish::LastOutput => Progress::Done(result),
            Finish::Message(m) => Progress::Done(Ok(m.clone())),
        }
    }
}

/// Result of a helper run: its standard output on success; a cancelled
/// authentication; otherwise the trimmed standard error, or the trimmed
/// standard output when standard error is empty.
pub open spec fn helper_result(
    success: bool,
    code: Option<i32>,
    stdout: Seq<char>,
    stderr: Seq<char>,
) -> Result<Seq<char>, Seq<char>> {
    if success {
        Ok(stdout)
    } else if code == Some(PKEXEC_CANCELLED) {
        Err("Authentication cancelled"@)
    } else if stderr.len() == 0 {
        Err(trim(stdout))
    } else {
        Err(trim(stderr))
    }
}

/// Interprets how a helper run ended.
pub fn helper_outcome(success: bool, code: Option<i32>, stdout: String, stderr: String) -> (r:
    Result<String, String>)
    ensures
        result_view(r) == helper_result(success, code, stdout@, stderr@),
{
    if success {
        Ok(stdout)
    } else if code == Some(PKEXEC_CANCELLED) {
        Err(owned("Authentication cancelled"))
    } else if stderr.as_str().is_empty() {
        Err(trim_string(stdout.as_str()))
    } else {
        Err(trim_string(stderr.as_str()))
    }
}

/// Result of a `tee` run: the empty string on success; a cancelled
/// authentication; otherwise the trimmed standard error.
pub open spec fn write_result(success: bool, code: Option<i32>, stderr: Seq<char>) -> Result<
    Seq<char>,
    Seq<char>,
> {
    if success {
        Ok(Seq::empty())
    } else if code == Some(PKEXEC_CANCELLED) {
        Err("Authentication cancelled"@)
    } else {
        Err(trim(stderr))
    }
}

/// Interprets how a `tee` run ended.
pub fn write_outcome(success: bool, code: Option<i32>, stderr: String) -> (r: Result<
    String,
    String,
>)
    ensures
        result_view(r) == write_result(success, code, stderr@),
{
    if success {
        Ok(String::new())
    } else if code == Some(PKEXEC_CANCELLED) {
        Err(owned("Authentication cancelled"))
    } else {
        Err(trim_string(stderr.as_str()))
    }
}

/// Command line that runs a request: the helper, the subcommand (`tee` for a
/// file write) and its arguments.
pub open spec fn request_argv(r: RequestView) -> Seq<Seq<char>> {
    match r {
        RequestView::Helper { subcmd, args } => seq![HELPER@, subcmd] + args,
        RequestView::WriteFile { path, value } => seq![HELPER@, "tee"@, path],
    }
}

/// The command line (after `pkexec`) that runs `r`.
pub fn argv(r: &Request) -> (v: Vec<String>)
    ensures
        strings_view(v@) == request_argv(r@),
{
    let mut v: Vec<String> = Vec::new();
    v.push(owned(HELPER));
    match r {
        Request::Helper { subcmd, args } => {
            v.push(subcmd.clone());
            let mut i: usize = 0;
            while i < args.len()
                invariant
                    i <= args.len(),
                    strings_view(v@) == seq![HELPER@, subcmd@] + strings_view(args@.take(i as int)),
                decreases args.len() - i,
            {
                let ghost old_v = v@;
                v.push(args[i].clone());
                assert(strings_view(v@) =~= strings_view(old_v).push(args@[i as int]@));
                assert(strings_view(args@.take(i + 1)) =~= strings_view(args@.take(i as int)).push(
                    args@[i as int]@,
                ));
                assert(strings_view(v@) =~= seq![HELPER@, subcmd@] + strings_view(
                    args@.take(i + 1),
                ));
                i += 1;
            }
            assert(args@.take(args.len() as int) =~= args@);
            assert(strings_view(v@) =~= request_argv(r@));
        },
        Request::WriteFile { path, value } => {
            v.push(owned("tee"));
            v.push(path.clone());
            assert(strings_view(v@) =~= request_argv(r@));
        },
    }
    v
}

/// `helper <subcmd> <args…>` built from string literals.
pub fn helper_request(subcmd: &str, args: Vec<String>) -> (r: Request)
    ensures
        r@ == helper(subcmd@, strings_view(args@)),
{
    Request::Helper { subcmd: owned(subcmd), args }
}

/// A vector holding one string.
pub fn one(a: &str) -> (v: Vec<String>)
    ensures
        strings_view(v@) == seq![a@],
{
    let mut v = Vec::new();
    v.push(owned(a));
    assert(strings_view(v@) =~= seq![a@]);
    v
}

/// A vector holding two strings.
pub fn two(a: &str, b: &str) -> (v: Vec<String>)
    ensures
        strings_view(v@) == seq![a@, b@],
{
    let mut v = Vec::new();
    v.push(owned(a));
    v.push(owned(b));
    assert(strings_view(v@) =~= seq![a@, b@]);
    v
}

/// A vector holding three strings.
pub fn three(a: &str, b: &str, c: &str) -> (v: Vec<String>)
    ensures
        strings_view(v@) == seq![a@, b@, c@],
{
    let mut v = Vec::new();
    v.push(owned(a));
    v.push(owned(b));
    v.push(owned(c));
    assert(strings_view(v@) =~= seq![a@, b@, c@]);
    v
}

/// Loads a kernel module: `helper modprobe <module>`.
pub fn run_modprobe(module: &str) -> (r: Request)
    ensures
        r@ == helper("modprobe"@, seq![module@]),
{
    helper_request("modprobe", one(module))
}

/// A plan of one step whose failure is the plan's failure and whose output is
/// the plan's result.
pub fn single(r: Request) -> (p: Plan)
    ensures
        p@ == (PlanView { steps: seq![must(r@)], finish: FinishView::LastOutput }),
{
    let mut steps = Vec::new();
    steps.push(Step { request: r, on_error: OnError::Stop });
    let p = Plan { steps, finish: Finish::LastOutput };
    assert(p@.steps =~= seq![must(r@)]);
    p
}

/// Appends a step to a plan under construction.
pub fn add_step(steps: &mut Vec<Step>, r: Request, on_error: OnError)
    ensures
        final(steps)@.map_values(|s: Step| s@) == old(steps)@.map_values(|s: Step| s@).push(
            StepView { request: r@, on_error },
        ),
{
    let ghost before = steps@;
    steps.push(Step { request: r, on_error });
    assert(steps@.map_values(|s: Step| s@) =~= before.map_values(|s: Step| s@).push(
        StepView { request: r@, on_error },
    ));
}

} // verus!
