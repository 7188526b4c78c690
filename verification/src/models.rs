//! The Flight/Hangar data model and the preflight verification engine.
//!
//! A `Flight` wraps an external command plus a pass/fail criterion over its
//! captured output; a `Hangar` is a named, ordered collection of flights.
//! Spawning the command itself is outside work: the surrounding program runs
//! it and hands back a [`RunOutcome`], and everything that judges an outcome
//! or schedules the next flight is verified here.

use vstd::prelude::*;

use crate::text::{contains_substr, is_substring, split_on, split_spec, str_eq};

verus! {

/// Which captured stream a flight's success criterion inspects.
#[derive(PartialEq, Eq, Structural, Clone, Copy, Debug)]
pub enum OutputStream {
    Stdout,
    Stderr,
}

/// What invoking an external program produced: its two captured streams
/// decoded as text, a failure to invoke it at all (carrying the underlying
/// error description), or output that could not be decoded as text.
#[derive(Debug)]
pub enum RunOutcome {
    Captured { stdout: String, stderr: String },
    InvocationFailed { detail: String },
    InvalidOutput,
}

/// The mathematical value of a [`RunOutcome`].
pub enum RunOutcomeSpec {
    Captured { stdout: Seq<char>, stderr: Seq<char> },
    InvocationFailed { detail: Seq<char> },
    InvalidOutput,
}

impl View for RunOutcome {
    type V = RunOutcomeSpec;

    open spec fn view(&self) -> RunOutcomeSpec {
        match self {
            RunOutcome::Captured { stdout, stderr } => RunOutcomeSpec::Captured {
                stdout: stdout@,
                stderr: stderr@,
            },
            RunOutcome::InvocationFailed { detail } => RunOutcomeSpec::InvocationFailed {
                detail: detail@,
            },
            RunOutcome::InvalidOutput => RunOutcomeSpec::InvalidOutput,
        }
    }
}

/// A single preflight check: an executable, its arguments, and the criterion
/// that judges the captured output. `package_name` and `reinstall` are inert
/// remediation data: stored for reporting, never executed here.
#[derive(Debug)]
pub struct Flight {
    pub name: String,
    pub flight_exec: String,
    pub preflight_args: Vec<String>,
    pub stream: OutputStream,
    pub flag: String,
    pub package_name: String,
    pub reinstall: String,
}

/// The mathematical value of a [`Flight`].
pub struct FlightSpec {
    pub name: Seq<char>,
    pub flight_exec: Seq<char>,
    pub preflight_args: Seq<Seq<char>>,
    pub stream: OutputStream,
    pub flag: Seq<char>,
    pub package_name: Seq<char>,
    pub reinstall: Seq<char>,
}

impl View for Flight {
    type V = FlightSpec;

    open spec fn view(&self) -> FlightSpec {
        FlightSpec {
            name: self.name@,
            flight_exec: self.flight_exec@,
            preflight_args: self.preflight_args@.map_values(|a: String| a@),
            stream: self.stream,
            flag: self.flag@,
            package_name: self.package_name@,
            reinstall: self.reinstall@,
        }
    }
}

impl FlightSpec {
    /// A flight is well formed when its identity and its executable are both
    /// given: neither may be empty.
    pub open spec fn wf(self) -> bool {
        self.name.len() > 0 && self.flight_exec.len() > 0
    }

    /// The text of the stream this flight's criterion inspects.
    pub open spec fn stream_text(self, stdout: Seq<char>, stderr: Seq<char>) -> Seq<char> {
        match self.stream {
            OutputStream::Stdout => stdout,
            OutputStream::Stderr => stderr,
        }
    }

    /// The verdict on one run. A failed invocation or undecodable output never
    /// passes. A captured run passes exactly when standard error is empty and
    /// the configured stream's text holds `flag` as a literal substring.
    pub open spec fn check_ok(self, outcome: RunOutcomeSpec) -> bool {
        match outcome {
            RunOutcomeSpec::Captured { stdout, stderr } => {
                &&& stderr.len() == 0
                &&& is_substring(self.stream_text(stdout, stderr), self.flag)
            },
            _ => false,
        }
    }
}

/// The value bound to `key` in an association list of answers: the first
/// binding wins (keys are question ids, distinct in practice).
pub open spec fn lookup_spec(data: Seq<(String, String)>, key: Seq<char>) -> Option<Seq<char>>
    decreases data.len(),
{
    if data.len() == 0 {
        None
    } else if data[0].0@ == key {
        Some(data[0].1@)
    } else {
        lookup_spec(data.skip(1), key)
    }
}

/// Find the answer stored under `key`.
pub fn lookup(data: &Vec<(String, String)>, key: &str) -> (r: Option<String>)
    ensures
        match r {
            Some(v) => lookup_spec(data@, key@) == Some(v@),
            None => lookup_spec(data@, key@) is None,
        },
{
    let mut i: usize = 0;
    proof {
        assert(data@.skip(0) =~= data@);
    }
    while i < data.len()
        invariant
            i <= data@.len(),
            lookup_spec(data@, key@) == lookup_spec(data@.skip(i as int), key@),
        decreases data@.len() - i,
    {
        if str_eq(data[i].0.as_str(), key) {
            return Some(data[i].1.clone());
        }
        proof {
            assert(data@.skip(i as int).skip(1) =~= data@.skip(i + 1));
        }
        i = i + 1;
    }
    None
}

/// The stream named by a raw answer: the exact words `stdout` and `stderr`
/// are recognised, nothing else.
pub open spec fn parse_stream(s: Seq<char>) -> Option<OutputStream> {
    if s == "stdout"@ {
        Some(OutputStream::Stdout)
    } else if s == "stderr"@ {
        Some(OutputStream::Stderr)
    } else {
        None
    }
}

/// The flight described by a raw answer mapping, if it describes one: every
/// key must be present, name and executable must be non-empty, the stream
/// must name a real stream, and the arguments are the `|`-separated pieces of
/// the `preflight_args` answer.
pub open spec fn flight_of_answers(data: Seq<(String, String)>) -> Option<FlightSpec> {
    match (
        lookup_spec(data, "flight_name"@),
        lookup_spec(data, "flight_exec"@),
        lookup_spec(data, "preflight_args"@),
        lookup_spec(data, "stream"@),
        lookup_spec(data, "flag"@),
        lookup_spec(data, "package_name"@),
        lookup_spec(data, "reinstall"@),
    ) {
        (
            Some(name),
            Some(executable),
            Some(args),
            Some(stream),
            Some(flag),
            Some(package_name),
            Some(reinstall),
        ) => {
            if name.len() == 0 || executable.len() == 0 {
                None
            } else {
                match parse_stream(stream) {
                    Some(st) => Some(
                        FlightSpec {
                            name,
                            flight_exec: executable,
                            preflight_args: split_spec(args, '|'),
                            stream: st,
                            flag,
                            package_name,
                            reinstall,
                        },
                    ),
                    None => None,
                }
            }
        },
        _ => None,
    }
}

impl Flight {
    /// Build a flight from the raw answers to the flight-creation
    /// questionnaire, given as key/answer pairs. Fails (with `None`) exactly
    /// when the answers do not describe a well-formed flight.
    pub fn new(data: Vec<(String, String)>) -> (r: Option<Flight>)
        ensures
            match r {
                Some(f) => flight_of_answers(data@) == Some(f@) && f@.wf(),
                None => flight_of_answers(data@) is None,
            },
    {
        let name = match lookup(&data, "flight_name") {
            Some(v) => v,
            None => { return None; },
        };
        let flight_exec = match lookup(&data, "flight_exec") {
            Some(v) => v,
            None => { return None; },
        };
        let args = match lookup(&data, "preflight_args") {
            Some(v) => v,
            None => { return None; },
        };
        let stream_name = match lookup(&data, "stream") {
            Some(v) => v,
            None => { return None; },
        };
        let flag = match lookup(&data, "flag") {
            Some(v) => v,
            None => { return None; },
        };
        let package_name = match lookup(&data, "package_name") {
            Some(v) => v,
            None => { return None; },
        };
        let reinstall = match lookup(&data, "reinstall") {
            Some(v) => v,
            None => { return None; },
        };
        if name.as_str().is_empty() || flight_exec.as_str().is_empty() {
            return None;
        }
        let stream = if str_eq(stream_name.as_str(), "stdout") {
            OutputStream::Stdout
        } else if str_eq(stream_name.as_str(), "stderr") {
            OutputStream::Stderr
        } else {
            return None;
        };
        let preflight_args = split_on(args.as_str(), '|');
        Some(Flight { name, flight_exec, preflight_args, stream, flag, package_name, reinstall })
    }

    /// Judge one run of this flight from what invoking it produced.
    pub fn check(&self, outcome: &RunOutcome) -> (r: bool)
        ensures
            r == self@.check_ok(outcome@),
    {
        match outcome {
            RunOutcome::Captured { stdout, stderr } => {
                if !stderr.as_str().is_empty() {
                    return false;
                }
                let text = match self.stream {
                    OutputStream::Stdout => stdout,
                    OutputStream::Stderr => stderr,
                };
                contains_substr(text.as_str(), self.flag.as_str())
            },
            _ => false,
        }
    }
}

/// Why constructing a hangar failed: the required name was absent or empty,
/// the description was absent, or a stored hangar file was not usable.
#[derive(PartialEq, Eq, Structural, Clone, Copy, Debug)]
pub enum HangarCreateError {
    NoNameGiven,
    NoDescriptionGiven,
    InvalidFile,
}

/// Why constructing a flight failed: the raw answers did not describe a
/// well-formed flight.
#[derive(PartialEq, Eq, Structural, Clone, Copy, Debug)]
pub enum FlightCreateError {
    InvalidParameter,
}

/// A named, described, ordered collection of flights. Insertion order is
/// significant: it is the preflight execution order and the menu display
/// order.
#[derive(Debug)]
pub struct Hangar {
    pub name: String,
    pub description: String,
    pub flights: Vec<Flight>,
}

/// The mathematical value of a [`Hangar`].
pub struct HangarSpec {
    pub name: Seq<char>,
    pub description: Seq<char>,
    pub flights: Seq<FlightSpec>,
}

impl View for Hangar {
    type V = HangarSpec;

    open spec fn view(&self) -> HangarSpec {
        HangarSpec {
            name: self.name@,
            description: self.description@,
            flights: self.flights@.map_values(|f: Flight| f@),
        }
    }
}

impl HangarSpec {
    /// A hangar is well formed when its name is given: it may not be empty.
    pub open spec fn wf(self) -> bool {
        self.name.len() > 0
    }
}

/// What the preflight engine asks for next: run the flight at `index`, or
/// stop, the whole sequence having passed or failed.
#[derive(PartialEq, Eq, Structural, Clone, Copy, Debug)]
pub enum PreflightStep {
    Run { index: usize },
    Done { passed: bool },
}

impl HangarSpec {
    /// Where a preflight run begins: at the first flight, or, with no flights
    /// to run, already passed.
    pub open spec fn preflight_start_spec(self) -> PreflightStep {
        if self.flights.len() == 0 {
            PreflightStep::Done { passed: true }
        } else {
            PreflightStep::Run { index: 0 }
        }
    }

    /// Where a preflight run goes after the flight at `index` produced
    /// `outcome`: a failing flight ends the whole sequence at once with an
    /// overall failure; a passing one hands over to the next flight, or ends
    /// with an overall pass after the last.
    pub open spec fn preflight_next_spec(self, index: int, outcome: RunOutcomeSpec) -> PreflightStep {
        if !self.flights[index].check_ok(outcome) {
            PreflightStep::Done { passed: false }
        } else if index + 1 == self.flights.len() {
            PreflightStep::Done { passed: true }
        } else {
            PreflightStep::Run { index: (index + 1) as usize }
        }
    }
}

impl Hangar {
    /// Append a flight at the end of the execution order.
    pub fn add_flight(&mut self, flight: Flight)
        ensures
            final(self)@.name == old(self)@.name,
            final(self)@.description == old(self)@.description,
            final(self)@.flights == old(self)@.flights.push(flight@),
    {
        self.flights.push(flight);
        proof {
            assert(self@.flights =~= old(self)@.flights.push(flight@));
        }
    }

    /// Take the flight at `index` out of the execution order, leaving the
    /// order of the others unchanged.
    pub fn remove_flight(&mut self, index: usize) -> (r: Flight)
        requires
            index < old(self)@.flights.len(),
        ensures
            final(self)@.name == old(self)@.name,
            final(self)@.description == old(self)@.description,
            final(self)@.flights == old(self)@.flights.remove(index as int),
            r@ == old(self)@.flights[index as int],
    {
        let flight = self.flights.remove(index);
        proof {
            assert(self@.flights =~= old(self)@.flights.remove(index as int));
        }
        flight
    }

    /// Begin a preflight run over this hangar's flights.
    pub fn preflight_start(&self) -> (r: PreflightStep)
        ensures
            r == self@.preflight_start_spec(),
    {
        if self.flights.len() == 0 {
            PreflightStep::Done { passed: true }
        } else {
            PreflightStep::Run { index: 0 }
        }
    }

    /// Continue a preflight run: judge what the flight at `index` produced
    /// and say what to do next.
    pub fn preflight_next(&self, index: usize, outcome: &RunOutcome) -> (r: PreflightStep)
        requires
            index < self@.flights.len(),
        ensures
            r == self@.preflight_next_spec(index as int, outcome@),
    {
        let flight_count = self.flights.len();
        let passed = self.flights[index].check(outcome);
        if !passed {
            PreflightStep::Done { passed: false }
        } else if index + 1 == flight_count {
            PreflightStep::Done { passed: true }
        } else {
            PreflightStep::Run { index: index + 1 }
        }
    }
}

/// The state of the preflight machine after `k` steps, when the flight at
/// each index `i` it schedules produces `outcomes[i]`.
pub open spec fn preflight_state(
    h: HangarSpec,
    outcomes: Seq<RunOutcomeSpec>,
    k: int,
) -> PreflightStep
    decreases k,
{
    if k <= 0 {
        h.preflight_start_spec()
    } else {
        match preflight_state(h, outcomes, k - 1) {
            PreflightStep::Run { index } => h.preflight_next_spec(index as int, outcomes[index as int]),
            PreflightStep::Done { passed } => PreflightStep::Done { passed },
        }
    }
}

/// Once the preflight machine has stopped it stays stopped, reporting the
/// same overall result: it never schedules another flight.
pub proof fn lemma_preflight_done_stays(
    h: HangarSpec,
    outcomes: Seq<RunOutcomeSpec>,
    m: int,
    k: int,
)
    requires
        0 <= m <= k,
        preflight_state(h, outcomes, m) is Done,
    ensures
        preflight_state(h, outcomes, k) == preflight_state(h, outcomes, m),
    decreases k - m,
{
    if k > m {
        lemma_preflight_done_stays(h, outcomes, m, k - 1);
    }
}

proof fn lemma_preflight_runs_in_order(h: HangarSpec, outcomes: Seq<RunOutcomeSpec>, k: int)
    requires
        h.flights.len() <= usize::MAX,
        outcomes.len() == h.flights.len(),
        0 <= k < h.flights.len(),
        forall|i: int| 0 <= i < k ==> h.flights[i].check_ok(#[trigger] outcomes[i]),
    ensures
        preflight_state(h, outcomes, k) == (PreflightStep::Run { index: k as usize }),
    decreases k,
{
    if k > 0 {
        lemma_preflight_runs_in_order(h, outcomes, k - 1);
    }
}

/// Aggregate preflight, all passing: feeding the machine an outcome for each
/// flight, every one passing its check, schedules the flights at indices
/// 0, 1, ... in exactly that order, each exactly once, and the machine then
/// stops with an overall pass.
pub proof fn lemma_preflight_all_pass(h: HangarSpec, outcomes: Seq<RunOutcomeSpec>)
    requires
        1 <= h.flights.len() <= usize::MAX,
        outcomes.len() == h.flights.len(),
        forall|i: int| 0 <= i < h.flights.len() ==> h.flights[i].check_ok(#[trigger] outcomes[i]),
    ensures
        forall|k: int|
            0 <= k < h.flights.len() ==> preflight_state(h, outcomes, k) == (PreflightStep::Run {
                index: k as usize,
            }),
        preflight_state(h, outcomes, h.flights.len() as int) == (PreflightStep::Done {
            passed: true,
        }),
{
    assert forall|k: int| 0 <= k < h.flights.len() implies preflight_state(h, outcomes, k)
        == (PreflightStep::Run { index: k as usize }) by {
        lemma_preflight_runs_in_order(h, outcomes, k);
    }
    let n = h.flights.len() as int;
    assert(preflight_state(h, outcomes, n - 1) == (PreflightStep::Run { index: (n - 1) as usize }));
    assert(preflight_state(h, outcomes, n) == h.preflight_next_spec(n - 1, outcomes[n - 1]));
}

/// Aggregate preflight, short circuit: when every flight before `j` passes
/// and the flight at `j` fails its check, the machine schedules exactly the
/// flights up to and including `j`, in order, then stops with an overall
/// failure. No flight after `j` is ever scheduled.
pub proof fn lemma_preflight_short_circuit(
    h: HangarSpec,
    outcomes: Seq<RunOutcomeSpec>,
    j: int,
)
    requires
        h.flights.len() <= usize::MAX,
        outcomes.len() == h.flights.len(),
        0 <= j < h.flights.len(),
        forall|i: int| 0 <= i < j ==> h.flights[i].check_ok(#[trigger] outcomes[i]),
        !h.flights[j].check_ok(outcomes[j]),
    ensures
        forall|k: int|
            0 <= k <= j ==> preflight_state(h, outcomes, k) == (PreflightStep::Run {
                index: k as usize,
            }),
        preflight_state(h, outcomes, j + 1) == (PreflightStep::Done { passed: false }),
        forall|k: int| k > j ==> preflight_state(h, outcomes, k) is Done,
{
    assert forall|k: int| 0 <= k <= j implies preflight_state(h, outcomes, k)
        == (PreflightStep::Run { index: k as usize }) by {
        lemma_preflight_runs_in_order(h, outcomes, k);
    }
    assert(preflight_state(h, outcomes, j) == (PreflightStep::Run { index: j as usize }));
    assert(preflight_state(h, outcomes, j + 1) == h.preflight_next_spec(j, outcomes[j]));
    assert forall|k: int| k > j implies preflight_state(h, outcomes, k) is Done by {
        lemma_preflight_done_stays(h, outcomes, j + 1, k);
    }
}

/// A run whose invocation failed, or whose output could not be decoded as
/// text, never passes, whatever the flight expects.
pub proof fn lemma_check_invocation_failed(f: FlightSpec, outcome: RunOutcomeSpec)
    requires
        !(outcome is Captured),
    ensures
        !f.check_ok(outcome),
{
}

/// Any text on standard error disqualifies a run, whatever standard out
/// holds: even one that shows the success marker there.
pub proof fn lemma_check_stderr_disqualifies(f: FlightSpec, stdout: Seq<char>, stderr: Seq<char>)
    requires
        stderr.len() > 0,
    ensures
        !f.check_ok(RunOutcomeSpec::Captured { stdout, stderr }),
{
}

/// With empty standard error and the success marker somewhere in the
/// configured stream's text, a run passes.
pub proof fn lemma_check_passes(f: FlightSpec, stdout: Seq<char>, stderr: Seq<char>)
    requires
        stderr.len() == 0,
        is_substring(f.stream_text(stdout, stderr), f.flag),
    ensures
        f.check_ok(RunOutcomeSpec::Captured { stdout, stderr }),
{
}

} // verus!
