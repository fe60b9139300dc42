use std::collections::VecDeque;
use vstd::prelude::*;
use vstd::string::*;

use crate::keyed::{keyed_map, lemma_keyed_absent, lemma_keyed_last, lemma_keyed_update};
use crate::error::{answer_view, ErrorView, ProviderError};
use crate::fuzz_data::{chosen_index, string_draw, FuzzData};
use crate::provider::{Fuzz, IOProvider};
use crate::text::{clone_opt_string, clone_strings, opt_string_view, strings_view};

verus! {

/// A command execution request (e.g., running a solver, a script, or any CLI tool).
#[derive(Debug)]
pub struct CommandRequest {
    pub program: String,
    pub args: Vec<String>,
    pub stdin: Option<String>,
    /// The directory to run in, as a path string.
    pub working_dir: Option<String>,
}

/// A `CommandRequest` with its text seen as character sequences.
pub struct CommandRequestView {
    pub program: Seq<char>,
    pub args: Seq<Seq<char>>,
    pub stdin: Option<Seq<char>>,
    pub working_dir: Option<Seq<char>>,
}

impl View for CommandRequest {
    type V = CommandRequestView;

    open spec fn view(&self) -> CommandRequestView {
        CommandRequestView {
            program: self.program@,
            args: strings_view(self.args@),
            stdin: opt_string_view(self.stdin),
            working_dir: opt_string_view(self.working_dir),
        }
    }
}

impl Clone for CommandRequest {
    fn clone(&self) -> (copy: Self)
        ensures
            copy@ == self@,
    {
        CommandRequest {
            program: self.program.clone(),
            args: clone_strings(&self.args),
            stdin: clone_opt_string(&self.stdin),
            working_dir: clone_opt_string(&self.working_dir),
        }
    }
}

/// Result of executing a command.
#[derive(Debug, PartialEq)]
pub struct CommandResult {
    pub stdout: String,
    pub stderr: String,
    pub exit_code: i32,
}

/// A `CommandResult` with its text seen as character sequences.
pub struct CommandResultView {
    pub stdout: Seq<char>,
    pub stderr: Seq<char>,
    pub exit_code: i32,
}

impl View for CommandResult {
    type V = CommandResultView;

    open spec fn view(&self) -> CommandResultView {
        CommandResultView { stdout: self.stdout@, stderr: self.stderr@, exit_code: self.exit_code }
    }
}

impl Clone for CommandResult {
    fn clone(&self) -> (copy: Self)
        ensures
            copy@ == self@,
    {
        CommandResult {
            stdout: self.stdout.clone(),
            stderr: self.stderr.clone(),
            exit_code: self.exit_code,
        }
    }
}

impl CommandResult {
    /// A successful run: the given standard output, no standard error, exit code 0.
    pub fn success(stdout: &str) -> (result: Self)
        ensures
            result@ == (CommandResultView { stdout: stdout@, stderr: Seq::empty(), exit_code: 0 }),
    {
        CommandResult { stdout: String::from_str(stdout), stderr: String::new(), exit_code: 0 }
    }

    /// A failed run: no standard output, the given standard error and exit code.
    pub fn failure(stderr: &str, exit_code: i32) -> (result: Self)
        ensures
            result@ == (CommandResultView {
                stdout: Seq::empty(),
                stderr: stderr@,
                exit_code: exit_code,
            }),
    {
        CommandResult { stdout: String::new(), stderr: String::from_str(stderr), exit_code }
    }
}

/// The views of a sequence of command results.
pub open spec fn results_view(q: Seq<CommandResult>) -> Seq<CommandResultView> {
    q.map_values(|r: CommandResult| r@)
}

/// The views of a sequence of command requests.
pub open spec fn requests_view(q: Seq<CommandRequest>) -> Seq<CommandRequestView> {
    q.map_values(|r: CommandRequest| r@)
}

/// The responses queued for one program.
struct ProgramQueue {
    program: String,
    results: VecDeque<CommandResult>,
}

/// Mock command executor with pre-configured responses.
///
/// Responses are configured per program name; several responses for one program are
/// handed out in the order they were configured.
pub struct MockCommand {
    by_program: Vec<ProgramQueue>,
    inputs: Vec<CommandRequest>,
}

/// The state of a `MockCommand`: the response queue of each configured program, and every
/// request received so far, oldest first.
pub struct MockCommandView {
    pub queues: Map<Seq<char>, Seq<CommandResultView>>,
    pub requests: Seq<CommandRequestView>,
}

/// The (program, queue) pairs of a list of program entries.
spec fn queue_pairs(entries: Seq<ProgramQueue>) -> Seq<(Seq<char>, Seq<CommandResultView>)> {
    entries.map_values(|e: ProgramQueue| (e.program@, results_view(e.results@)))
}

impl View for MockCommand {
    type V = MockCommandView;

    closed spec fn view(&self) -> MockCommandView {
        MockCommandView {
            queues: keyed_map(queue_pairs(self.by_program@)),
            requests: requests_view(self.inputs@),
        }
    }
}

/// The queue of `program` in `queues`; empty where the program was never configured.
pub open spec fn queue_of(
    queues: Map<Seq<char>, Seq<CommandResultView>>,
    program: Seq<char>,
) -> Seq<CommandResultView> {
    if queues.contains_key(program) {
        queues[program]
    } else {
        Seq::empty()
    }
}

/// The state after `result` is queued for `program`.
pub open spec fn enqueue(
    s: MockCommandView,
    program: Seq<char>,
    result: CommandResultView,
) -> MockCommandView {
    MockCommandView {
        queues: s.queues.insert(program, queue_of(s.queues, program).push(result)),
        requests: s.requests,
    }
}

/// What a `MockCommand` in state `s` does with request `req`: the request is recorded; the
/// first response queued for its program is handed out, or, where none is queued, the
/// request is refused.
pub open spec fn command_step(s: MockCommandView, req: CommandRequestView) -> (
    MockCommandView,
    Result<CommandResultView, ErrorView>,
) {
    let requests = s.requests.push(req);
    let queue = queue_of(s.queues, req.program);
    if queue.len() > 0 {
        (
            MockCommandView {
                queues: s.queues.insert(req.program, queue.drop_first()),
                requests,
            },
            Ok(queue[0]),
        )
    } else {
        (MockCommandView { queues: s.queues, requests }, Err(ErrorView::NoResponse(req.program)))
    }
}

impl MockCommand {
    /// A mock with no responses configured and no requests received.
    pub fn new() -> (mock: Self)
        ensures
            mock@.queues == Map::<Seq<char>, Seq<CommandResultView>>::empty(),
            mock@.requests == Seq::<CommandRequestView>::empty(),
    {
        let mock = MockCommand { by_program: Vec::new(), inputs: Vec::new() };
        assert(requests_view(mock.inputs@) =~= Seq::<CommandRequestView>::empty());
        mock
    }

    /// The index of the last entry for `program`, if any.
    fn find_program(&self, program: &String) -> (found: Option<usize>)
        ensures
            match found {
                Some(i) => {
                    &&& i < self.by_program@.len()
                    &&& self.by_program@[i as int].program@ == program@
                    &&& forall|j: int|
                        i < j < self.by_program@.len() ==> self.by_program@[j].program@
                            != program@
                },
                None => forall|j: int|
                    0 <= j < self.by_program@.len() ==> self.by_program@[j].program@ != program@,
            },
    {
        let mut i: usize = self.by_program.len();
        while i > 0
            invariant
                i <= self.by_program@.len(),
                forall|j: int|
                    i <= j < self.by_program@.len() ==> self.by_program@[j].program@ != program@,
            decreases i,
        {
            i = i - 1;
            if self.by_program[i].program == *program {
                return Some(i);
            }
        }
        None
    }

    /// Takes the first response queued for `program`, if there is one.
    fn take_queued(&mut self, program: &String) -> (first: Option<CommandResult>)
        ensures
            final(self)@.requests == old(self)@.requests,
            match first {
                Some(result) => {
                    &&& queue_of(old(self)@.queues, program@).len() > 0
                    &&& result@ == queue_of(old(self)@.queues, program@)[0]
                    &&& final(self)@.queues == old(self)@.queues.insert(
                        program@,
                        queue_of(old(self)@.queues, program@).drop_first(),
                    )
                },
                None => {
                    &&& queue_of(old(self)@.queues, program@).len() == 0
                    &&& final(self)@.queues == old(self)@.queues
                },
            },
    {
        let ghost entries = self.by_program@;
        match self.find_program(program) {
            Some(i) => {
                proof {
                    lemma_keyed_last(queue_pairs(entries), i as int);
                }
                if self.by_program[i].results.len() > 0 {
                    let mut entry = self.by_program.remove(i);
                    let first = entry.results.pop_front();
                    self.by_program.insert(i, entry);
                    proof {
                        assert(self.by_program@ =~= entries.update(i as int, entry));
                        assert(results_view(entry.results@) =~= results_view(
                            entries[i as int].results@,
                        ).drop_first());
                        lemma_keyed_update(
                            queue_pairs(entries),
                            i as int,
                            results_view(entry.results@),
                        );
                        assert(queue_pairs(self.by_program@) =~= queue_pairs(entries).update(
                            i as int,
                            (program@, results_view(entry.results@)),
                        ));
                    }
                    first
                } else {
                    None
                }
            },
            None => {
                proof {
                    lemma_keyed_absent(queue_pairs(entries), program@);
                }
                None
            },
        }
    }

    /// Configures a response for a given program name.
    /// Several calls queue responses in sequence for that program.
    pub fn on_program(&mut self, program: &str, result: CommandResult)
        ensures
            final(self)@ == enqueue(old(self)@, program@, result@),
    {
        let name = String::from_str(program);
        let ghost entries = self.by_program@;
        match self.find_program(&name) {
            Some(i) => {
                proof {
                    lemma_keyed_last(queue_pairs(entries), i as int);
                }
                let mut entry = self.by_program.remove(i);
                entry.results.push_back(result);
                self.by_program.insert(i, entry);
                proof {
                    assert(self.by_program@ =~= entries.update(i as int, entry));
                    assert(results_view(entry.results@) =~= results_view(
                        entries[i as int].results@,
                    ).push(result@));
                    lemma_keyed_update(queue_pairs(entries), i as int, results_view(entry.results@));
                    assert(queue_pairs(self.by_program@) =~= queue_pairs(entries).update(
                        i as int,
                        (program@, results_view(entry.results@)),
                    ));
                }
            },
            None => {
                proof {
                    lemma_keyed_absent(queue_pairs(entries), program@);
                }
                let mut results = VecDeque::new();
                results.push_back(result);
                let entry = ProgramQueue { program: name, results };
                self.by_program.push(entry);
                proof {
                    assert(queue_pairs(self.by_program@).drop_last() =~= queue_pairs(entries));
                    assert(results_view(entry.results@) =~= seq![result@]);
                    assert(Seq::<CommandResultView>::empty().push(result@) =~= seq![result@]);
                }
            },
        }
        proof {
            assert(self@.queues =~= enqueue(old(self)@, program@, result@).queues);
        }
    }

    /// Every request received so far, oldest first.
    pub fn requests(&self) -> (requests: Vec<CommandRequest>)
        ensures
            requests_view(requests@) == self@.requests,
    {
        let mut requests: Vec<CommandRequest> = Vec::new();
        let mut i: usize = 0;
        while i < self.inputs.len()
            invariant
                i <= self.inputs@.len(),
                requests_view(requests@) == requests_view(self.inputs@.take(i as int)),
            decreases self.inputs@.len() - i,
        {
            let ghost before = requests@;
            requests.push(self.inputs[i].clone());
            assert(self.inputs@.take(i + 1) == self.inputs@.take(i as int).push(
                self.inputs@[i as int],
            ));
            assert(requests_view(requests@) =~= requests_view(before).push(
                self.inputs@[i as int]@,
            ));
            assert(requests_view(self.inputs@.take(i + 1)) =~= requests_view(
                self.inputs@.take(i as int),
            ).push(self.inputs@[i as int]@));
            i = i + 1;
        }
        assert(self.inputs@.take(self.inputs@.len() as int) =~= self.inputs@);
        requests
    }
}

impl Default for MockCommand {
    fn default() -> (mock: Self)
        ensures
            mock@.queues == Map::<Seq<char>, Seq<CommandResultView>>::empty(),
            mock@.requests == Seq::<CommandRequestView>::empty(),
    {
        MockCommand::new()
    }
}

impl IOProvider<CommandRequest, CommandResult> for MockCommand {
    open spec fn accepts(&self, input: CommandRequest) -> bool {
        true
    }

    /// Records the request, then hands out the first response queued for its program.
    fn invoke(&mut self, input: CommandRequest) -> (answer: Result<CommandResult, ProviderError>)
        ensures
            (final(self)@, answer_view(answer)) == command_step(old(self)@, input@),
    {
        let program = input.program.clone();
        let ghost old_inputs = self.inputs@;
        self.inputs.push(input);
        proof {
            assert(requests_view(self.inputs@) =~= requests_view(old_inputs).push(input@));
        }
        match self.take_queued(&program) {
            Some(result) => Ok(result),
            None => Err(ProviderError::NoResponse { program }),
        }
    }
}

/// The program whose fuzzed runs answer like an SMT solver.
pub open spec fn solver_program() -> Seq<char> {
    "z3"@
}

/// The standard output of a fuzzed solver run for the drawn `pick`.
pub open spec fn solver_verdict(pick: int) -> Seq<char> {
    if pick == 0 {
        "sat\n"@
    } else if pick == 1 {
        "unsat\n"@
    } else {
        "unknown\n"@
    }
}

/// How many verdicts a fuzzed solver run picks from.
pub const VERDICT_COUNT: usize = 3;

/// The longest standard output of a fuzzed run of another program, in characters.
pub const FUZZ_OUTPUT_MAX: usize = 200;

fn verdict_text(pick: usize) -> (text: &'static str)
    requires
        pick < VERDICT_COUNT,
    ensures
        text@ == solver_verdict(pick as int),
{
    if pick == 0 {
        "sat\n"
    } else if pick == 1 {
        "unsat\n"
    } else {
        "unknown\n"
    }
}

/// What `MockCommand::fuzz` does in state `s` with `req` and the random bytes `data`: the
/// result, the state after, and the bytes left. A response queued for the program is handed
/// out first and dropped, and no byte is drawn; otherwise the run succeeds, the solver
/// answering a drawn verdict and any other program a drawn text, and the mock is unchanged.
pub open spec fn command_fuzz(s: MockCommandView, req: CommandRequestView, data: Seq<u8>) -> (
    CommandResultView,
    MockCommandView,
    Seq<u8>,
) {
    let queue = queue_of(s.queues, req.program);
    if queue.len() > 0 {
        (
            queue[0],
            MockCommandView {
                queues: s.queues.insert(req.program, queue.drop_first()),
                requests: s.requests,
            },
            data,
        )
    } else if req.program == solver_program() {
        let (pick, rest) = chosen_index(data, VERDICT_COUNT);
        (
            CommandResultView {
                stdout: solver_verdict(pick as int),
                stderr: Seq::empty(),
                exit_code: 0,
            },
            s,
            rest,
        )
    } else {
        let (text, rest) = string_draw(data, FUZZ_OUTPUT_MAX as nat);
        (CommandResultView { stdout: text, stderr: Seq::empty(), exit_code: 0 }, s, rest)
    }
}

impl Fuzz<CommandRequest, CommandResult> for MockCommand {
    open spec fn fuzz_outcome(
        &self,
        input: CommandRequest,
        data: Seq<u8>,
        output: CommandResult,
        after: Self,
        data_after: Seq<u8>,
    ) -> bool {
        (output@, after@, data_after) == command_fuzz(self@, input@, data)
    }

    /// Generates a plausible result for the request: the next response queued for the
    /// program if there is one, otherwise a successful run whose output is drawn.
    fn fuzz(&mut self, input: &CommandRequest, data: &mut FuzzData) -> (result: CommandResult)
        ensures
            (result@, final(self)@, final(data).rest()) == command_fuzz(
                old(self)@,
                input@,
                old(data).rest(),
            ),
    {
        let program = input.program.clone();
        if let Some(result) = self.take_queued(&program) {
            return result;
        }
        let solver = String::from_str("z3");
        proof {
            reveal_strlit("z3");
        }
        if program == solver {
            let pick = data.gen_index(VERDICT_COUNT);
            let mut stdout = String::new();
            stdout.append(verdict_text(pick));
            assert(stdout@ =~= solver_verdict(pick as int));
            CommandResult { stdout, stderr: String::new(), exit_code: 0 }
        } else {
            let stdout = data.gen_string(FUZZ_OUTPUT_MAX);
            CommandResult { stdout, stderr: String::new(), exit_code: 0 }
        }
    }
}

/// The state and the answers after a `MockCommand` in state `s` receives `reqs` in order.
pub open spec fn command_run(s: MockCommandView, reqs: Seq<CommandRequestView>) -> (
    MockCommandView,
    Seq<Result<CommandResultView, ErrorView>>,
)
    decreases reqs.len(),
{
    if reqs.len() == 0 {
        (s, Seq::empty())
    } else {
        let (mid, answers) = command_run(s, reqs.drop_last());
        let (next, answer) = command_step(mid, reqs.last());
        (next, answers.push(answer))
    }
}

/// Requests for one program get that program's queued responses in the order they were
/// queued, then refusals naming the program once the queue runs dry; every request is
/// recorded.
pub proof fn law_responses_in_queue_order(
    s: MockCommandView,
    program: Seq<char>,
    reqs: Seq<CommandRequestView>,
)
    requires
        forall|i: int| 0 <= i < reqs.len() ==> #[trigger] reqs[i].program == program,
    ensures
        command_run(s, reqs).1.len() == reqs.len(),
        forall|i: int|
            0 <= i < reqs.len() ==> #[trigger] command_run(s, reqs).1[i] == if i < queue_of(
                s.queues,
                program,
            ).len() {
                Ok::<CommandResultView, ErrorView>(queue_of(s.queues, program)[i])
            } else {
                Err::<CommandResultView, ErrorView>(ErrorView::NoResponse(program))
            },
        queue_of(command_run(s, reqs).0.queues, program) == if reqs.len() <= queue_of(
            s.queues,
            program,
        ).len() {
            queue_of(s.queues, program).skip(reqs.len() as int)
        } else {
            Seq::empty()
        },
        command_run(s, reqs).0.requests == s.requests + reqs,
    decreases reqs.len(),
{
    let q = queue_of(s.queues, program);
    if reqs.len() == 0 {
        assert(q.skip(0) =~= q);
        assert(s.requests + reqs =~= s.requests);
    } else {
        let init = reqs.drop_last();
        assert forall|i: int| 0 <= i < init.len() implies #[trigger] init[i].program == program by {
            assert(init[i] == reqs[i]);
        }
        law_responses_in_queue_order(s, program, init);
        let (mid, answers) = command_run(s, init);
        let n = init.len();
        assert(reqs.last() == reqs[reqs.len() - 1]);
        if n < q.len() {
            assert(queue_of(mid.queues, program)[0] == q[n as int]);
            assert(q.skip(n as int).drop_first() =~= q.skip(n as int + 1));
        } else if n == q.len() {
            assert(q.skip(n as int) =~= Seq::<CommandResultView>::empty());
        }
        assert(s.requests + reqs =~= (s.requests + init).push(reqs.last()));
        assert forall|i: int| 0 <= i < reqs.len() implies #[trigger] command_run(s, reqs).1[i]
            == if i < q.len() {
            Ok::<CommandResultView, ErrorView>(q[i])
        } else {
            Err::<CommandResultView, ErrorView>(ErrorView::NoResponse(program))
        } by {
            if i < n {
                assert(command_run(s, reqs).1[i] == answers[i]);
            }
        }
    }
}

/// A request only ever touches the queue of its own program.
pub proof fn law_other_programs_untouched(
    s: MockCommandView,
    req: CommandRequestView,
    other: Seq<char>,
)
    requires
        other != req.program,
    ensures
        queue_of(command_step(s, req).0.queues, other) == queue_of(s.queues, other),
{
}

/// A request for a program with nothing queued is refused with an error naming the program,
/// and no queue changes.
pub proof fn law_unconfigured_program_refused(s: MockCommandView, req: CommandRequestView)
    requires
        queue_of(s.queues, req.program).len() == 0,
    ensures
        command_step(s, req).1 == Err::<CommandResultView, ErrorView>(
            ErrorView::NoResponse(req.program),
        ),
        command_step(s, req).0.queues == s.queues,
{
}

/// Queueing a response appends it to its program's queue, leaves the other queues and the
/// recorded requests alone.
pub proof fn law_enqueue_appends(
    s: MockCommandView,
    program: Seq<char>,
    result: CommandResultView,
    other: Seq<char>,
)
    ensures
        queue_of(enqueue(s, program, result).queues, program) == queue_of(s.queues, program).push(
            result,
        ),
        other != program ==> queue_of(enqueue(s, program, result).queues, other) == queue_of(
            s.queues,
            other,
        ),
        enqueue(s, program, result).requests == s.requests,
{
}

/// A call on a `MockCommand`: `on_program` with a program and a result, or `invoke` with a
/// request.
pub enum CommandCall {
    Configure(Seq<char>, CommandResultView),
    Invoke(CommandRequestView),
}

/// The state after a `MockCommand` in state `s` receives `calls` in order.
pub open spec fn command_calls(s: MockCommandView, calls: Seq<CommandCall>) -> MockCommandView
    decreases calls.len(),
{
    if calls.len() == 0 {
        s
    } else {
        let mid = command_calls(s, calls.drop_last());
        match calls.last() {
            CommandCall::Configure(program, result) => enqueue(mid, program, result),
            CommandCall::Invoke(req) => command_step(mid, req).0,
        }
    }
}

/// The requests among `calls`, in order.
pub open spec fn invoked_requests(calls: Seq<CommandCall>) -> Seq<CommandRequestView>
    decreases calls.len(),
{
    if calls.len() == 0 {
        Seq::empty()
    } else {
        match calls.last() {
            CommandCall::Configure(_, _) => invoked_requests(calls.drop_last()),
            CommandCall::Invoke(req) => invoked_requests(calls.drop_last()).push(req),
        }
    }
}

/// Whatever is configured in between and whatever each call answers, the recorded requests
/// are the earlier ones followed by every request invoked, in call order.
pub proof fn law_requests_recorded_in_order(s: MockCommandView, calls: Seq<CommandCall>)
    ensures
        command_calls(s, calls).requests == s.requests + invoked_requests(calls),
    decreases calls.len(),
{
    if calls.len() == 0 {
        assert(s.requests + invoked_requests(calls) =~= s.requests);
    } else {
        law_requests_recorded_in_order(s, calls.drop_last());
        match calls.last() {
            CommandCall::Configure(_, _) => {},
            CommandCall::Invoke(req) => {
                assert(s.requests + invoked_requests(calls) =~= (s.requests + invoked_requests(
                    calls.drop_last(),
                )).push(req));
            },
        }
    }
}

/// For every program, while a response is queued for it, fuzzing a request for it hands out
/// exactly what `invoke` would, leaves the queues as `invoke` would, and draws no byte; only
/// `invoke` records the request.
pub proof fn law_queued_fuzz_matches_invoke(
    s: MockCommandView,
    req: CommandRequestView,
    data: Seq<u8>,
)
    requires
        queue_of(s.queues, req.program).len() > 0,
    ensures
        command_step(s, req).1 == Ok::<CommandResultView, ErrorView>(command_fuzz(s, req, data).0),
        command_step(s, req).0.queues == command_fuzz(s, req, data).1.queues,
        command_fuzz(s, req, data).1.requests == s.requests,
        command_fuzz(s, req, data).2 == data,
        command_fuzz(s, req, data).0 == queue_of(s.queues, req.program)[0],
{
}

/// With nothing queued for its program, a fuzzed run succeeds: exit code 0, no standard
/// error, the mock unchanged; the solver answers one of its three verdicts, and any other
/// program an output of at most `FUZZ_OUTPUT_MAX` characters.
pub proof fn law_fuzzed_runs_succeed(s: MockCommandView, req: CommandRequestView, data: Seq<u8>)
    requires
        queue_of(s.queues, req.program).len() == 0,
    ensures
        command_fuzz(s, req, data).0.exit_code == 0,
        command_fuzz(s, req, data).0.stderr == Seq::<char>::empty(),
        command_fuzz(s, req, data).1 == s,
        req.program == solver_program() ==> {
            let out = command_fuzz(s, req, data).0.stdout;
            out == "sat\n"@ || out == "unsat\n"@ || out == "unknown\n"@
        },
        req.program != solver_program() ==> command_fuzz(s, req, data).0.stdout.len()
            <= FUZZ_OUTPUT_MAX,
{
}

} // verus!
