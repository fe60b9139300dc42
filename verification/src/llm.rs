use std::collections::VecDeque;
use vstd::prelude::*;
use vstd::string::*;

use crate::error::{answer_view, ErrorView, ProviderError};
use crate::fuzz_data::{bool_draw, chosen_index, string_draw, FuzzData};
use crate::provider::{Fuzz, IOProvider};
use crate::text::{contains, has_substring, strings_view};

verus! {

/// Who wrote a message of a conversation.
#[derive(Debug, Clone, Copy, PartialEq, Eq, Structural, Hash)]
pub enum LlmRole {
    System,
    User,
    Assistant,
}

/// The lower-case name of a role.
pub open spec fn role_name(role: LlmRole) -> Seq<char> {
    match role {
        LlmRole::System => "system"@,
        LlmRole::User => "user"@,
        LlmRole::Assistant => "assistant"@,
    }
}

impl LlmRole {
    /// The lower-case name of the role: "system", "user" or "assistant".
    pub fn to_string(&self) -> (name: String)
        ensures
            name@ == role_name(*self),
    {
        match self {
            LlmRole::System => String::from_str("system"),
            LlmRole::User => String::from_str("user"),
            LlmRole::Assistant => String::from_str("assistant"),
        }
    }
}

/// One message of a conversation.
#[derive(Debug)]
pub struct LlmMessage {
    pub role: LlmRole,
    pub content: String,
}

/// A `LlmMessage` with its text seen as a character sequence.
pub struct LlmMessageView {
    pub role: LlmRole,
    pub content: Seq<char>,
}

impl View for LlmMessage {
    type V = LlmMessageView;

    open spec fn view(&self) -> LlmMessageView {
        LlmMessageView { role: self.role, content: self.content@ }
    }
}

impl Clone for LlmMessage {
    fn clone(&self) -> (copy: Self)
        ensures
            copy@ == self@,
    {
        LlmMessage { role: self.role, content: self.content.clone() }
    }
}

impl LlmMessage {
    /// A system message with the given content.
    pub fn system(content: &str) -> (message: Self)
        ensures
            message@ == (LlmMessageView { role: LlmRole::System, content: content@ }),
    {
        LlmMessage { role: LlmRole::System, content: String::from_str(content) }
    }

    /// A user message with the given content.
    pub fn user(content: &str) -> (message: Self)
        ensures
            message@ == (LlmMessageView { role: LlmRole::User, content: content@ }),
    {
        LlmMessage { role: LlmRole::User, content: String::from_str(content) }
    }

    /// An assistant message with the given content.
    pub fn assistant(content: &str) -> (message: Self)
        ensures
            message@ == (LlmMessageView { role: LlmRole::Assistant, content: content@ }),
    {
        LlmMessage { role: LlmRole::Assistant, content: String::from_str(content) }
    }
}

/// The views of a sequence of messages.
pub open spec fn messages_view(messages: Seq<LlmMessage>) -> Seq<LlmMessageView> {
    messages.map_values(|m: LlmMessage| m@)
}

/// A chat completion request.
#[derive(Debug)]
pub struct LlmRequest {
    pub model: String,
    pub messages: Vec<LlmMessage>,
}

/// A `LlmRequest` with its text seen as character sequences.
pub struct LlmRequestView {
    pub model: Seq<char>,
    pub messages: Seq<LlmMessageView>,
}

impl View for LlmRequest {
    type V = LlmRequestView;

    open spec fn view(&self) -> LlmRequestView {
        LlmRequestView { model: self.model@, messages: messages_view(self.messages@) }
    }
}

impl Clone for LlmRequest {
    fn clone(&self) -> (copy: Self)
        ensures
            copy@ == self@,
    {
        let mut messages: Vec<LlmMessage> = Vec::new();
        let mut i: usize = 0;
        while i < self.messages.len()
            invariant
                i <= self.messages@.len(),
                messages_view(messages@) == messages_view(self.messages@.take(i as int)),
            decreases self.messages@.len() - i,
        {
            let ghost before = messages@;
            messages.push(self.messages[i].clone());
            assert(messages_view(messages@) =~= messages_view(before).push(
                self.messages@[i as int]@,
            ));
            assert(messages_view(self.messages@.take(i + 1)) =~= messages_view(
                self.messages@.take(i as int),
            ).push(self.messages@[i as int]@));
            i = i + 1;
        }
        assert(self.messages@.take(self.messages@.len() as int) =~= self.messages@);
        LlmRequest { model: self.model.clone(), messages }
    }
}

/// The views of a sequence of requests.
pub open spec fn llm_requests_view(requests: Seq<LlmRequest>) -> Seq<LlmRequestView> {
    requests.map_values(|r: LlmRequest| r@)
}

/// Mock LLM that returns pre-configured responses in sequence.
///
/// Each call to `invoke` returns the next response, regardless of the input.
pub struct MockLlm {
    responses: VecDeque<String>,
    requests: Vec<LlmRequest>,
}

/// The state of a `MockLlm`: the responses still queued, first one first, and every request
/// received so far, oldest first.
pub struct MockLlmView {
    pub responses: Seq<Seq<char>>,
    pub requests: Seq<LlmRequestView>,
}

impl View for MockLlm {
    type V = MockLlmView;

    closed spec fn view(&self) -> MockLlmView {
        MockLlmView {
            responses: strings_view(self.responses@),
            requests: llm_requests_view(self.requests@),
        }
    }
}

/// What a `MockLlm` in state `s` does with request `req`: the request is recorded and the
/// first queued response is handed out, or the request is refused when none is left.
pub open spec fn llm_step(s: MockLlmView, req: LlmRequestView) -> (
    MockLlmView,
    Result<Seq<char>, ErrorView>,
) {
    let requests = s.requests.push(req);
    if s.responses.len() > 0 {
        (MockLlmView { responses: s.responses.drop_first(), requests }, Ok(s.responses[0]))
    } else {
        (MockLlmView { responses: s.responses, requests }, Err(ErrorView::LlmExhausted))
    }
}

impl MockLlm {
    /// A mock that hands out `responses` in order.
    pub fn new(responses: Vec<String>) -> (llm: Self)
        ensures
            llm@.responses == strings_view(responses@),
            llm@.requests == Seq::<LlmRequestView>::empty(),
    {
        let mut queue: VecDeque<String> = VecDeque::new();
        let mut i: usize = 0;
        while i < responses.len()
            invariant
                i <= responses@.len(),
                strings_view(queue@) == strings_view(responses@.take(i as int)),
            decreases responses@.len() - i,
        {
            let ghost before = queue@;
            queue.push_back(responses[i].clone());
            assert(strings_view(queue@) =~= strings_view(before).push(responses@[i as int]@));
            assert(strings_view(responses@.take(i + 1)) =~= strings_view(
                responses@.take(i as int),
            ).push(responses@[i as int]@));
            i = i + 1;
        }
        assert(responses@.take(responses@.len() as int) =~= responses@);
        let llm = MockLlm { responses: queue, requests: Vec::new() };
        assert(llm_requests_view(llm.requests@) =~= Seq::<LlmRequestView>::empty());
        llm
    }

    /// Every request received so far, oldest first.
    pub fn requests(&self) -> (requests: Vec<LlmRequest>)
        ensures
            llm_requests_view(requests@) == self@.requests,
    {
        let mut requests: Vec<LlmRequest> = Vec::new();
        let mut i: usize = 0;
        while i < self.requests.len()
            invariant
                i <= self.requests@.len(),
                llm_requests_view(requests@) == llm_requests_view(self.requests@.take(i as int)),
            decreases self.requests@.len() - i,
        {
            let ghost before = requests@;
            requests.push(self.requests[i].clone());
            assert(llm_requests_view(requests@) =~= llm_requests_view(before).push(
                self.requests@[i as int]@,
            ));
            assert(llm_requests_view(self.requests@.take(i + 1)) =~= llm_requests_view(
                self.requests@.take(i as int),
            ).push(self.requests@[i as int]@));
            i = i + 1;
        }
        assert(self.requests@.take(self.requests@.len() as int) =~= self.requests@);
        requests
    }

    /// How many responses are still queued.
    pub fn remaining(&self) -> (count: usize)
        ensures
            count == self@.responses.len(),
    {
        self.responses.len()
    }
}

impl IOProvider<LlmRequest, String> for MockLlm {
    open spec fn accepts(&self, input: LlmRequest) -> bool {
        true
    }

    /// Records the request and hands out the next queued response.
    fn invoke(&mut self, input: LlmRequest) -> (answer: Result<String, ProviderError>)
        ensures
            (final(self)@, answer_view(answer)) == llm_step(old(self)@, input@),
    {
        let ghost old_requests = self.requests@;
        let ghost old_responses = self.responses@;
        self.requests.push(input);
        proof {
            assert(llm_requests_view(self.requests@) =~= llm_requests_view(old_requests).push(
                input@,
            ));
        }
        let next = self.responses.pop_front();
        proof {
            if old_responses.len() > 0 {
                assert(strings_view(self.responses@) =~= strings_view(old_responses).drop_first());
            }
        }
        match next {
            Some(response) => Ok(response),
            None => Err(ProviderError::LlmExhausted),
        }
    }
}

/// The kind of answer a prompt seems to ask for.
#[derive(Debug, Clone, Copy, PartialEq, Eq, Structural)]
pub enum PromptKind {
    /// A judge asking whether something is reasonable or verified.
    Judge,
    /// A formalizer asking for an SMT formula.
    Formalizer,
    /// A splitter asking for pieces of a program.
    Splitter,
    /// Anything else.
    Generic,
}

/// The kind of a prompt, read from its lower-cased text by keywords.
pub open spec fn prompt_kind(lower: Seq<char>) -> PromptKind {
    if has_substring(lower, "reasonable"@) || has_substring(lower, "verify"@) {
        PromptKind::Judge
    } else if has_substring(lower, "smt"@) || has_substring(lower, "formula"@) || has_substring(
        lower,
        "smtlib"@,
    ) {
        PromptKind::Formalizer
    } else if has_substring(lower, "split"@) || has_substring(lower, "piece"@) {
        PromptKind::Splitter
    } else {
        PromptKind::Generic
    }
}

/// The content of the last user message of a conversation; empty where there is none.
pub open spec fn last_user_content(messages: Seq<LlmMessageView>) -> Seq<char>
    decreases messages.len(),
{
    if messages.len() == 0 {
        Seq::empty()
    } else if messages.last().role == LlmRole::User {
        messages.last().content
    } else {
        last_user_content(messages.drop_last())
    }
}

/// What `str::to_lowercase` answers for `s`.
pub uninterp spec fn lowercase(s: Seq<char>) -> Seq<char>;

/// Every character of `s` is ASCII.
pub open spec fn ascii_only(s: Seq<char>) -> bool {
    forall|i: int| 0 <= i < s.len() ==> (#[trigger] s[i] as u32) < 128
}

/// `s` with its ASCII capital letters made small.
pub open spec fn ascii_lower(s: Seq<char>) -> Seq<char> {
    s.map_values(
        |c: char|
            if 65 <= (c as u32) && (c as u32) <= 90 {
                ((c as u32) + 32) as char
            } else {
                c
            },
    )
}

/// Calls `str::to_lowercase` on `s`; the contract claims that the answer is the named one for
/// this string, and, as the documentation of `char::to_lowercase` gives for ASCII, that an
/// all-ASCII string has its capital letters made small and nothing else changed.
#[verifier::external_body]
fn to_lowercase(s: &str) -> (lower: String)
    ensures
        lower@ == lowercase(s@),
        ascii_only(s@) ==> lower@ == ascii_lower(s@),
{
    s.to_lowercase()
}

/// The kind of a lower-cased prompt.
pub fn classify_prompt(lower: &str) -> (kind: PromptKind)
    ensures
        kind == prompt_kind(lower@),
{
    if contains(lower, "reasonable") || contains(lower, "verify") {
        PromptKind::Judge
    } else if contains(lower, "smt") || contains(lower, "formula") || contains(lower, "smtlib") {
        PromptKind::Formalizer
    } else if contains(lower, "split") || contains(lower, "piece") {
        PromptKind::Splitter
    } else {
        PromptKind::Generic
    }
}

/// The content of the last user message of `messages`; empty where there is none.
pub fn last_user_message(messages: &Vec<LlmMessage>) -> (content: String)
    ensures
        content@ == last_user_content(messages_view(messages@)),
{
    let mut i: usize = messages.len();
    assert(messages@.take(i as int) =~= messages@);
    while i > 0
        invariant
            i <= messages@.len(),
            last_user_content(messages_view(messages@)) == last_user_content(
                messages_view(messages@.take(i as int)),
            ),
        decreases i,
    {
        let ghost prefix = messages@.take(i as int);
        assert(messages_view(prefix).drop_last() =~= messages_view(messages@.take(i - 1)));
        assert(messages_view(prefix).last() == messages@[i - 1]@);
        if messages[i - 1].role == LlmRole::User {
            return messages[i - 1].content.clone();
        }
        i = i - 1;
    }
    assert(messages_view(messages@.take(0)) =~= Seq::<LlmMessageView>::empty());
    String::new()
}

/// The three SMT formulas a formalizer prompt is answered with.
pub open spec fn formula(pick: int) -> Seq<char> {
    if pick == 0 {
        "(set-logic ALL)\n(declare-const x Int)\n(assert (> x 0))\n(check-sat)\n"@
    } else if pick == 1 {
        "(set-logic ALL)\n(declare-const x Int)\n(assert (and (> x 0) (< x 100)))\n(check-sat)\n"@
    } else {
        "(set-logic ALL)\n(check-sat)\n"@
    }
}

/// How many formulas there are to pick from.
pub const FORMULA_COUNT: usize = 3;

/// The longest generic answer, in characters.
pub const GENERIC_REPLY_MAX: usize = 200;

fn formula_text(pick: usize) -> (text: &'static str)
    requires
        pick < FORMULA_COUNT,
    ensures
        text@ == formula(pick as int),
{
    if pick == 0 {
        "(set-logic ALL)\n(declare-const x Int)\n(assert (> x 0))\n(check-sat)\n"
    } else if pick == 1 {
        "(set-logic ALL)\n(declare-const x Int)\n(assert (and (> x 0) (< x 100)))\n(check-sat)\n"
    } else {
        "(set-logic ALL)\n(check-sat)\n"
    }
}

/// The answer to a prompt of kind `kind`, given what was drawn from the random data: a coin
/// for a judge, a formula index for a formalizer, and a text for anything else.
pub open spec fn fuzz_reply(kind: PromptKind, coin: bool, pick: int, text: Seq<char>) -> Seq<char> {
    match kind {
        PromptKind::Judge => if coin {
            "REASONABLE"@
        } else {
            "The verification has issues with formula precision."@
        },
        PromptKind::Formalizer => "```\n"@ + formula(pick) + "\n```"@,
        PromptKind::Splitter => "// Start point: test.rs:1\n// Handover point: test.rs:5\nreturn;\n"@,
        PromptKind::Generic => text,
    }
}

/// The answer to a prompt of kind `kind` for the given draws.
pub fn reply_for(kind: PromptKind, coin: bool, pick: usize, text: &str) -> (reply: String)
    requires
        pick < FORMULA_COUNT,
    ensures
        reply@ == fuzz_reply(kind, coin, pick as int, text@),
{
    match kind {
        PromptKind::Judge => if coin {
            String::from_str("REASONABLE")
        } else {
            String::from_str("The verification has issues with formula precision.")
        },
        PromptKind::Formalizer => {
            let mut reply = String::from_str("```\n");
            reply.append(formula_text(pick));
            reply.append("\n```");
            reply
        },
        PromptKind::Splitter => String::from_str(
            "// Start point: test.rs:1\n// Handover point: test.rs:5\nreturn;\n",
        ),
        PromptKind::Generic => String::from_str(text),
    }
}

/// The reply to a prompt of kind `kind` drawn from the random bytes `data`, and the bytes
/// left: a judge draws a coin, a formalizer a formula index, anything else a text of at most
/// `GENERIC_REPLY_MAX` characters; a splitter draws nothing.
pub open spec fn drawn_reply(kind: PromptKind, data: Seq<u8>) -> (Seq<char>, Seq<u8>) {
    match kind {
        PromptKind::Judge => (fuzz_reply(kind, bool_draw(data).0, 0, Seq::empty()), bool_draw(data).1),
        PromptKind::Formalizer => (
            fuzz_reply(kind, false, chosen_index(data, FORMULA_COUNT).0 as int, Seq::empty()),
            chosen_index(data, FORMULA_COUNT).1,
        ),
        PromptKind::Splitter => (fuzz_reply(kind, false, 0, Seq::empty()), data),
        PromptKind::Generic => (
            fuzz_reply(kind, false, 0, string_draw(data, GENERIC_REPLY_MAX as nat).0),
            string_draw(data, GENERIC_REPLY_MAX as nat).1,
        ),
    }
}

/// Draws the reply to a prompt of kind `kind` from `data`.
pub fn draw_reply(kind: PromptKind, data: &mut FuzzData) -> (reply: String)
    ensures
        (reply@, final(data).rest()) == drawn_reply(kind, old(data).rest()),
        final(data).drawn() == old(data).drawn() + old(data).rest().len() - final(data).rest().len(),
{
    match kind {
        PromptKind::Judge => {
            let coin = data.gen_bool();
            reply_for(kind, coin, 0, "")
        },
        PromptKind::Formalizer => {
            let pick = data.gen_index(FORMULA_COUNT);
            reply_for(kind, false, pick, "")
        },
        PromptKind::Splitter => reply_for(kind, false, 0, ""),
        PromptKind::Generic => {
            let text = data.gen_string(GENERIC_REPLY_MAX);
            reply_for(kind, false, 0, text.as_str())
        },
    }
}

/// What `MockLlm::fuzz` does in state `before` with `input` and the random bytes `data`: the
/// reply, the state after, and the bytes left. A queued response is handed out first and
/// dropped from the queue, and no byte is drawn; with none queued, the reply is drawn for the
/// kind of the lower-cased last user message, and the mock is left as it was.
pub open spec fn llm_fuzz(before: MockLlmView, input: LlmRequestView, data: Seq<u8>) -> (
    Seq<char>,
    MockLlmView,
    Seq<u8>,
) {
    if before.responses.len() > 0 {
        (
            before.responses[0],
            MockLlmView { responses: before.responses.drop_first(), requests: before.requests },
            data,
        )
    } else {
        let (reply, rest) = drawn_reply(
            prompt_kind(lowercase(last_user_content(input.messages))),
            data,
        );
        (reply, before, rest)
    }
}

impl Fuzz<LlmRequest, String> for MockLlm {
    open spec fn fuzz_outcome(
        &self,
        input: LlmRequest,
        data: Seq<u8>,
        output: String,
        after: Self,
        data_after: Seq<u8>,
    ) -> bool {
        (output@, after@, data_after) == llm_fuzz(self@, input@, data)
    }

    /// Generates a plausible LLM response based on the request.
    /// If responses are still queued, returns the next one.
    /// Otherwise generates a response that's plausible for the conversation context.
    fn fuzz(&mut self, input: &LlmRequest, data: &mut FuzzData) -> (reply: String)
        ensures
            (reply@, final(self)@, final(data).rest()) == llm_fuzz(old(self)@, input@, old(data).rest()),
    {
        let ghost old_responses = self.responses@;
        if let Some(response) = self.responses.pop_front() {
            proof {
                assert(strings_view(self.responses@) =~= strings_view(old_responses).drop_first());
            }
            return response;
        }
        let last_user = last_user_message(&input.messages);
        let lower = to_lowercase(last_user.as_str());
        let kind = classify_prompt(lower.as_str());
        draw_reply(kind, data)
    }
}

/// The state and the answers after a `MockLlm` in state `s` receives `reqs` in order.
pub open spec fn llm_run(s: MockLlmView, reqs: Seq<LlmRequestView>) -> (
    MockLlmView,
    Seq<Result<Seq<char>, ErrorView>>,
)
    decreases reqs.len(),
{
    if reqs.len() == 0 {
        (s, Seq::empty())
    } else {
        let (mid, answers) = llm_run(s, reqs.drop_last());
        let (next, answer) = llm_step(mid, reqs.last());
        (next, answers.push(answer))
    }
}

/// Whatever the requests say, the mock answers them with its queued responses in order, then
/// refuses once they run out; it records every request and counts down what remains.
pub proof fn law_responses_in_order(s: MockLlmView, reqs: Seq<LlmRequestView>)
    ensures
        llm_run(s, reqs).1.len() == reqs.len(),
        forall|i: int|
            0 <= i < reqs.len() ==> #[trigger] llm_run(s, reqs).1[i] == if i < s.responses.len() {
                Ok::<Seq<char>, ErrorView>(s.responses[i])
            } else {
                Err::<Seq<char>, ErrorView>(ErrorView::LlmExhausted)
            },
        llm_run(s, reqs).0.responses == if reqs.len() <= s.responses.len() {
            s.responses.skip(reqs.len() as int)
        } else {
            Seq::empty()
        },
        llm_run(s, reqs).0.requests == s.requests + reqs,
    decreases reqs.len(),
{
    let q = s.responses;
    if reqs.len() == 0 {
        assert(q.skip(0) =~= q);
        assert(s.requests + reqs =~= s.requests);
    } else {
        let init = reqs.drop_last();
        law_responses_in_order(s, init);
        let (mid, answers) = llm_run(s, init);
        let n = init.len();
        if n < q.len() {
            assert(mid.responses[0] == q[n as int]);
            assert(q.skip(n as int).drop_first() =~= q.skip(n as int + 1));
        } else if n == q.len() {
            assert(q.skip(n as int) =~= Seq::<Seq<char>>::empty());
        }
        assert(s.requests + reqs =~= (s.requests + init).push(reqs.last()));
        assert forall|i: int| 0 <= i < reqs.len() implies #[trigger] llm_run(s, reqs).1[i]
            == if i < q.len() {
            Ok::<Seq<char>, ErrorView>(q[i])
        } else {
            Err::<Seq<char>, ErrorView>(ErrorView::LlmExhausted)
        } by {
            if i < n {
                assert(llm_run(s, reqs).1[i] == answers[i]);
            }
        }
    }
}

/// The answer does not depend on the request: two requests to the same state get the same
/// answer and leave the same queue.
pub proof fn law_answer_ignores_request(s: MockLlmView, a: LlmRequestView, b: LlmRequestView)
    ensures
        llm_step(s, a).1 == llm_step(s, b).1,
        llm_step(s, a).0.responses == llm_step(s, b).0.responses,
{
}

/// While a response is queued, fuzzing hands it out and draws no byte.
pub proof fn law_queued_fuzz_draws_nothing(s: MockLlmView, input: LlmRequestView, data: Seq<u8>)
    requires
        s.responses.len() > 0,
    ensures
        llm_fuzz(s, input, data).0 == s.responses[0],
        llm_fuzz(s, input, data).1.responses == s.responses.drop_first(),
        llm_fuzz(s, input, data).1.requests == s.requests,
        llm_fuzz(s, input, data).2 == data,
{
}

/// With nothing queued, the reply, the state after and the bytes left depend only on the
/// lower-cased last user message and the bytes: the model, the other messages and letter
/// case play no part.
pub proof fn law_fuzz_depends_on_prompt_and_data(
    s: MockLlmView,
    a: LlmRequestView,
    b: LlmRequestView,
    data: Seq<u8>,
)
    requires
        s.responses.len() == 0,
        lowercase(last_user_content(a.messages)) == lowercase(last_user_content(b.messages)),
    ensures
        llm_fuzz(s, a, data) == llm_fuzz(s, b, data),
{
}

/// With nothing queued, a prompt of no particular kind gets a reply drawn from the bytes
/// alone, whatever it says.
pub proof fn law_generic_reply_ignores_prompt(
    s: MockLlmView,
    a: LlmRequestView,
    b: LlmRequestView,
    data: Seq<u8>,
)
    requires
        s.responses.len() == 0,
        prompt_kind(lowercase(last_user_content(a.messages))) == PromptKind::Generic,
        prompt_kind(lowercase(last_user_content(b.messages))) == PromptKind::Generic,
    ensures
        llm_fuzz(s, a, data) == llm_fuzz(s, b, data),
        llm_fuzz(s, a, data).0 == string_draw(data, GENERIC_REPLY_MAX as nat).0,
{
}

/// What a `MockLlm` allows as the outcome of `fuzz` is one outcome: mocks in the same
/// state, given the same input and bytes, give the same reply, state after and bytes left.
/// So two fuzz providers wrapping such mocks over the same seed answer alike.
pub proof fn law_fuzz_outcome_is_unique(
    llm1: MockLlm,
    llm2: MockLlm,
    input: LlmRequest,
    data: Seq<u8>,
    out1: String,
    after1: MockLlm,
    left1: Seq<u8>,
    out2: String,
    after2: MockLlm,
    left2: Seq<u8>,
)
    requires
        llm1@ == llm2@,
        llm1.fuzz_outcome(input, data, out1, after1, left1),
        llm2.fuzz_outcome(input, data, out2, after2, left2),
    ensures
        out1@ == out2@,
        after1@ == after2@,
        left1 == left2,
{
}

/// A call on a `MockLlm`: `invoke` or `fuzz` with a request.
pub enum LlmCall {
    Invoke(LlmRequestView),
    Fuzz(LlmRequestView),
}

/// The state and the bytes left after a `MockLlm` in state `s` receives `calls` in order,
/// fuzzing drawing from `data`.
pub open spec fn llm_calls(s: MockLlmView, calls: Seq<LlmCall>, data: Seq<u8>) -> (
    MockLlmView,
    Seq<u8>,
)
    decreases calls.len(),
{
    if calls.len() == 0 {
        (s, data)
    } else {
        let (mid, left) = llm_calls(s, calls.drop_last(), data);
        match calls.last() {
            LlmCall::Invoke(req) => (llm_step(mid, req).0, left),
            LlmCall::Fuzz(req) => (llm_fuzz(mid, req, left).1, llm_fuzz(mid, req, left).2),
        }
    }
}

/// Every call, `invoke` or `fuzz`, uses up one queued response while any is left, so
/// after `k` calls `remaining` is the configured count less `k`, down to 0.
pub proof fn law_each_call_uses_one_response(s: MockLlmView, calls: Seq<LlmCall>, data: Seq<u8>)
    ensures
        llm_calls(s, calls, data).0.responses == if calls.len() <= s.responses.len() {
            s.responses.skip(calls.len() as int)
        } else {
            Seq::empty()
        },
    decreases calls.len(),
{
    if calls.len() == 0 {
        assert(s.responses.skip(0) =~= s.responses);
    } else {
        let init = calls.drop_last();
        law_each_call_uses_one_response(s, init, data);
        let n = init.len();
        let q = s.responses;
        if n < q.len() {
            assert(q.skip(n as int).drop_first() =~= q.skip(n as int + 1));
        } else if n == q.len() {
            assert(q.skip(n as int) =~= Seq::<Seq<char>>::empty());
        }
    }
}

/// The keywords of a lower-cased prompt decide its kind in this order: "reasonable" or
/// "verify" make a judge whatever else it says; otherwise "smt", "formula" or "smtlib" make a
/// formalizer; otherwise "split" or "piece" make a splitter; anything else is generic.
pub proof fn law_prompt_kind_by_keywords(lower: Seq<char>)
    ensures
        (has_substring(lower, "reasonable"@) || has_substring(lower, "verify"@)) ==> prompt_kind(
            lower,
        ) == PromptKind::Judge,
        (!has_substring(lower, "reasonable"@) && !has_substring(lower, "verify"@) && (
        has_substring(lower, "smt"@) || has_substring(lower, "formula"@))) ==> prompt_kind(lower)
            == PromptKind::Formalizer,
        (!has_substring(lower, "reasonable"@) && !has_substring(lower, "verify"@)
            && !has_substring(lower, "smt"@) && !has_substring(lower, "formula"@)
            && !has_substring(lower, "smtlib"@) && (has_substring(lower, "split"@)
            || has_substring(lower, "piece"@))) ==> prompt_kind(lower) == PromptKind::Splitter,
        prompt_kind(lower) == PromptKind::Generic <==> (!has_substring(lower, "reasonable"@)
            && !has_substring(lower, "verify"@) && !has_substring(lower, "smt"@)
            && !has_substring(lower, "formula"@) && !has_substring(lower, "smtlib"@)
            && !has_substring(lower, "split"@) && !has_substring(lower, "piece"@)),
{
}

/// With nothing queued, a prompt whose lower-cased last user message holds "reasonable" or
/// "verify" gets one of the two judge replies, whatever other keywords it holds.
pub proof fn law_judge_prompts_get_judge_replies(
    s: MockLlmView,
    input: LlmRequestView,
    data: Seq<u8>,
)
    requires
        s.responses.len() == 0,
        has_substring(lowercase(last_user_content(input.messages)), "reasonable"@)
            || has_substring(lowercase(last_user_content(input.messages)), "verify"@),
    ensures
        llm_fuzz(s, input, data).0 == "REASONABLE"@ || llm_fuzz(s, input, data).0
            == "The verification has issues with formula precision."@,
        llm_fuzz(s, input, data).1 == s,
{
    law_prompt_kind_by_keywords(lowercase(last_user_content(input.messages)));
}

/// With nothing queued, a prompt that asks for a formula and is no judge prompt gets one of
/// the three formulas in a code block.
pub proof fn law_formula_prompts_get_formulas(s: MockLlmView, input: LlmRequestView, data: Seq<u8>)
    requires
        s.responses.len() == 0,
        prompt_kind(lowercase(last_user_content(input.messages))) == PromptKind::Formalizer,
    ensures
        exists|pick: int|
            0 <= pick < FORMULA_COUNT && llm_fuzz(s, input, data).0 == "```\n"@ + #[trigger] formula(
                pick,
            ) + "\n```"@,
{
    let pick = chosen_index(data, FORMULA_COUNT).0 as int;
    crate::fuzz_data::lemma_index_bounds(data, FORMULA_COUNT);
    assert(llm_fuzz(s, input, data).0 == "```\n"@ + formula(pick) + "\n```"@);
}

/// With nothing queued, a generic prompt gets a reply of at most `GENERIC_REPLY_MAX`
/// characters.
pub proof fn law_generic_replies_are_short(s: MockLlmView, input: LlmRequestView, data: Seq<u8>)
    requires
        s.responses.len() == 0,
        prompt_kind(lowercase(last_user_content(input.messages))) == PromptKind::Generic,
    ensures
        llm_fuzz(s, input, data).0.len() <= GENERIC_REPLY_MAX,
{
}

/// While a response is queued, fuzzing hands out exactly what `invoke` would, and leaves the
/// queue as `invoke` would; only `invoke` records the request.
pub proof fn law_queued_fuzz_matches_invoke(
    s: MockLlmView,
    input: LlmRequestView,
    data: Seq<u8>,
)
    requires
        s.responses.len() > 0,
    ensures
        llm_step(s, input).1 == Ok::<Seq<char>, ErrorView>(llm_fuzz(s, input, data).0),
        llm_step(s, input).0.responses == llm_fuzz(s, input, data).1.responses,
        llm_fuzz(s, input, data).1.requests == s.requests,
{
}

/// The prompt read is that of the latest user message: a user message appended to a
/// conversation becomes the prompt, and a message of another role appended leaves it as it
/// was.
pub proof fn law_latest_user_message_is_the_prompt(
    messages: Seq<LlmMessageView>,
    next: LlmMessageView,
)
    ensures
        next.role == LlmRole::User ==> last_user_content(messages.push(next)) == next.content,
        next.role != LlmRole::User ==> last_user_content(messages.push(next)) == last_user_content(
            messages,
        ),
        last_user_content(Seq::<LlmMessageView>::empty()) == Seq::<char>::empty(),
{
    assert(messages.push(next).drop_last() =~= messages);
}

} // verus!
