use std::collections::VecDeque;
use std::marker::PhantomData;
use vstd::prelude::*;
use vstd::string::*;

use crate::error::{ErrorView, ProviderError};
use crate::provider::IOProvider;

verus! {

/// Mock that returns pre-configured outputs in sequence, ignoring the input.
///
/// It must not be invoked more times than outputs were configured.
pub struct SequenceMock<I, O> {
    outputs: VecDeque<O>,
    inputs: Vec<I>,
}

impl<I, O> SequenceMock<I, O> {
    /// The outputs still queued, first one first.
    pub closed spec fn queued(&self) -> Seq<O> {
        self.outputs@
    }

    /// Every input received so far, oldest first.
    pub closed spec fn received(&self) -> Seq<I> {
        self.inputs@
    }

    /// A mock that hands out `outputs` in order.
    pub fn new(outputs: Vec<O>) -> (mock: Self)
        ensures
            mock.queued() == outputs@,
            mock.received() == Seq::<I>::empty(),
    {
        let ghost all = outputs@;
        let mut rest = outputs;
        let mut queue: VecDeque<O> = VecDeque::new();
        while rest.len() > 0
            invariant
                rest@.len() <= all.len(),
                rest@ == all.take(rest@.len() as int),
                queue@ == all.skip(rest@.len() as int),
            decreases rest@.len(),
        {
            let ghost n = rest@.len();
            let last = rest.pop().unwrap();
            queue.push_front(last);
            assert(queue@ =~= all.skip(n - 1));
            assert(rest@ =~= all.take(n - 1));
        }
        assert(queue@ =~= all);
        SequenceMock { outputs: queue, inputs: Vec::new() }
    }

    /// Every input received so far, oldest first.
    pub fn inputs(&self) -> (inputs: Vec<I>) where I: Clone
        ensures
            inputs@.len() == self.received().len(),
            forall|i: int|
                0 <= i < inputs@.len() ==> cloned::<I>(self.received()[i], #[trigger] inputs@[i]),
    {
        self.inputs.clone()
    }

    /// How many outputs are still queued.
    pub fn remaining(&self) -> (count: usize)
        ensures
            count == self.queued().len(),
    {
        self.outputs.len()
    }
}

impl<I, O> IOProvider<I, O> for SequenceMock<I, O> {
    /// An output must be left to hand out.
    open spec fn accepts(&self, input: I) -> bool {
        self.queued().len() > 0
    }

    /// Records the input and hands out the next queued output.
    fn invoke(&mut self, input: I) -> (answer: Result<O, ProviderError>)
        ensures
            answer is Ok,
            (final(self).queued(), final(self).received(), answer->Ok_0) == sequence_step(
                old(self).queued(),
                old(self).received(),
                input,
            ),
    {
        self.inputs.push(input);
        let next = self.outputs.pop_front();
        Ok(next.unwrap())
    }
}

/// What a `SequenceMock` with `queued` outputs that has received `received` does with
/// `input`: the outputs left, the inputs received, and the output handed out.
pub open spec fn sequence_step<I, O>(queued: Seq<O>, received: Seq<I>, input: I) -> (
    Seq<O>,
    Seq<I>,
    O,
) {
    (queued.drop_first(), received.push(input), queued[0])
}

/// The outputs left, the inputs received and the outputs handed out after a `SequenceMock`
/// receives `inputs` in order.
pub open spec fn sequence_run<I, O>(queued: Seq<O>, received: Seq<I>, inputs: Seq<I>) -> (
    Seq<O>,
    Seq<I>,
    Seq<O>,
)
    decreases inputs.len(),
{
    if inputs.len() == 0 {
        (queued, received, Seq::empty())
    } else {
        let (q, r, outs) = sequence_run(queued, received, inputs.drop_last());
        let (q2, r2, out) = sequence_step(q, r, inputs.last());
        (q2, r2, outs.push(out))
    }
}

/// Up to the number of outputs configured, a `SequenceMock` hands its outputs out in order,
/// and records every input once, in call order.
pub proof fn law_sequence_in_order<I, O>(queued: Seq<O>, received: Seq<I>, inputs: Seq<I>)
    requires
        inputs.len() <= queued.len(),
    ensures
        sequence_run(queued, received, inputs).0 == queued.skip(inputs.len() as int),
        sequence_run(queued, received, inputs).1 == received + inputs,
        sequence_run(queued, received, inputs).2 == queued.take(inputs.len() as int),
    decreases inputs.len(),
{
    if inputs.len() == 0 {
        assert(queued.skip(0) =~= queued);
        assert(received + inputs =~= received);
        assert(queued.take(0) =~= Seq::<O>::empty());
    } else {
        let init = inputs.drop_last();
        let n = init.len();
        law_sequence_in_order(queued, received, init);
        assert(queued.skip(n as int).drop_first() =~= queued.skip(n as int + 1));
        assert(received + inputs =~= (received + init).push(inputs.last()));
        assert(queued.take(n as int + 1) =~= queued.take(n as int).push(queued[n as int]));
    }
}

/// `after` is `before` with a copy of `input` recorded last.
pub open spec fn records_copy<I: Clone>(before: Seq<I>, input: I, after: Seq<I>) -> bool {
    &&& after.len() == before.len() + 1
    &&& after.drop_last() == before
    &&& cloned::<I>(input, after.last())
}

/// Where each call records a copy of its input, the record after `inputs` is the record
/// before followed by a copy of each input, in call order.
pub proof fn law_inputs_recorded_in_order<I: Clone>(records: Seq<Seq<I>>, inputs: Seq<I>)
    requires
        records.len() == inputs.len() + 1,
        forall|k: int|
            0 <= k < inputs.len() ==> records_copy(records[k], inputs[k], #[trigger] records[k + 1]),
    ensures
        records.last().len() == records[0].len() + inputs.len(),
        records.last().take(records[0].len() as int) == records[0],
        forall|k: int|
            0 <= k < inputs.len() ==> cloned::<I>(
                inputs[k],
                #[trigger] records.last()[records[0].len() + k],
            ),
    decreases inputs.len(),
{
    if inputs.len() > 0 {
        let n = inputs.len() - 1;
        let shorter = records.drop_last();
        let init = inputs.drop_last();
        assert forall|k: int| 0 <= k < init.len() implies records_copy(
            shorter[k],
            init[k],
            #[trigger] shorter[k + 1],
        ) by {
            assert(records_copy(records[k], inputs[k], records[k + 1]));
        }
        law_inputs_recorded_in_order(shorter, init);
        let before = records[n];
        let after = records.last();
        assert(records_copy(records[n], inputs[n], records[n + 1]));
        assert(after.drop_last() == before);
        assert(after.take(records[0].len() as int) =~= before.take(records[0].len() as int));
        assert forall|k: int| 0 <= k < inputs.len() implies cloned::<I>(
            inputs[k],
            #[trigger] after[records[0].len() + k],
        ) by {
            if k < n {
                assert(after[records[0].len() + k] == before[records[0].len() + k]);
                assert(cloned::<I>(init[k], shorter.last()[records[0].len() + k]));
            }
        }
    } else {
        assert(records.last().take(records[0].len() as int) =~= records[0]);
    }
}

/// Mock that computes output from input via a user-provided closure.
///
/// Requires `I: Clone` so inputs can be recorded.
#[verifier::reject_recursive_types(I)]
#[verifier::reject_recursive_types(O)]
pub struct FnMock<I, O, F: Fn(I) -> O> {
    func: F,
    inputs: Vec<I>,
    marker: PhantomData<O>,
}

impl<I, O, F: Fn(I) -> O> FnMock<I, O, F> {
    /// The closure that computes outputs.
    pub closed spec fn function(&self) -> F {
        self.func
    }

    /// Every input received so far, oldest first.
    pub closed spec fn received(&self) -> Seq<I> {
        self.inputs@
    }

    /// A mock that answers each input with `func` applied to it.
    pub fn new(func: F) -> (mock: Self)
        ensures
            mock.function() == func,
            mock.received() == Seq::<I>::empty(),
    {
        FnMock { func, inputs: Vec::new(), marker: PhantomData }
    }

    /// Every input received so far, oldest first.
    pub fn inputs(&self) -> (inputs: Vec<I>) where I: Clone
        ensures
            inputs@.len() == self.received().len(),
            forall|i: int|
                0 <= i < inputs@.len() ==> cloned::<I>(self.received()[i], #[trigger] inputs@[i]),
    {
        self.inputs.clone()
    }
}

impl<I: Clone, O, F: Fn(I) -> O> IOProvider<I, O> for FnMock<I, O, F> {
    /// The closure must accept the input.
    open spec fn accepts(&self, input: I) -> bool {
        call_requires(self.function(), (input,))
    }

    /// Records a copy of the input and answers with the closure applied to it.
    fn invoke(&mut self, input: I) -> (answer: Result<O, ProviderError>)
        ensures
            answer matches Ok(output) && call_ensures(old(self).function(), (input,), output),
            final(self).function() == old(self).function(),
            records_copy(old(self).received(), input, final(self).received()),
    {
        let copy = input.clone();
        self.inputs.push(copy);
        assert(self.inputs@.drop_last() =~= old(self).inputs@);
        Ok((self.func)(input))
    }
}

/// Mock that always returns an error.
///
/// Useful for asserting that a code path is never reached. `I` and `O` are the input and
/// output types of the provider it stands in for.
pub struct NeverMock<I, O> {
    message: String,
    marker: PhantomData<(I, O)>,
}

impl<I, O> NeverMock<I, O> {
    /// The message that every refusal carries.
    pub closed spec fn message(&self) -> Seq<char> {
        self.message@
    }

    /// The message, as the string that every refusal carries.
    pub closed spec fn message_text(&self) -> String {
        self.message
    }

    /// A mock that refuses every input with `message`.
    pub fn new(message: &str) -> (mock: Self)
        ensures
            mock.message() == message@,
            mock.message_text()@ == message@,
    {
        NeverMock { message: String::from_str(message), marker: PhantomData }
    }
}

impl<I, O> IOProvider<I, O> for NeverMock<I, O> {
    open spec fn accepts(&self, input: I) -> bool {
        true
    }

    /// Refuses the input.
    fn invoke(&mut self, input: I) -> (answer: Result<O, ProviderError>)
        ensures
            answer == Err::<O, ProviderError>(
                ProviderError::NeverInvoked { message: old(self).message_text() },
            ),
            final(self).message_text() == old(self).message_text(),
    {
        Err(ProviderError::NeverInvoked { message: self.message.clone() })
    }
}

/// Mock that always returns the same output.
pub struct ConstantMock<I, O> {
    output: O,
    inputs: Vec<I>,
}

impl<I, O: Clone> ConstantMock<I, O> {
    /// The output every call hands out a copy of.
    pub closed spec fn output(&self) -> O {
        self.output
    }

    /// Every input received so far, oldest first.
    pub closed spec fn received(&self) -> Seq<I> {
        self.inputs@
    }

    /// A mock that answers every input with a copy of `output`.
    pub fn new(output: O) -> (mock: Self)
        ensures
            mock.output() == output,
            mock.received() == Seq::<I>::empty(),
    {
        ConstantMock { output, inputs: Vec::new() }
    }

    /// Every input received so far, oldest first.
    pub fn inputs(&self) -> (inputs: Vec<I>) where I: Clone
        ensures
            inputs@.len() == self.received().len(),
            forall|i: int|
                0 <= i < inputs@.len() ==> cloned::<I>(self.received()[i], #[trigger] inputs@[i]),
    {
        self.inputs.clone()
    }
}

impl<I, O: Clone> IOProvider<I, O> for ConstantMock<I, O> {
    open spec fn accepts(&self, input: I) -> bool {
        true
    }

    /// Records the input and answers with a copy of the output.
    fn invoke(&mut self, input: I) -> (answer: Result<O, ProviderError>)
        ensures
            answer matches Ok(output) && cloned::<O>(old(self).output(), output),
            final(self).output() == old(self).output(),
            final(self).received() == old(self).received().push(input),
    {
        self.inputs.push(input);
        Ok(self.output.clone())
    }
}

} // verus!
