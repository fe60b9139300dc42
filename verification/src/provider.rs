use std::marker::PhantomData;
use vstd::arithmetic::div_mod::lemma_add_mod_noop;
use vstd::prelude::*;

use crate::error::ProviderError;
use crate::fuzz_data::FuzzData;

verus! {

/// The core trait: a provider takes an input `I` and produces an output `O`, or refuses.
///
/// `accepts` says in which states an input may be handed over at all; for most providers
/// every input is accepted.
pub trait IOProvider<I, O> {
    /// Whether `input` may be handed to `invoke` in the provider's current state.
    spec fn accepts(&self, input: I) -> bool;

    /// Hands `input` to the provider and returns its answer.
    fn invoke(&mut self, input: I) -> (answer: Result<O, ProviderError>)
        requires
            old(self).accepts(input),
    ;
}

/// Trait for generating realistic fake outputs for fuzzing state machines.
///
/// Implement this alongside `IOProvider<I, O>` to fuzz state machines without real I/O.
/// `fuzz` receives the input that would have been passed to `invoke`, so it can generate
/// contextually appropriate outputs, and draws what it needs from a stream of random bytes.
///
/// `fuzz_outcome` says which outputs, states of the fuzzer after the call and bytes left
/// undrawn an implementation allows for an input and the bytes it starts from.
pub trait Fuzz<I, O>: Sized {
    /// Whether a fuzzer in state `self`, given `input` and the bytes `data`, may answer
    /// `output`, be left in state `after` and leave the bytes `data_after` undrawn.
    spec fn fuzz_outcome(
        &self,
        input: I,
        data: Seq<u8>,
        output: O,
        after: Self,
        data_after: Seq<u8>,
    ) -> bool;

    fn fuzz(&mut self, input: &I, data: &mut FuzzData) -> (output: O)
        ensures
            old(self).fuzz_outcome(
                *input,
                old(data).rest(),
                output,
                *final(self),
                final(data).rest(),
            ),
            final(data).drawn() == old(data).drawn() + old(data).rest().len() - final(data).rest().len(),
    ;
}

/// Reads the system clock: the nanoseconds since the Unix epoch, 0 for a clock set before
/// it. The value depends on the time of the call, so nothing is stated of it.
#[verifier::external_body]
fn clock_nanos() -> u128 {
    std::time::SystemTime::now().duration_since(std::time::UNIX_EPOCH).unwrap_or_default().as_nanos()
}

/// How many bytes of random data a fuzz provider holds.
pub const FUZZ_DATA_LEN: usize = 1024;

/// The multiplier of the seeded byte generator.
pub const SEED_MULTIPLIER: u64 = 6364136223846793005;

/// Byte `i` of the data a provider seeded with `seed` holds: bits 33 to 40 of
/// `seed * SEED_MULTIPLIER + i`, computed modulo 2^64.
pub open spec fn seeded_byte(seed: u64, i: int) -> u8 {
    ((((seed as int) * (SEED_MULTIPLIER as int) + i) % 0x1_0000_0000_0000_0000int) / 0x2_0000_0000int
        % 256) as u8
}

/// Byte `i` of the data a provider seeded from the clock reading `nanos` holds: the low
/// byte of `nanos + i`.
pub open spec fn clock_byte(nanos: u128, i: int) -> u8 {
    ((nanos as int + i) % 256) as u8
}

/// `data` is the block of random data that the clock reading `nanos` seeds.
pub open spec fn clock_seeded(data: Seq<u8>, nanos: u128) -> bool {
    &&& data.len() == FUZZ_DATA_LEN
    &&& forall|i: int| 0 <= i < FUZZ_DATA_LEN ==> #[trigger] data[i] == clock_byte(nanos, i)
}

/// The random bytes that `seed` gives.
fn seeded_bytes(seed: u64) -> (data: Vec<u8>)
    ensures
        data@.len() == FUZZ_DATA_LEN,
        forall|i: int| 0 <= i < FUZZ_DATA_LEN ==> #[trigger] data@[i] == seeded_byte(seed, i),
{
    let mut data: Vec<u8> = Vec::new();
    let mut i: usize = 0;
    let scaled = seed.wrapping_mul(SEED_MULTIPLIER);
    while i < FUZZ_DATA_LEN
        invariant
            i <= FUZZ_DATA_LEN,
            scaled == ((seed as int) * (SEED_MULTIPLIER as int)) % 0x1_0000_0000_0000_0000int,
            data@.len() == i,
            forall|j: int| 0 <= j < i ==> #[trigger] data@[j] == seeded_byte(seed, j),
        decreases FUZZ_DATA_LEN - i,
    {
        let mixed = scaled.wrapping_add(i as u64);
        let byte = (mixed >> 33) as u8;
        proof {
            let m: int = 0x1_0000_0000_0000_0000int;
            assert(mixed == (scaled as int + i as int) % m);
            lemma_add_mod_noop((seed as int) * (SEED_MULTIPLIER as int), i as int, m);
            assert((i as int) % m == i as int);
            assert(((seed as int) * (SEED_MULTIPLIER as int) + i as int) % m == mixed);
            assert((mixed >> 33u64) as u8 == ((mixed / 0x2_0000_0000u64) % 256u64) as u8)
                by (bit_vector);
        }
        data.push(byte);
        i = i + 1;
    }
    data
}

/// A stream over the random bytes that `seed` gives, nothing drawn yet.
pub fn fuzz_stream_from_seed(seed: u64) -> (stream: FuzzData)
    ensures
        stream.rest().len() == FUZZ_DATA_LEN,
        forall|i: int| 0 <= i < FUZZ_DATA_LEN ==> #[trigger] stream.rest()[i] == seeded_byte(seed, i),
        stream.drawn() == 0,
{
    FuzzData::from_bytes(seeded_bytes(seed))
}

/// A stream over a copy of `bytes`, nothing drawn yet.
pub fn fuzz_stream_from_bytes(bytes: &[u8]) -> (stream: FuzzData)
    ensures
        stream.rest() == bytes@,
        stream.drawn() == 0,
{
    let mut copy: Vec<u8> = Vec::new();
    let mut i: usize = 0;
    while i < bytes.len()
        invariant
            i <= bytes@.len(),
            copy@ == bytes@.take(i as int),
        decreases bytes@.len() - i,
    {
        copy.push(bytes[i]);
        assert(bytes@.take(i + 1) =~= bytes@.take(i as int).push(bytes@[i as int]));
        i = i + 1;
    }
    assert(bytes@.take(bytes@.len() as int) =~= bytes@);
    FuzzData::from_bytes(copy)
}

/// Drop-in fuzzing wrapper: implements `IOProvider<I, O>` by calling the inner `Fuzz<I, O>`
/// implementation on a fixed block of random data.
pub struct FuzzProvider<F, I, O> {
    fuzz: F,
    data: Vec<u8>,
    marker: PhantomData<(I, O)>,
}

impl<F, I, O> FuzzProvider<F, I, O> {
    /// The wrapped fuzzer.
    pub closed spec fn inner(&self) -> F {
        self.fuzz
    }

    /// The random data every call hands to the fuzzer.
    pub closed spec fn data(&self) -> Seq<u8> {
        self.data@
    }

    /// A copy of the random data every call hands to the fuzzer.
    pub fn data_bytes(&self) -> (bytes: Vec<u8>)
        ensures
            bytes@ == self.data(),
    {
        self.data.clone()
    }

    /// A provider whose data comes from the system clock.
    pub fn new(fuzz: F) -> (provider: Self)
        ensures
            provider.inner() == fuzz,
            provider.data().len() == FUZZ_DATA_LEN,
            exists|nanos: u128| #[trigger] clock_seeded(provider.data(), nanos),
    {
        let nanos = clock_nanos();
        let provider = Self::with_clock_seed(fuzz, nanos);
        assert(clock_seeded(provider.data(), nanos));
        provider
    }

    /// A provider whose data comes from the clock reading `nanos`.
    pub fn with_clock_seed(fuzz: F, nanos: u128) -> (provider: Self)
        ensures
            provider.inner() == fuzz,
            provider.data().len() == FUZZ_DATA_LEN,
            forall|i: int|
                0 <= i < FUZZ_DATA_LEN ==> #[trigger] provider.data()[i] == clock_byte(nanos, i),
    {
        let mut data: Vec<u8> = Vec::new();
        let mut i: usize = 0;
        while i < FUZZ_DATA_LEN
            invariant
                i <= FUZZ_DATA_LEN,
                data@.len() == i,
                forall|j: int| 0 <= j < i ==> #[trigger] data@[j] == clock_byte(nanos, j),
            decreases FUZZ_DATA_LEN - i,
        {
            let low = (nanos % 256) as u8;
            let byte = low.wrapping_add((i % 256) as u8);
            proof {
                lemma_add_mod_noop(nanos as int, i as int, 256);
            }
            data.push(byte);
            i = i + 1;
        }
        FuzzProvider { fuzz, data, marker: PhantomData }
    }

    /// A provider whose data comes from `seed`, so that runs can be repeated.
    pub fn with_seed(fuzz: F, seed: u64) -> (provider: Self)
        ensures
            provider.inner() == fuzz,
            provider.data().len() == FUZZ_DATA_LEN,
            forall|i: int|
                0 <= i < FUZZ_DATA_LEN ==> #[trigger] provider.data()[i] == seeded_byte(seed, i),
    {
        let data = seeded_bytes(seed);
        FuzzProvider { fuzz, data, marker: PhantomData }
    }
}

impl<F: Fuzz<I, O>, I, O> IOProvider<I, O> for FuzzProvider<F, I, O> {
    open spec fn accepts(&self, input: I) -> bool {
        true
    }

    /// Hands `input` and a fresh stream over the provider's data to the fuzzer; the data
    /// itself is never used up, so every call starts from the same bytes.
    fn invoke(&mut self, input: I) -> (answer: Result<O, ProviderError>)
        ensures
            answer is Ok,
            exists|left: Seq<u8>|
                #[trigger] old(self).inner().fuzz_outcome(
                    input,
                    old(self).data(),
                    answer->Ok_0,
                    final(self).inner(),
                    left,
                ),
            final(self).data() == old(self).data(),
    {
        let bytes = self.data.clone();
        assert(bytes@ == self.data@);
        let mut source = FuzzData::from_bytes(bytes);
        let output = self.fuzz.fuzz(&input, &mut source);
        let answer: Result<O, ProviderError> = Ok(output);
        assert(old(self).inner().fuzz_outcome(
            input,
            old(self).data(),
            answer->Ok_0,
            self.inner(),
            source.rest(),
        ));
        answer
    }
}

/// The seed alone fixes the data: two providers seeded alike hold the same bytes.
pub proof fn law_seed_determines_data<F, I, O>(
    a: FuzzProvider<F, I, O>,
    b: FuzzProvider<F, I, O>,
    seed: u64,
)
    requires
        a.data().len() == FUZZ_DATA_LEN,
        b.data().len() == FUZZ_DATA_LEN,
        forall|i: int| 0 <= i < FUZZ_DATA_LEN ==> #[trigger] a.data()[i] == seeded_byte(seed, i),
        forall|i: int| 0 <= i < FUZZ_DATA_LEN ==> #[trigger] b.data()[i] == seeded_byte(seed, i),
    ensures
        a.data() == b.data(),
{
    assert(a.data() =~= b.data());
}

} // verus!
