use arbitrary::Unstructured;
use vstd::prelude::*;
use vstd::string::*;

verus! {

/// What one `bool` drawn from `data` is, and the bytes left after it: `<bool as Arbitrary>`
/// reads one byte and takes its lowest bit, or gives `false` where no byte is left.
pub open spec fn bool_draw(data: Seq<u8>) -> (bool, Seq<u8>) {
    if data.len() > 0 {
        (data[0] % 2 == 1, after_first(data))
    } else {
        (false, data)
    }
}

/// The bytes left once the first byte, if there is one, is drawn.
pub open spec fn after_first(data: Seq<u8>) -> Seq<u8> {
    if data.len() > 0 {
        data.drop_first()
    } else {
        data
    }
}

/// How many bytes it takes to write `x`, at least one.
pub open spec fn byte_len(x: nat) -> nat
    decreases x,
{
    if x < 256 {
        1
    } else {
        1 + byte_len(x / 256)
    }
}

/// The number that `bytes` write, most significant byte first.
pub open spec fn big_endian(bytes: Seq<u8>) -> nat
    decreases bytes.len(),
{
    if bytes.len() == 0 {
        0
    } else {
        big_endian(bytes.drop_last()) * 256 + bytes.last() as nat
    }
}

/// An index below `len` drawn from `data`, and the bytes left, as
/// `Unstructured::choose_index(len)` draws it: no byte for a single choice; otherwise as many
/// bytes from the front as it takes to write `len - 1` (fewer where fewer are left), read
/// most significant first, modulo `len`.
pub open spec fn chosen_index(data: Seq<u8>, len: usize) -> (usize, Seq<u8>) {
    if len <= 1 {
        (0, data)
    } else {
        let taken = if data.len() < byte_len((len - 1) as nat) {
            data.len()
        } else {
            byte_len((len - 1) as nat)
        };
        ((big_endian(data.take(taken as int)) % (len as nat)) as usize, data.skip(taken as int))
    }
}

/// For up to 256 choices, the index is the first byte modulo `len`, 0 where no byte is left,
/// and at most that byte is drawn.
pub proof fn lemma_small_index(data: Seq<u8>, len: usize)
    requires
        2 <= len <= 256,
    ensures
        chosen_index(data, len).0 == (if data.len() > 0 {
            (data[0] as int % len as int) as usize
        } else {
            0
        }),
        chosen_index(data, len).1 == after_first(data),
{
    assert(byte_len((len - 1) as nat) == 1);
    if data.len() > 0 {
        let one = data.take(1);
        assert(one.drop_last() =~= Seq::<u8>::empty());
        assert(big_endian(one.drop_last()) == 0);
        assert(big_endian(one) == data[0] as nat);
        assert(data.skip(1) =~= data.drop_first());
        assert(chosen_index(data, len).0 == (big_endian(one) % (len as nat)) as usize);
        assert((data[0] as nat) % (len as nat) == data[0] as int % len as int);
    } else {
        assert(data.take(0) =~= Seq::<u8>::empty());
        assert(data.skip(0) =~= data);
        assert(big_endian(data.take(0)) == 0);
        vstd::arithmetic::div_mod::lemma_small_mod(0, len as nat);
    }
}

/// The index drawn lies below `len`, and the bytes left are the bytes given less some at the
/// front.
pub proof fn lemma_index_bounds(data: Seq<u8>, len: usize)
    requires
        len > 0,
    ensures
        chosen_index(data, len).0 < len,
        chosen_index(data, len).1.len() <= data.len(),
{
}

/// What `<String as Arbitrary>::arbitrary` over `data` answers, and the bytes it leaves.
pub uninterp spec fn arbitrary_text(data: Seq<u8>) -> (Seq<char>, Seq<u8>);

/// At most the first `max` characters of `text`.
pub open spec fn clip(text: Seq<char>, max: nat) -> Seq<char> {
    if text.len() <= max {
        text
    } else {
        text.take(max as int)
    }
}

/// What a string of at most `max` characters drawn from `data` is, and the bytes left.
pub open spec fn string_draw(data: Seq<u8>, max: nat) -> (Seq<char>, Seq<u8>) {
    (clip(arbitrary_text(data).0, max), arbitrary_text(data).1)
}

/// Draws a `bool` from `data` with `arbitrary`: `Unstructured::new` over the bytes, then
/// `Unstructured::arbitrary::<bool>`, then `Unstructured::take_rest`. The contract restates
/// what the crate's source does: the `u8` it reads is the first byte, or 0 where none is left
/// (`fill_buffer`), and the bool is its lowest bit.
#[verifier::external_body]
fn arbitrary_bool(data: &[u8]) -> (drawn: (bool, Vec<u8>))
    ensures
        (drawn.0, drawn.1@) == bool_draw(data@),
{
    let mut u = Unstructured::new(data);
    let value = u.arbitrary::<bool>().unwrap_or(false);
    (value, u.take_rest().to_vec())
}

/// Draws an index below `len` from `data`: `Unstructured::new` over the bytes, then
/// `Unstructured::choose_index(len)`, then `Unstructured::take_rest`. The contract restates
/// what the crate's source does in `int_in_range(0..=len - 1)`: it reads the bytes needed to
/// write `len - 1` from the front, most significant first, and takes the number modulo `len`.
#[verifier::external_body]
fn arbitrary_index(data: &[u8], len: usize) -> (drawn: (usize, Vec<u8>))
    requires
        len > 0,
    ensures
        (drawn.0, drawn.1@) == chosen_index(data@, len),
{
    let mut u = Unstructured::new(data);
    let index = u.choose_index(len).unwrap_or(0);
    (index, u.take_rest().to_vec())
}

/// Draws a string from `data`: `Unstructured::new` over the bytes, then
/// `<String as Arbitrary>::arbitrary`, then `Unstructured::take_rest`. The contract claims
/// that the answer is the named one and that the bytes left are no more than those given.
#[verifier::external_body]
fn arbitrary_string(data: &[u8]) -> (drawn: (String, Vec<u8>))
    ensures
        (drawn.0@, drawn.1@) == arbitrary_text(data@),
        drawn.1@.len() <= data@.len(),
{
    let mut u = Unstructured::new(data);
    let text = u.arbitrary::<String>().unwrap_or_default();
    (text, u.take_rest().to_vec())
}

/// A stream of random bytes that fuzzers draw from. It holds the bytes not yet drawn and
/// counts those drawn so far.
pub struct FuzzData {
    rest: Vec<u8>,
    total: usize,
}

impl FuzzData {
    #[verifier::type_invariant]
    spec fn bounded(&self) -> bool {
        self.rest@.len() <= self.total
    }

    /// The bytes not yet drawn.
    pub closed spec fn rest(&self) -> Seq<u8> {
        self.rest@
    }

    /// How many bytes have been drawn so far.
    pub closed spec fn drawn(&self) -> int {
        self.total - self.rest@.len()
    }

    /// A stream over `bytes`, nothing drawn yet.
    pub fn from_bytes(bytes: Vec<u8>) -> (data: Self)
        ensures
            data.rest() == bytes@,
            data.drawn() == 0,
    {
        let total = bytes.len();
        FuzzData { rest: bytes, total }
    }

    /// How many bytes have been drawn so far.
    pub fn pos(&self) -> (count: usize)
        ensures
            count == self.drawn(),
    {
        proof {
            use_type_invariant(self);
        }
        self.total - self.rest.len()
    }

    /// Replaces the bytes not yet drawn by `rest`, which holds no more of them.
    fn advance(&mut self, rest: Vec<u8>)
        requires
            rest@.len() <= old(self).rest@.len(),
        ensures
            final(self).rest() == rest@,
            final(self).drawn() == old(self).drawn() + (old(self).rest().len() - rest@.len()),
    {
        proof {
            use_type_invariant(&*self);
        }
        self.rest = rest;
    }

    /// Draws a `bool`.
    pub fn gen_bool(&mut self) -> (value: bool)
        ensures
            (value, final(self).rest()) == bool_draw(old(self).rest()),
            final(self).drawn() == old(self).drawn() + old(self).rest().len()
                - final(self).rest().len(),
    {
        let (value, rest) = arbitrary_bool(self.rest.as_slice());
        self.advance(rest);
        value
    }

    /// Draws an index below `len`.
    pub fn gen_index(&mut self, len: usize) -> (index: usize)
        requires
            len > 0,
        ensures
            (index, final(self).rest()) == chosen_index(old(self).rest(), len),
            index < len,
            2 <= len <= 256 ==> index == (if old(self).rest().len() > 0 {
                (old(self).rest()[0] as int % len as int) as usize
            } else {
                0
            }) && final(self).rest() == after_first(old(self).rest()),
            final(self).drawn() == old(self).drawn() + old(self).rest().len()
                - final(self).rest().len(),
    {
        let (index, rest) = arbitrary_index(self.rest.as_slice(), len);
        proof {
            lemma_index_bounds(self.rest@, len);
            if 2 <= len <= 256 {
                lemma_small_index(self.rest@, len);
            }
        }
        self.advance(rest);
        index
    }

    /// Draws a string of at most `max_chars` characters.
    pub fn gen_string(&mut self, max_chars: usize) -> (text: String)
        ensures
            (text@, final(self).rest()) == string_draw(old(self).rest(), max_chars as nat),
            final(self).drawn() == old(self).drawn() + old(self).rest().len()
                - final(self).rest().len(),
    {
        let (drawn, rest) = arbitrary_string(self.rest.as_slice());
        self.advance(rest);
        let n = drawn.as_str().unicode_len();
        if n <= max_chars {
            drawn
        } else {
            let kept = drawn.as_str().substring_char(0, max_chars);
            assert(drawn@.subrange(0, max_chars as int) =~= drawn@.take(max_chars as int));
            String::from_str(kept)
        }
    }
}

} // verus!
