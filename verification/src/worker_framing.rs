//! Length-delimited frames for the worker transport.
//!
//! A frame is the length of its payload as an unsigned base-128 number, the
//! low-order digits first and every digit but the last marked, followed by the
//! payload.

use vstd::prelude::*;

use crate::digest;
use crate::text;

verus! {

/// The longest length prefix.
pub const MAX_PREFIX_BYTES: usize = 10;

/// Why no frame could be read.
#[derive(Debug, PartialEq, Eq)]
pub enum FrameError {
    /// The pipe failed, with what it said.
    Io(String),
    /// The length prefix does not end in time, or is too large.
    InvalidLength,
    /// The length prefix does not count the bytes that follow it.
    LengthMismatch,
    /// The input ends inside a frame.
    UnexpectedEnd,
    /// The payload is no message, with what its decoder said.
    Decode(String),
}

impl FrameError {
    /// What is said about a broken frame.
    pub open spec fn message_text(&self) -> Seq<char> {
        match self {
            FrameError::Io(error) => "protobuf frame I/O failed: "@ + error@,
            FrameError::InvalidLength => "invalid protobuf frame length"@,
            FrameError::LengthMismatch => "protobuf frame length does not match its payload"@,
            FrameError::UnexpectedEnd => {
                "protobuf frame I/O failed: "@ + "failed to fill whole buffer"@
            },
            FrameError::Decode(error) => "protobuf payload failed to decode: "@ + error@,
        }
    }

    /// Says what is broken.
    pub fn message(&self) -> (result: String)
        ensures
            result@ == self.message_text(),
    {
        match self {
            FrameError::Io(error) => text::join_text("protobuf frame I/O failed: ", error.as_str()),
            FrameError::InvalidLength => "invalid protobuf frame length".to_owned(),
            FrameError::LengthMismatch => {
                "protobuf frame length does not match its payload".to_owned()
            },
            FrameError::UnexpectedEnd => text::join_text(
                "protobuf frame I/O failed: ",
                "failed to fill whole buffer",
            ),
            FrameError::Decode(error) => text::join_text(
                "protobuf payload failed to decode: ",
                error.as_str(),
            ),
        }
    }
}

/// A length as a prefix.
pub open spec fn length_prefix(length: nat) -> Seq<u8>
    decreases length,
{
    if length < 128 {
        seq![length as u8]
    } else {
        seq![(length % 128 + 128) as u8] + length_prefix(length / 128)
    }
}

/// A payload as a frame.
pub open spec fn frame_of(payload: Seq<u8>) -> Seq<u8> {
    length_prefix(payload.len()) + payload
}

/// How many bytes of the input belong to the prefix: up to and with the first
/// unmarked byte, or all of them.
pub open spec fn prefix_len(input: Seq<u8>) -> nat
    decreases input.len(),
{
    if input.len() == 0 {
        0
    } else if input[0] < 128 {
        1
    } else {
        1 + prefix_len(input.drop_first())
    }
}

/// The number that the digits of a prefix stand for.
pub open spec fn digits_value(prefix: Seq<u8>) -> nat
    decreases prefix.len(),
{
    if prefix.len() == 0 {
        0
    } else {
        (prefix[0] % 128) as nat + 128 * digits_value(prefix.drop_first())
    }
}

/// The length that a prefix stands for, in 64 bits.
pub open spec fn prefix_value(prefix: Seq<u8>) -> nat {
    digits_value(prefix) % 0x1_0000_0000_0000_0000
}

/// Whether a prefix is too long: ten bytes, all marked.
pub open spec fn overlong(input: Seq<u8>) -> bool {
    input.len() >= MAX_PREFIX_BYTES && forall|i: int|
        0 <= i < MAX_PREFIX_BYTES ==> #[trigger] input[i] >= 128
}

proof fn lemma_prefix_len_is(input: Seq<u8>, n: int)
    requires
        0 <= n < input.len(),
        forall|i: int| 0 <= i < n ==> #[trigger] input[i] >= 128,
        input[n] < 128,
    ensures
        prefix_len(input) == n + 1,
    decreases n,
{
    if n > 0 {
        let rest = input.drop_first();
        assert(input[0] >= 128);
        assert forall|i: int| 0 <= i < n - 1 implies #[trigger] rest[i] >= 128 by {
            assert(rest[i] == input[i + 1]);
        }
        lemma_prefix_len_is(rest, n - 1);
    }
}

proof fn lemma_prefix_len_all(input: Seq<u8>)
    requires
        forall|i: int| 0 <= i < input.len() ==> #[trigger] input[i] >= 128,
    ensures
        prefix_len(input) == input.len(),
    decreases input.len(),
{
    if input.len() > 0 {
        let rest = input.drop_first();
        assert(input[0] >= 128);
        assert forall|i: int| 0 <= i < rest.len() implies #[trigger] rest[i] >= 128 by {
            assert(rest[i] == input[i + 1]);
        }
        lemma_prefix_len_all(rest);
    }
}

/// Computes `prefix_value`.
fn value_of(prefix: &[u8]) -> (result: u64)
    ensures
        result == prefix_value(prefix@),
{
    let mut value: u64 = 0;
    let mut i: usize = prefix.len();
    assert(prefix@.skip(i as int) =~= Seq::<u8>::empty());
    while i > 0
        invariant
            i <= prefix@.len(),
            value == prefix_value(prefix@.skip(i as int)),
        decreases i,
    {
        let ghost before = digits_value(prefix@.skip(i as int));
        let ghost modulus: int = 0x1_0000_0000_0000_0000;
        i = i - 1;
        let digit: u64 = (prefix[i] % 128) as u64;
        proof {
            assert(prefix@.skip(i as int).drop_first() =~= prefix@.skip(i + 1));
            vstd::arithmetic::div_mod::lemma_mul_mod_noop_right(128, before as int, modulus);
            vstd::arithmetic::div_mod::lemma_add_mod_noop(
                digit as int,
                128 * before as int,
                modulus,
            );
            vstd::arithmetic::div_mod::lemma_add_mod_noop(
                digit as int,
                128 * (before as int % modulus),
                modulus,
            );
        }
        let shifted: u64 = value.wrapping_mul(128);
        assert(shifted as int == (value as int * 128) % modulus);
        value = digit.wrapping_add(shifted);
        assert(value as int == (digit as int + shifted as int) % modulus);
    }
    assert(prefix@.skip(0) =~= prefix@);
    value
}

/// Frames a payload.
pub fn encode(payload: &[u8]) -> (result: Vec<u8>)
    ensures
        result@ == frame_of(payload@),
{
    let mut frame: Vec<u8> = Vec::new();
    let mut length: u64 = payload.len() as u64;
    assert(frame@ + length_prefix(length as nat) =~= length_prefix(payload@.len()));
    while length >= 128
        invariant
            frame@ + length_prefix(length as nat) == length_prefix(payload@.len()),
        decreases length,
    {
        let ghost before = frame@;
        let digit: u8 = (length % 128) as u8 + 128;
        frame.push(digit);
        assert(frame@ + length_prefix((length / 128) as nat) =~= before + length_prefix(
            length as nat,
        ));
        length = length / 128;
    }
    let ghost before = frame@;
    frame.push(length as u8);
    assert(frame@ =~= before + length_prefix(length as nat));
    digest::append_bytes(&mut frame, payload);
    frame
}

/// How long the prefix at the start of the input is, or that it is too long.
fn measure_prefix(input: &[u8]) -> (result: Option<usize>)
    ensures
        match result {
            Some(length) => !overlong(input@) && length == prefix_len(input@) && length
                <= input@.len(),
            None => overlong(input@),
        },
{
    let mut i: usize = 0;
    while i < input.len() && i < MAX_PREFIX_BYTES
        invariant
            i <= input@.len(),
            i <= MAX_PREFIX_BYTES,
            forall|j: int| 0 <= j < i ==> #[trigger] input@[j] >= 128,
        decreases input@.len() - i,
    {
        if input[i] < 128 {
            proof {
                lemma_prefix_len_is(input@, i as int);
                assert(input@[i as int] < 128);
            }
            return Some(i + 1);
        }
        i = i + 1;
    }
    if i == MAX_PREFIX_BYTES {
        return None;
    }
    proof {
        lemma_prefix_len_all(input@);
    }
    Some(i)
}

/// What a whole frame is answered.
pub open spec fn frame_verdict(frame: Seq<u8>) -> Option<FrameError> {
    if overlong(frame) {
        Some(FrameError::InvalidLength)
    } else if prefix_value(frame.take(prefix_len(frame) as int)) != frame.len() - prefix_len(
        frame,
    ) {
        Some(FrameError::LengthMismatch)
    } else {
        None
    }
}

/// Takes the payload out of one whole frame.
pub fn decode(frame: &[u8]) -> (result: Result<&[u8], FrameError>)
    ensures
        match frame_verdict(frame@) {
            Some(error) => result == Err::<&[u8], FrameError>(error),
            None => result is Ok && result->Ok_0@ == frame@.skip(prefix_len(frame@) as int),
        },
{
    match measure_prefix(frame) {
        Some(offset) => {
            let prefix = &frame[0..offset];
            let payload = &frame[offset..frame.len()];
            assert(prefix@ =~= frame@.take(offset as int));
            assert(payload@ =~= frame@.skip(offset as int));
            if value_of(prefix) != payload.len() as u64 {
                return Err(FrameError::LengthMismatch);
            }
            Ok(payload)
        },
        None => Err(FrameError::InvalidLength),
    }
}

/// What the bytes of a prefix that were read so far call for.
#[derive(Debug, Clone, Copy, PartialEq, Eq, Structural)]
pub enum PrefixStep {
    /// One more byte.
    Continue,
    /// The payload of this length.
    Payload(usize),
    /// Nothing: the prefix is invalid.
    Invalid,
}

/// The next step of a reader that has read these bytes of a prefix.
pub open spec fn prefix_step(prefix: Seq<u8>) -> PrefixStep {
    if prefix.len() == 0 {
        PrefixStep::Continue
    } else if prefix.last() >= 128 {
        if prefix.len() >= MAX_PREFIX_BYTES {
            PrefixStep::Invalid
        } else {
            PrefixStep::Continue
        }
    } else if prefix_value(prefix) > usize::MAX {
        PrefixStep::Invalid
    } else {
        PrefixStep::Payload(prefix_value(prefix) as usize)
    }
}

/// Computes `prefix_step`.
pub fn next_step(prefix: &[u8]) -> (result: PrefixStep)
    ensures
        result == prefix_step(prefix@),
{
    if prefix.len() == 0 {
        return PrefixStep::Continue;
    }
    if prefix[prefix.len() - 1] >= 128 {
        if prefix.len() >= MAX_PREFIX_BYTES {
            PrefixStep::Invalid
        } else {
            PrefixStep::Continue
        }
    } else {
        let value: u64 = value_of(prefix);
        if value > usize::MAX as u64 {
            PrefixStep::Invalid
        } else {
            PrefixStep::Payload(value as usize)
        }
    }
}

/// A frame at the start of an input.
#[derive(Debug, Clone, Copy, PartialEq, Eq)]
pub struct Frame<'a> {
    pub payload: &'a [u8],
    /// How many bytes the frame takes.
    pub consumed: usize,
}

/// What an input that holds frames one after the other is answered. An empty
/// input is a clean end; any other end inside a frame is not.
pub open spec fn read_verdict(input: Seq<u8>) -> Result<Option<(Seq<u8>, nat)>, FrameError> {
    let n = prefix_len(input) as int;
    let length = prefix_value(input.take(n)) as int;
    if input.len() == 0 {
        Ok(None)
    } else if overlong(input) {
        Err(FrameError::InvalidLength)
    } else if input[n - 1] >= 128 {
        Err(FrameError::UnexpectedEnd)
    } else if length > usize::MAX {
        Err(FrameError::InvalidLength)
    } else if length > input.len() - n {
        Err(FrameError::UnexpectedEnd)
    } else {
        Ok(Some((input.subrange(n, n + length), (n + length) as nat)))
    }
}

proof fn lemma_prefix_len_bounds(input: Seq<u8>)
    ensures
        prefix_len(input) <= input.len(),
        input.len() > 0 ==> prefix_len(input) > 0,
    decreases input.len(),
{
    if input.len() > 0 {
        lemma_prefix_len_bounds(input.drop_first());
    }
}

/// Reads the frame at the start of an input.
pub fn read_frame(input: &[u8]) -> (result: Result<Option<Frame<'_>>, FrameError>)
    ensures
        match read_verdict(input@) {
            Err(error) => result == Err::<Option<Frame<'_>>, FrameError>(error),
            Ok(None) => result is Ok && result->Ok_0 is None,
            Ok(Some((payload, consumed))) => result is Ok && result->Ok_0 is Some
                && result->Ok_0->0.payload@ == payload && result->Ok_0->0.consumed == consumed,
        },
{
    if input.len() == 0 {
        return Ok(None);
    }
    proof {
        lemma_prefix_len_bounds(input@);
    }
    match measure_prefix(input) {
        Some(offset) => {
            if input[offset - 1] >= 128 {
                return Err(FrameError::UnexpectedEnd);
            }
            let prefix = &input[0..offset];
            assert(prefix@ =~= input@.take(offset as int));
            let value: u64 = value_of(prefix);
            if value > usize::MAX as u64 {
                return Err(FrameError::InvalidLength);
            }
            let length: usize = value as usize;
            if length > input.len() - offset {
                return Err(FrameError::UnexpectedEnd);
            }
            let consumed: usize = offset + length;
            Ok(Some(Frame { payload: &input[offset..consumed], consumed }))
        },
        None => Err(FrameError::InvalidLength),
    }
}

/// Appends the frame of a payload to an output.
pub fn write_frame(output: &mut Vec<u8>, payload: &[u8])
    ensures
        final(output)@ == old(output)@ + frame_of(payload@),
{
    let frame = encode(payload);
    digest::append_bytes(output, frame.as_slice());
}

proof fn lemma_length_prefix(length: nat, rest: Seq<u8>)
    ensures
        length_prefix(length).len() > 0,
        prefix_len(length_prefix(length) + rest) == length_prefix(length).len(),
        digits_value(length_prefix(length)) == length,
        length_prefix(length).last() < 128,
    decreases length,
{
    let prefix = length_prefix(length);
    if length < 128 {
        assert((prefix + rest)[0] == length as u8);
        assert(prefix.drop_first() =~= Seq::<u8>::empty());
        assert(prefix[0] as int == length);
        assert(digits_value(prefix.drop_first()) == 0);
    } else {
        let tail = length_prefix(length / 128);
        lemma_length_prefix(length / 128, rest);
        assert((prefix + rest)[0] == (length % 128 + 128) as u8);
        assert((prefix + rest).drop_first() =~= tail + rest);
        assert(prefix.drop_first() =~= tail);
        assert(prefix[0] as int == length % 128 + 128);
        assert(prefix.last() == tail.last());
    }
}

proof fn lemma_length_prefix_size(length: nat, bytes: nat)
    requires
        length < vstd::arithmetic::power::pow(128, bytes),
        bytes > 0,
    ensures
        length_prefix(length).len() <= bytes,
    decreases bytes,
{
    if length >= 128 {
        if bytes == 1 {
            vstd::arithmetic::power::lemma_pow1(128);
        } else {
            reveal_with_fuel(vstd::arithmetic::power::pow, 2);
            vstd::arithmetic::power::lemma_pow_adds(128, 1, (bytes - 1) as nat);
            vstd::arithmetic::power::lemma_pow1(128);
            assert(length / 128 < vstd::arithmetic::power::pow(128, (bytes - 1) as nat));
            lemma_length_prefix_size(length / 128, (bytes - 1) as nat);
        }
    }
}

proof fn lemma_frame_prefix(payload: Seq<u8>, rest: Seq<u8>)
    requires
        payload.len() <= u64::MAX,
    ensures
        ({
            let input = frame_of(payload) + rest;
            let n = length_prefix(payload.len()).len();
            &&& 0 < n <= MAX_PREFIX_BYTES
            &&& prefix_len(input) == n
            &&& input.take(n as int) == length_prefix(payload.len())
            &&& prefix_value(input.take(n as int)) == payload.len()
            &&& input[n - 1] < 128
            &&& !overlong(input)
        }),
{
    let input = frame_of(payload) + rest;
    let prefix = length_prefix(payload.len());
    lemma_length_prefix(payload.len(), payload + rest);
    assert(input =~= prefix + (payload + rest));
    assert(payload.len() < vstd::arithmetic::power::pow(128, 10)) by {
        reveal_with_fuel(vstd::arithmetic::power::pow, 11);
    }
    lemma_length_prefix_size(payload.len(), 10);
    assert(input.take(prefix.len() as int) =~= prefix);
    assert(input[prefix.len() - 1] == prefix.last());
    vstd::arithmetic::div_mod::lemma_small_mod(payload.len(), 0x1_0000_0000_0000_0000);
}

/// Decoding a frame gives back the payload that was framed.
pub proof fn law_frame_round_trip(payload: Seq<u8>)
    requires
        payload.len() <= u64::MAX,
    ensures
        frame_verdict(frame_of(payload)) is None,
        frame_of(payload).skip(prefix_len(frame_of(payload)) as int) == payload,
{
    lemma_frame_prefix(payload, Seq::empty());
    assert(frame_of(payload) + Seq::<u8>::empty() =~= frame_of(payload));
    assert(frame_of(payload).skip(length_prefix(payload.len()).len() as int) =~= payload);
}

/// Reading an input that begins with a frame gives its payload and leads to
/// what follows the frame, whatever that is.
pub proof fn law_frames_are_read_in_order(payload: Seq<u8>, rest: Seq<u8>)
    requires
        payload.len() <= usize::MAX,
    ensures
        read_verdict(frame_of(payload) + rest) == Ok::<Option<(Seq<u8>, nat)>, FrameError>(
            Some((payload, frame_of(payload).len())),
        ),
        (frame_of(payload) + rest).skip(frame_of(payload).len() as int) == rest,
{
    lemma_frame_prefix(payload, rest);
    let input = frame_of(payload) + rest;
    let n = length_prefix(payload.len()).len() as int;
    assert(input.subrange(n, n + payload.len()) =~= payload);
    assert(input.skip(frame_of(payload).len() as int) =~= rest);
}

/// A payload follows its length, which is written in digits of seven bits, the
/// lowest first, each but the last marked by the highest bit.
pub proof fn law_frame_states_the_length(payload: &[u8], frame: Vec<u8>)
    requires
        call_ensures(encode, (payload,), frame),
    ensures
        payload@.len() < 128 ==> frame@ == seq![payload@.len() as u8] + payload@,
        128 <= payload@.len() < 16384 ==> frame@ == seq![
            (128 + payload@.len() % 128) as u8,
            (payload@.len() / 128) as u8,
        ] + payload@,
        payload@.is_suffix_of(frame@),
{
    let n = payload@.len();
    reveal_with_fuel(length_prefix, 3);
    let prefix = length_prefix(n);
    assert(frame@.subrange(frame@.len() - n, frame@.len() as int) =~= payload@);
    if 128 <= n < 16384 {
        assert(n / 128 < 128);
        assert(prefix =~= seq![(128 + n % 128) as u8, (n / 128) as u8]);
    }
}

/// Decoding a frame gives back the payload that was framed.
pub proof fn law_decoding_undoes_encoding(
    payload: &[u8],
    frame: Vec<u8>,
    received: &[u8],
    result: Result<&[u8], FrameError>,
)
    requires
        payload@.len() <= u64::MAX,
        call_ensures(encode, (payload,), frame),
        received@ == frame@,
        call_ensures(decode, (received,), result),
    ensures
        result is Ok,
        result->Ok_0@ == payload@,
{
    law_frame_round_trip(payload@);
}

/// A frame that was written is read back as its payload, whatever follows it,
/// and the reader consumes exactly that frame.
pub proof fn law_reading_undoes_writing(
    payload: &[u8],
    frame: Vec<u8>,
    input: &[u8],
    rest: Seq<u8>,
    result: Result<Option<Frame<'_>>, FrameError>,
)
    requires
        payload@.len() <= usize::MAX,
        call_ensures(encode, (payload,), frame),
        input@ == frame@ + rest,
        call_ensures(read_frame, (input,), result),
    ensures
        result is Ok,
        result->Ok_0 is Some,
        result->Ok_0->0.payload@ == payload@,
        result->Ok_0->0.consumed == frame@.len(),
{
    law_frames_are_read_in_order(payload@, rest);
}

/// An end without any byte is no frame and no error.
pub proof fn law_end_of_input_is_clean(
    input: &[u8],
    result: Result<Option<Frame<'_>>, FrameError>,
)
    requires
        input@.len() == 0,
        call_ensures(read_frame, (input,), result),
    ensures
        result is Ok,
        result->Ok_0 is None,
{
}

/// A length that does not fit what follows it is refused.
pub proof fn law_other_lengths_are_refused(
    length: u8,
    payload: Seq<u8>,
    frame: &[u8],
    result: Result<&[u8], FrameError>,
)
    requires
        length < 128,
        frame@ == seq![length] + payload,
        call_ensures(decode, (frame,), result),
    ensures
        result is Ok <==> payload.len() == length,
        result is Err ==> result->Err_0 is LengthMismatch,
{
    assert(frame@[0] == length);
    assert(frame@.take(1).drop_first() =~= Seq::<u8>::empty());
    assert(frame@.take(1)[0] == length);
    reveal_with_fuel(digits_value, 2);
}

} // verus!
