use vstd::prelude::*;
use crate::decoder::DecodeError;
use crate::parser::State;

verus! {

/// The decimal digit `d`.
pub open spec fn digit(d: nat) -> char {
    seq!['0', '1', '2', '3', '4', '5', '6', '7', '8', '9'][d as int]
}

/// The decimal form of `n`, without leading zeros.
pub open spec fn decimal(n: nat) -> Seq<char>
    decreases n,
{
    if n < 10 {
        seq![digit(n)]
    } else {
        decimal(n / 10).push(digit(n % 10))
    }
}

/// Relies on `str::chars`: the characters of `s`, in order.
#[verifier::external_body]
fn str_chars(s: &str) -> (r: Vec<char>)
    ensures
        r@ == s@,
{
    s.chars().collect()
}

/// Relies on `String`'s `FromIterator<char>`: a string of the characters of `v`, in order.
#[verifier::external_body]
fn chars_to_string(v: Vec<char>) -> (r: String)
    ensures
        r@ == v@,
{
    v.into_iter().collect()
}

/// The decimal digits of `n`.
pub fn to_decimal(n: usize) -> (r: Vec<char>)
    ensures
        r@ == decimal(n as nat),
{
    let digits = str_chars("0123456789");
    assert(digits@ == seq!['0', '1', '2', '3', '4', '5', '6', '7', '8', '9']) by {
        reveal_strlit("0123456789");
    }
    let mut acc: Vec<char> = Vec::new();
    let mut m: usize = n;
    while m >= 10
        invariant
            digits@ == seq!['0', '1', '2', '3', '4', '5', '6', '7', '8', '9'],
            decimal(n as nat) == decimal(m as nat) + acc@,
        decreases m,
    {
        let ghost old_acc = acc@;
        acc.insert(0, digits[m % 10]);
        assert(decimal(m as nat) == decimal((m / 10) as nat).push(digit((m % 10) as nat)));
        assert(decimal((m / 10) as nat) + acc@ =~= decimal(m as nat) + old_acc);
        m = m / 10;
    }
    let ghost old_acc = acc@;
    acc.insert(0, digits[m]);
    assert(acc@ =~= decimal(m as nat) + old_acc);
    acc
}

/// `a` followed by `b`.
fn concat(a: Vec<char>, b: Vec<char>) -> (r: Vec<char>)
    ensures
        r@ == a@ + b@,
{
    let mut a = a;
    let mut b = b;
    a.append(&mut b);
    a
}

/// "`what` for instruction #`index` at offset `offset`".
pub open spec fn located(what: Seq<char>, offset: usize, index: usize) -> Seq<char> {
    what + " for instruction #"@ + decimal(index as nat) + " at offset "@ + decimal(offset as nat)
}

fn located_chars(what: Vec<char>, offset: usize, index: usize) -> (r: Vec<char>)
    ensures
        r@ == located(what@, offset, index),
{
    let r = concat(what, str_chars(" for instruction #"));
    let r = concat(r, to_decimal(index));
    let r = concat(r, str_chars(" at offset "));
    concat(r, to_decimal(offset))
}

/// The message of a cursor error.
pub open spec fn decode_message(e: DecodeError) -> Seq<char> {
    match e {
        DecodeError::StreamExpected(o) => "expected more bytes in the stream at offset "@ + decimal(
            o as nat,
        ),
        DecodeError::LimitReached(o) => "reached word limit at offset "@ + decimal(o as nat),
        DecodeError::EnumerantUnknown(o, v) => "unknown enumerant value "@ + decimal(v as nat)
            + " at offset "@ + decimal(o as nat),
    }
}

/// The message of a parser state.
pub open spec fn state_message(s: State) -> Seq<char> {
    match s {
        State::Complete => "completed parsing"@,
        State::ConsumerStopRequested => "stop parsing requested by consumer"@,
        State::ConsumerError(e) => "consumer error: "@ + e@,
        State::HeaderIncomplete(e) => "incomplete module header: "@ + decode_message(e),
        State::HeaderIncorrect => "incorrect module header"@,
        State::EndiannessUnsupported => "unsupported endianness"@,
        State::InstructionIncomplete(o, i) => "incomplete instruction #"@ + decimal(i as nat)
            + " at offset "@ + decimal(o as nat),
        State::WordCountZero(o, i) => located("zero word count found"@, o, i),
        State::OpcodeUnknown(o, i, op) => "unknown opcode ("@ + decimal(op as nat) + ")"@ + located(
            seq![],
            o,
            i,
        ),
        State::OperandExpected(o, i) => located("expected more operands"@, o, i),
        State::OperandExceeded(o, i) => located("found extra operands"@, o, i),
        State::OperandError(e) => "operand decoding error: "@ + decode_message(e),
    }
}

impl DecodeError {
    fn message_chars(&self) -> (r: Vec<char>)
        ensures
            r@ == decode_message(*self),
    {
        match self {
            DecodeError::StreamExpected(o) => concat(
                str_chars("expected more bytes in the stream at offset "),
                to_decimal(*o),
            ),
            DecodeError::LimitReached(o) => concat(
                str_chars("reached word limit at offset "),
                to_decimal(*o),
            ),
            DecodeError::EnumerantUnknown(o, v) => {
                let r = concat(str_chars("unknown enumerant value "), to_decimal(*v as usize));
                let r = concat(r, str_chars(" at offset "));
                concat(r, to_decimal(*o))
            },
        }
    }

    /// A readable message for the error.
    pub fn message(&self) -> (r: String)
        ensures
            r@ == decode_message(*self),
    {
        chars_to_string(self.message_chars())
    }
}

impl State {
    /// A readable message for the state.
    pub fn message(&self) -> (r: String)
        ensures
            r@ == state_message(*self),
    {
        let v = match self {
            State::Complete => str_chars("completed parsing"),
            State::ConsumerStopRequested => str_chars("stop parsing requested by consumer"),
            State::ConsumerError(e) => concat(str_chars("consumer error: "), str_chars(e.as_str())),
            State::HeaderIncomplete(e) => concat(
                str_chars("incomplete module header: "),
                e.message_chars(),
            ),
            State::HeaderIncorrect => str_chars("incorrect module header"),
            State::EndiannessUnsupported => str_chars("unsupported endianness"),
            State::InstructionIncomplete(o, i) => {
                let r = concat(str_chars("incomplete instruction #"), to_decimal(*i));
                let r = concat(r, str_chars(" at offset "));
                concat(r, to_decimal(*o))
            },
            State::WordCountZero(o, i) => located_chars(str_chars("zero word count found"), *o, *i),
            State::OpcodeUnknown(o, i, op) => {
                let r = concat(str_chars("unknown opcode ("), to_decimal(*op as usize));
                let r = concat(r, str_chars(")"));
                let tail = located_chars(Vec::new(), *o, *i);
                proof {
                    assert(tail@ =~= located(seq![], *o, *i));
                }
                let r2 = concat(r, tail);
                assert(r2@ =~= state_message(*self));
                r2
            },
            State::OperandExpected(o, i) => located_chars(str_chars("expected more operands"), *o, *i),
            State::OperandExceeded(o, i) => located_chars(str_chars("found extra operands"), *o, *i),
            State::OperandError(e) => concat(str_chars("operand decoding error: "), e.message_chars()),
        };
        chars_to_string(v)
    }
}

} // verus!
