//! What holds of every parse: the laws of the session that decides it.
use vstd::prelude::*;
use crate::decoder::words_of;
use crate::grammar::{lookup_spec, GrammarTable, InstructionGrammar, LogicalOperand, OperandKind, Quantifier};
use crate::operand::{decode_kind, OperandView};
use crate::parser::{
    decode_inst, module_result, next, split_spec, start, walk, Event, InstructionView,
    ModuleHeader, Phase, SessionView, State, MAGIC_NUMBER, MAGIC_NUMBER_SWAPPED,
};
use crate::parser::Action;

verus! {

/// The events of a session in state `s` when the consumer's replies are `replies`, in
/// order.
pub open spec fn run(g: GrammarTable, s: SessionView, replies: Seq<Action>) -> Seq<Event>
    decreases replies.len(),
{
    if replies.len() == 0 {
        seq![]
    } else {
        let (t, e) = next(g, s, replies[0]);
        seq![e] + run(g, t, replies.drop_first())
    }
}

/// A session gives one event per reply.
pub proof fn lemma_run_len(g: GrammarTable, s: SessionView, replies: Seq<Action>)
    ensures
        run(g, s, replies).len() == replies.len(),
    decreases replies.len(),
{
    if replies.len() > 0 {
        lemma_run_len(g, next(g, s, replies[0]).0, replies.drop_first());
    }
}

/// A finished session asks for no call, whatever it is told.
pub proof fn lemma_finished_stays_silent(g: GrammarTable, s: SessionView, replies: Seq<Action>)
    requires
        s.phase == Phase::Finished,
    ensures
        forall|i: int| 0 <= i < replies.len() ==> #[trigger] run(g, s, replies)[i] is Ended,
    decreases replies.len(),
{
    if replies.len() > 0 {
        lemma_finished_stays_silent(g, s, replies.drop_first());
        lemma_run_len(g, s, replies.drop_first());
        let rest = run(g, s, replies.drop_first());
        assert forall|i: int| 0 <= i < replies.len() implies #[trigger] run(g, s, replies)[i] is Ended by {
            if i > 0 {
                assert(run(g, s, replies)[i] == rest[i - 1]);
            }
        }
    }
}

/// When the consumer answers any call with `Stop`, the parse ends at once with
/// `ConsumerStopRequested`, and no call is asked for afterwards, whatever the
/// consumer is told to return.
pub proof fn lemma_stop_ends_parse(g: GrammarTable, s: SessionView, later: Seq<Action>)
    requires
        s.phase != Phase::Start,
        s.phase != Phase::Finished,
    ensures
        run(g, s, seq![Action::Stop] + later)[0] == Event::Done(Err(State::ConsumerStopRequested)),
        forall|i: int|
            1 <= i < later.len() + 1 ==> #[trigger] run(g, s, seq![Action::Stop] + later)[i] is Ended,
{
    let replies = seq![Action::Stop] + later;
    assert(replies.drop_first() =~= later);
    let (t, e) = next(g, s, Action::Stop);
    lemma_finished_stays_silent(g, t, later);
    lemma_run_len(g, t, later);
    assert forall|i: int| 1 <= i < later.len() + 1 implies #[trigger] run(g, s, replies)[i] is Ended by {
        assert(run(g, s, replies)[i] == run(g, t, later)[i - 1]);
    }
}

/// Decoding is deterministic: the same buffer, parsed against the same table by a
/// consumer that gives the same replies, yields the same events, and so the same
/// calls with the same arguments and the same outcome.
pub proof fn lemma_parse_deterministic(
    g: GrammarTable,
    b1: Seq<u8>,
    b2: Seq<u8>,
    r1: Seq<Action>,
    r2: Seq<Action>,
)
    requires
        b1 == b2,
        r1 == r2,
    ensures
        run(g, start(words_of(b1)), r1) == run(g, start(words_of(b2)), r2),
        module_result(g, words_of(b1)) == module_result(g, words_of(b2)),
{
}

/// The replies of a consumer that always says to continue.
pub open spec fn continues(n: nat) -> Seq<Action> {
    Seq::new(n, |i: int| Action::Continue)
}

/// A module that is a valid header and nothing else parses successfully: the
/// consumer is initialized, gets the header, and is finalized, with no instruction.
pub proof fn lemma_header_only_module(g: GrammarTable, w: Seq<u32>)
    requires
        w.len() == 5,
        w[0] == MAGIC_NUMBER,
    ensures
        module_result(g, w) == Ok::<(), State>(()),
        run(g, start(w), continues(4)) == seq![
            Event::Initialize,
            Event::Header(
                ModuleHeader {
                    magic_number: w[0],
                    version: w[1],
                    generator: w[2],
                    bound: w[3],
                    reserved_word: w[4],
                },
            ),
            Event::Finalize,
            Event::Done(Ok(())),
        ],
{
    reveal_with_fuel(run, 5);
    let c = continues(4);
    assert(c.drop_first() =~= continues(3));
    assert(continues(3).drop_first() =~= continues(2));
    assert(continues(2).drop_first() =~= continues(1));
    assert(continues(1).drop_first() =~= continues(0));
    assert(run(g, start(w), continues(4)) =~= seq![
        Event::Initialize,
        Event::Header(
            ModuleHeader {
                magic_number: w[0],
                version: w[1],
                generator: w[2],
                bound: w[3],
                reserved_word: w[4],
            },
        ),
        Event::Finalize,
        Event::Done(Ok(())),
    ]);
}

/// A header whose first word is the magic number with its bytes reversed ends the
/// parse with `EndiannessUnsupported`, before the consumer gets any header; any other
/// wrong first word ends it with `HeaderIncorrect`.
pub proof fn lemma_wrong_magic(g: GrammarTable, w: Seq<u32>)
    requires
        w.len() >= 5,
        w[0] != MAGIC_NUMBER,
    ensures
        w[0] == MAGIC_NUMBER_SWAPPED ==> module_result(g, w) == Err::<(), State>(
            State::EndiannessUnsupported,
        ) && run(g, start(w), continues(2)) == seq![
            Event::Initialize,
            Event::Done(Err(State::EndiannessUnsupported)),
        ],
        w[0] != MAGIC_NUMBER_SWAPPED ==> module_result(g, w) == Err::<(), State>(
            State::HeaderIncorrect,
        ) && run(g, start(w), continues(2)) == seq![
            Event::Initialize,
            Event::Done(Err(State::HeaderIncorrect)),
        ],
{
    reveal_with_fuel(run, 3);
    assert(continues(2).drop_first() =~= continues(1));
    assert(continues(1).drop_first() =~= continues(0));
    if w[0] == MAGIC_NUMBER_SWAPPED {
        assert(run(g, start(w), continues(2)) =~= seq![
            Event::Initialize,
            Event::Done(Err(State::EndiannessUnsupported)),
        ]);
    } else {
        assert(run(g, start(w), continues(2)) =~= seq![
            Event::Initialize,
            Event::Done(Err(State::HeaderIncorrect)),
        ]);
    }
}

/// A kind whose operand is always exactly one word.
pub open spec fn one_word(k: OperandKind) -> bool {
    k is IdResultType || k is IdResult || k is IdRef || k is LiteralInteger
}

/// Logical operands from the `li`-th on are all single one-word operands.
pub open spec fn fixed_from(los: Seq<LogicalOperand>, li: nat) -> bool {
    forall|j: int|
        li <= j < los.len() ==> #[trigger] los[j].quantifier == Quantifier::One && one_word(
            los[j].kind,
        )
}

/// Walking single one-word operands in a window whose words are all present reads one
/// word per operand, and runs out exactly when the window is shorter than the operands.
pub proof fn lemma_walk_fixed(
    g: GrammarTable,
    w: Seq<u32>,
    los: Seq<LogicalOperand>,
    li: nat,
    pos: nat,
    end: nat,
    index: usize,
    acc: InstructionView,
)
    requires
        li <= los.len(),
        fixed_from(los, li),
        pos <= end <= w.len(),
    ensures
        end - pos < los.len() - li ==> walk(g, w, los, li, pos, end, index, acc) == Err::<
            (InstructionView, nat),
            State,
        >(State::OperandExpected((4 * end) as usize, index)),
        end - pos >= los.len() - li ==> walk(g, w, los, li, pos, end, index, acc) is Ok && walk(
            g,
            w,
            los,
            li,
            pos,
            end,
            index,
            acc,
        )->Ok_0.1 == pos + (los.len() - li),
    decreases los.len() - li,
{
    if li < los.len() && pos < end {
        let lo = los[li as int];
        assert(lo.quantifier == Quantifier::One && one_word(lo.kind));
        let acc2 = match lo.kind {
            OperandKind::IdResultType => InstructionView { result_type: Some(w[pos as int]), ..acc },
            OperandKind::IdResult => InstructionView { result_id: Some(w[pos as int]), ..acc },
            _ => InstructionView {
                operands: acc.operands + decode_kind(g, w, pos, end, lo.kind)->Ok_0.0,
                ..acc
            },
        };
        lemma_walk_fixed(g, w, los, li + 1, pos + 1, end, index, acc2);
    } else if li < los.len() {
        assert(los[li as int].quantifier == Quantifier::One);
    }
}

/// For an instruction whose operands are all single one-word operands, a record with
/// fewer operand words than operands fails with `OperandExpected`, and one with more
/// fails with `OperandExceeded`; one with as many decodes.
pub proof fn lemma_fixed_operands(
    g: GrammarTable,
    w: Seq<u32>,
    pos: nat,
    index: usize,
    ig: InstructionGrammar,
)
    requires
        pos < w.len(),
        split_spec(w[pos as int]).0 > 0,
        pos + split_spec(w[pos as int]).0 <= w.len(),
        lookup_spec(g, split_spec(w[pos as int]).1) == Some(ig),
        fixed_from(ig.operands@, 0),
    ensures
        ({
            let wc = split_spec(w[pos as int]).0 as nat;
            let n = ig.operands@.len();
            &&& wc - 1 < n ==> decode_inst(g, w, pos, index) == Err::<
                Option<(InstructionView, nat)>,
                State,
            >(State::OperandExpected((4 * (pos + wc)) as usize, index))
            &&& wc - 1 > n ==> decode_inst(g, w, pos, index) == Err::<
                Option<(InstructionView, nat)>,
                State,
            >(State::OperandExceeded((4 * (pos + 1 + n)) as usize, index))
            &&& wc - 1 == n ==> (decode_inst(g, w, pos, index) matches Ok(Some((_, p))) && p == pos
                + wc)
        }),
{
    let (wc, opcode) = split_spec(w[pos as int]);
    let init = InstructionView { opcode, result_type: None, result_id: None, operands: seq![] };
    lemma_walk_fixed(g, w, ig.operands@, 0, pos + 1, pos + wc as nat, index, init);
}

/// Logical operands from the `li`-th on are single one-word operands but for the last,
/// a repeated one-word operand.
pub open spec fn variadic_from(los: Seq<LogicalOperand>, li: nat) -> bool {
    &&& li < los.len()
    &&& los.last().quantifier == Quantifier::ZeroOrMore
    &&& one_word(los.last().kind)
    &&& forall|j: int|
        li <= j < los.len() - 1 ==> #[trigger] los[j].quantifier == Quantifier::One && one_word(
            los[j].kind,
        )
}

/// The operand list entry that a one-word operand of kind `k` with word `x` gives:
/// none for the result type and the result, which have fields of their own.
pub open spec fn one_word_view(k: OperandKind, x: u32) -> Seq<OperandView> {
    match k {
        OperandKind::IdRef => seq![OperandView::IdRef(x)],
        OperandKind::LiteralInteger => seq![OperandView::LiteralInt32(x)],
        _ => seq![],
    }
}

/// The operand list that the words from `pos` to `end` give when they are read in
/// turn for the logical operands from the `li`-th on, the last of them repeating.
pub open spec fn word_operands(
    los: Seq<LogicalOperand>,
    li: nat,
    w: Seq<u32>,
    pos: nat,
    end: nat,
) -> Seq<OperandView>
    decreases end - pos,
{
    if pos >= end || li >= los.len() {
        seq![]
    } else {
        let nli = if li == los.len() - 1 {
            li
        } else {
            li + 1
        };
        one_word_view(los[li as int].kind, w[pos as int]) + word_operands(los, nli, w, pos + 1, end)
    }
}

/// Walking operands that end with a repeated one-word operand reads the whole window,
/// whatever its length beyond the fixed operands, and each repetition adds its operand
/// to the list in turn.
pub proof fn lemma_walk_variadic(
    g: GrammarTable,
    w: Seq<u32>,
    los: Seq<LogicalOperand>,
    li: nat,
    pos: nat,
    end: nat,
    index: usize,
    acc: InstructionView,
)
    requires
        variadic_from(los, li),
        pos + (los.len() - 1 - li) <= end <= w.len(),
    ensures
        walk(g, w, los, li, pos, end, index, acc) matches Ok((v, p)) && p == end && v.operands
            == acc.operands + word_operands(los, li, w, pos, end),
    decreases end - pos, los.len() - li,
{
    let lo = los[li as int];
    if li < los.len() - 1 {
        assert(lo.quantifier == Quantifier::One && one_word(lo.kind));
    }
    if pos < end {
        let acc2 = match lo.kind {
            OperandKind::IdResultType => InstructionView { result_type: Some(w[pos as int]), ..acc },
            OperandKind::IdResult => InstructionView { result_id: Some(w[pos as int]), ..acc },
            _ => InstructionView {
                operands: acc.operands + decode_kind(g, w, pos, end, lo.kind)->Ok_0.0,
                ..acc
            },
        };
        assert(acc2.operands == acc.operands + one_word_view(lo.kind, w[pos as int]));
        let nli = if li == los.len() - 1 {
            li
        } else {
            li + 1
        };
        lemma_walk_variadic(g, w, los, nli, pos + 1, end, index, acc2);
        assert(acc.operands + word_operands(los, li, w, pos, end) =~= acc2.operands
            + word_operands(los, nli, w, pos + 1, end));
    } else {
        assert(acc.operands + word_operands(los, li, w, pos, end) =~= acc.operands);
    }
}

/// For an instruction whose last operand is a repeated one-word operand, a record with
/// any number of words beyond the fixed operands decodes to one instruction that
/// takes up the whole record (never `OperandExceeded`), whose operand list holds the
/// operands of all the repetitions in turn.
pub proof fn lemma_variadic_operands(
    g: GrammarTable,
    w: Seq<u32>,
    pos: nat,
    index: usize,
    ig: InstructionGrammar,
)
    requires
        pos < w.len(),
        lookup_spec(g, split_spec(w[pos as int]).1) == Some(ig),
        variadic_from(ig.operands@, 0),
        ig.operands@.len() <= split_spec(w[pos as int]).0,
        pos + split_spec(w[pos as int]).0 <= w.len(),
    ensures
        decode_inst(g, w, pos, index) matches Ok(Some((inst, p))) && p == pos + split_spec(
            w[pos as int],
        ).0 && inst.operands == word_operands(
            ig.operands@,
            0,
            w,
            pos + 1,
            pos + split_spec(w[pos as int]).0 as nat,
        ),
{
    let (wc, opcode) = split_spec(w[pos as int]);
    let init = InstructionView { opcode, result_type: None, result_id: None, operands: seq![] };
    lemma_walk_variadic(g, w, ig.operands@, 0, pos + 1, pos + wc as nat, index, init);
    assert(init.operands + word_operands(ig.operands@, 0, w, pos + 1, pos + wc as nat)
        =~= word_operands(ig.operands@, 0, w, pos + 1, pos + wc as nat));
}

/// A record with a zero word count ends the parse with `WordCountZero`, carrying the
/// record's byte offset and its index counted from 1; a record whose opcode the table
/// lacks ends it with `OpcodeUnknown`, carrying the opcode. No instruction is handed
/// out for it, and none after it.
pub proof fn lemma_bad_record(g: GrammarTable, s: SessionView, later: Seq<Action>)
    requires
        s.phase == Phase::Instructions,
        s.pos < s.words.len(),
        s.index + 1 <= usize::MAX,
    ensures
        ({
            let (wc, opcode) = split_spec(s.words[s.pos as int]);
            let events = run(g, s, seq![Action::Continue] + later);
            &&& wc == 0 ==> events[0] == Event::Done(
                Err(State::WordCountZero((4 * s.pos) as usize, (s.index + 1) as usize)),
            )
            &&& wc != 0 && lookup_spec(g, opcode) is None ==> events[0] == Event::Done(
                Err(State::OpcodeUnknown((4 * s.pos) as usize, (s.index + 1) as usize, opcode)),
            )
            &&& (wc == 0 || lookup_spec(g, opcode) is None) ==> forall|i: int|
                1 <= i < later.len() + 1 ==> #[trigger] events[i] is Ended
        }),
{
    let replies = seq![Action::Continue] + later;
    assert(replies.drop_first() =~= later);
    let (t, e) = next(g, s, Action::Continue);
    let (wc, opcode) = split_spec(s.words[s.pos as int]);
    if wc == 0 || lookup_spec(g, opcode) is None {
        lemma_finished_stays_silent(g, t, later);
        lemma_run_len(g, t, later);
        assert forall|i: int| 1 <= i < later.len() + 1 implies #[trigger] run(g, s, replies)[i] is Ended by {
            assert(run(g, s, replies)[i] == run(g, t, later)[i - 1]);
        }
    }
}

} // verus!
