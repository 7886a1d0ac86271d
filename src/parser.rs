use vstd::prelude::*;
use crate::decoder::{read_word, words_of, DecodeError, Decoder};
use crate::grammar::{
    kind_ok, lookup_spec, wf, GrammarTable, InstructionGrammar, LogicalOperand, OperandKind,
    Quantifier,
};
use crate::operand::{
    decode_kind, decode_operand, lemma_kind_progress, operands_view, Operand, OperandView,
};

verus! {

/// Number of words in a module header.
pub const HEADER_NUM_WORDS: usize = 5;

/// The first word of a module in native byte order.
pub const MAGIC_NUMBER: u32 = 0x07230203;

/// The magic number with its bytes reversed: a module of the other byte order.
pub const MAGIC_NUMBER_SWAPPED: u32 = 0x03022307;

/// Parser state: how a parse ended. Offsets are in bytes; instruction indices count
/// from 1.
#[derive(Debug, Clone, PartialEq, Eq)]
pub enum State {
    /// Parsing completed
    Complete,
    /// Consumer requested to stop parse
    ConsumerStopRequested,
    /// Consumer errored out with the given error
    ConsumerError(String),
    /// Incomplete module header
    HeaderIncomplete(DecodeError),
    /// Incorrect module header
    HeaderIncorrect,
    /// Unsupported endianness
    EndiannessUnsupported,
    /// Incomplete instruction at (byte offset, inst index)
    InstructionIncomplete(usize, usize),
    /// Zero instruction word count at (byte offset, inst index)
    WordCountZero(usize, usize),
    /// Unknown opcode at (byte offset, inst index, opcode)
    OpcodeUnknown(usize, usize, u16),
    /// Expected more operands (byte offset, inst index)
    OperandExpected(usize, usize),
    /// found redundant operands (byte offset, inst index)
    OperandExceeded(usize, usize),
    /// Errored out when decoding operand with the given error
    OperandError(DecodeError),
}

impl State {
    /// A short description of the state.
    pub fn description(&self) -> (r: &'static str) {
        match self {
            State::Complete => "completed parsing",
            State::ConsumerStopRequested => "stop parsing requested by consumer",
            State::ConsumerError(_) => "consumer error",
            State::HeaderIncomplete(_) => "incomplete module header",
            State::HeaderIncorrect => "incorrect module header",
            State::EndiannessUnsupported => "unsupported endianness",
            State::InstructionIncomplete(..) => "incomplete instruction",
            State::WordCountZero(..) => "zero word count found",
            State::OpcodeUnknown(..) => "unknown opcode",
            State::OperandExpected(..) => "expected more operands",
            State::OperandExceeded(..) => "found extra operands",
            State::OperandError(_) => "operand decoding error",
        }
    }
}

/// Orders consumer sent to the parser after each consuming call.
#[derive(Debug, Clone, PartialEq, Eq)]
pub enum Action {
    /// Continue the parsing
    Continue,
    /// Normally stop the parsing
    Stop,
    /// Error out with the given error
    Error(String),
}

/// The five words of a module header.
#[derive(Debug, Clone, Copy, PartialEq, Eq)]
pub struct ModuleHeader {
    pub magic_number: u32,
    pub version: u32,
    pub generator: u32,
    pub bound: u32,
    pub reserved_word: u32,
}

impl ModuleHeader {
    /// A header with the given words.
    pub fn new(magic_number: u32, version: u32, generator: u32, bound: u32, reserved_word: u32) -> (r:
        ModuleHeader)
        ensures
            r == (ModuleHeader { magic_number, version, generator, bound, reserved_word }),
    {
        ModuleHeader { magic_number, version, generator, bound, reserved_word }
    }
}

/// A decoded instruction.
#[derive(Debug, Clone, PartialEq, Eq)]
pub struct Instruction {
    pub opcode: u16,
    pub result_type: Option<u32>,
    pub result_id: Option<u32>,
    pub operands: Vec<Operand>,
}

/// The mathematical value of an [`Instruction`].
pub struct InstructionView {
    pub opcode: u16,
    pub result_type: Option<u32>,
    pub result_id: Option<u32>,
    pub operands: Seq<OperandView>,
}

impl View for Instruction {
    type V = InstructionView;

    open spec fn view(&self) -> InstructionView {
        InstructionView {
            opcode: self.opcode,
            result_type: self.result_type,
            result_id: self.result_id,
            operands: operands_view(self.operands@),
        }
    }
}

/// The header of the words `w`, or why there is none.
pub open spec fn header_spec(w: Seq<u32>) -> Result<ModuleHeader, State> {
    if w.len() < 5 {
        Err(State::HeaderIncomplete(DecodeError::StreamExpected((4 * w.len()) as usize)))
    } else if w[0] != MAGIC_NUMBER {
        if w[0] == MAGIC_NUMBER_SWAPPED {
            Err(State::EndiannessUnsupported)
        } else {
            Err(State::HeaderIncorrect)
        }
    } else {
        Ok(
            ModuleHeader {
                magic_number: w[0],
                version: w[1],
                generator: w[2],
                bound: w[3],
                reserved_word: w[4],
            },
        )
    }
}

/// The word count (high half) and the opcode (low half) of an instruction's first word.
pub open spec fn split_spec(word: u32) -> (u16, u16) {
    ((word >> 16u32) as u16, (word & 0xffff) as u16)
}

/// Walks the logical operands `los` from the `li`-th, with the next word at `pos` in a
/// window ending at `end`, adding what is read to `acc`. `index` is the instruction's
/// index, for errors. Decoding an operand always moves forward within the window
/// (`lemma_kind_progress`), so the branches that stop the walk otherwise are never taken.
pub open spec fn walk(
    g: GrammarTable,
    w: Seq<u32>,
    los: Seq<LogicalOperand>,
    li: nat,
    pos: nat,
    end: nat,
    index: usize,
    acc: InstructionView,
) -> Result<(InstructionView, nat), State>
    decreases end - pos, los.len() - li,
{
    if li >= los.len() || pos > end {
        Ok((acc, pos))
    } else if pos < end {
        let lo = los[li as int];
        let step: Result<(InstructionView, nat), DecodeError> = match lo.kind {
            OperandKind::IdResultType => match read_word(w, pos, Some(end)) {
                Ok(x) => Ok((InstructionView { result_type: Some(x), ..acc }, pos + 1)),
                Err(e) => Err(e),
            },
            OperandKind::IdResult => match read_word(w, pos, Some(end)) {
                Ok(x) => Ok((InstructionView { result_id: Some(x), ..acc }, pos + 1)),
                Err(e) => Err(e),
            },
            _ => match decode_kind(g, w, pos, end, lo.kind) {
                Ok((o, p)) => Ok((InstructionView { operands: acc.operands + o, ..acc }, p)),
                Err(e) => Err(e),
            },
        };
        match step {
            Err(e) => Err(State::OperandError(e)),
            Ok((acc2, p)) => {
                if pos < p <= end {
                    match lo.quantifier {
                        Quantifier::ZeroOrMore => walk(g, w, los, li, p, end, index, acc2),
                        _ => walk(g, w, los, li + 1, p, end, index, acc2),
                    }
                } else {
                    Ok((acc2, p))
                }
            },
        }
    } else {
        match los[li as int].quantifier {
            Quantifier::One => Err(State::OperandExpected((4 * pos) as usize, index)),
            _ => Ok((acc, pos)),
        }
    }
}

/// The instruction whose first word is at `pos`, with the position after it; `None`
/// at the end of the words. Errors name the byte offset of the record's first word,
/// except `OperandExpected` (where the missing operand would start) and
/// `OperandExceeded` (the first word left over).
pub open spec fn decode_inst(g: GrammarTable, w: Seq<u32>, pos: nat, index: usize) -> Result<
    Option<(InstructionView, nat)>,
    State,
> {
    if pos >= w.len() {
        Ok(None)
    } else {
        let (wc, opcode) = split_spec(w[pos as int]);
        if wc == 0 {
            Err(State::WordCountZero((4 * pos) as usize, index))
        } else {
            match lookup_spec(g, opcode) {
                None => Err(State::OpcodeUnknown((4 * pos) as usize, index, opcode)),
                Some(ig) => {
                    let end = pos + wc as nat;
                    let init = InstructionView {
                        opcode,
                        result_type: None,
                        result_id: None,
                        operands: seq![],
                    };
                    match walk(g, w, ig.operands@, 0, pos + 1, end, index, init) {
                        Err(e) => Err(e),
                        Ok((inst, p)) => {
                            if p < end {
                                Err(State::OperandExceeded((4 * p) as usize, index))
                            } else {
                                Ok(Some((inst, p)))
                            }
                        },
                    }
                },
            }
        }
    }
}

/// Walking operands never moves back and stays in the window.
pub proof fn lemma_walk_progress(
    g: GrammarTable,
    w: Seq<u32>,
    los: Seq<LogicalOperand>,
    li: nat,
    pos: nat,
    end: nat,
    index: usize,
    acc: InstructionView,
)
    requires
        pos <= end,
    ensures
        walk(g, w, los, li, pos, end, index, acc) matches Ok((_, p)) ==> pos <= p <= end,
    decreases end - pos, los.len() - li,
{
    if li < los.len() && pos < end {
        let lo = los[li as int];
        lemma_kind_progress(g, w, pos, end, lo.kind);
        let next = match lo.quantifier {
            Quantifier::ZeroOrMore => li,
            _ => li + 1,
        };
        let p = match lo.kind {
            OperandKind::IdResultType => pos + 1,
            OperandKind::IdResult => pos + 1,
            _ => match decode_kind(g, w, pos, end, lo.kind) {
                Ok((_, p)) => p,
                Err(_) => pos,
            },
        };
        let acc2 = match lo.kind {
            OperandKind::IdResultType => InstructionView {
                result_type: Some(w[pos as int]),
                ..acc
            },
            OperandKind::IdResult => InstructionView { result_id: Some(w[pos as int]), ..acc },
            _ => match decode_kind(g, w, pos, end, lo.kind) {
                Ok((o, _)) => InstructionView { operands: acc.operands + o, ..acc },
                Err(_) => acc,
            },
        };
        if pos < p <= end {
            lemma_walk_progress(g, w, los, next, p, end, index, acc2);
        }
    }
}

/// A decoded instruction ends where its word count says.
pub proof fn lemma_inst_length(g: GrammarTable, w: Seq<u32>, pos: nat, index: usize)
    ensures
        decode_inst(g, w, pos, index) matches Ok(Some((_, p))) ==> p == pos + split_spec(
            w[pos as int],
        ).0 && p > pos,
{
    if pos < w.len() {
        let (wc, opcode) = split_spec(w[pos as int]);
        if wc != 0 {
            match lookup_spec(g, opcode) {
                Some(ig) => {
                    let init = InstructionView {
                        opcode,
                        result_type: None,
                        result_id: None,
                        operands: seq![],
                    };
                    lemma_walk_progress(g, w, ig.operands@, 0, pos + 1, pos + wc as nat, index, init);
                },
                None => {},
            }
        }
    }
}

/// Splits an instruction's first word into its word count and its opcode.
pub fn split_into_word_count_and_opcode(word: u32) -> (r: (u16, u16))
    ensures
        r == split_spec(word),
{
    ((word >> 16u32) as u16, (word & 0xffff) as u16)
}

/// Where a session stands in the sequence of consumer calls.
#[derive(Debug, Clone, Copy, PartialEq, Eq)]
pub enum Phase {
    /// Nothing has been done yet.
    Start,
    /// `initialize` was called.
    Initialized,
    /// The header, and maybe some instructions, were handed out.
    Instructions,
    /// `finalize` was called.
    Finalized,
    /// The outcome was given.
    Finished,
}

/// What a session holds: the words, the position of the next word, the index of the
/// last instruction handed out, and the phase.
pub struct SessionView {
    pub words: Seq<u32>,
    pub pos: nat,
    pub index: nat,
    pub phase: Phase,
}

/// What the driver of a session does next.
pub enum Event {
    Initialize,
    Header(ModuleHeader),
    Instruction(InstructionView),
    Finalize,
    Done(Result<(), State>),
    Ended,
}

/// The call a session asks its driver to make on the consumer.
#[derive(Debug)]
pub enum Callback {
    Initialize,
    ConsumeHeader(ModuleHeader),
    ConsumeInstruction(Instruction),
    Finalize,
}

/// One step of a session: a call to make, the outcome, or nothing when the outcome
/// was already given.
#[derive(Debug)]
pub enum Step {
    Call(Callback),
    Done(Result<(), State>),
    Ended,
}

impl Step {
    pub open spec fn event(&self) -> Event {
        match self {
            Step::Call(Callback::Initialize) => Event::Initialize,
            Step::Call(Callback::ConsumeHeader(h)) => Event::Header(*h),
            Step::Call(Callback::ConsumeInstruction(i)) => Event::Instruction(i@),
            Step::Call(Callback::Finalize) => Event::Finalize,
            Step::Done(r) => Event::Done(*r),
            Step::Ended => Event::Ended,
        }
    }
}

/// The state of a session that ended.
pub open spec fn finish(s: SessionView) -> SessionView {
    SessionView { phase: Phase::Finished, ..s }
}

/// What a session in state `s` does when the consumer's last call returned `reply`:
/// its next state and its next event. A session that has not started ignores `reply`.
pub open spec fn next(g: GrammarTable, s: SessionView, reply: Action) -> (SessionView, Event) {
    match s.phase {
        Phase::Start => (SessionView { phase: Phase::Initialized, ..s }, Event::Initialize),
        Phase::Finished => (s, Event::Ended),
        _ => match reply {
            Action::Stop => (finish(s), Event::Done(Err(State::ConsumerStopRequested))),
            Action::Error(c) => (finish(s), Event::Done(Err(State::ConsumerError(c)))),
            Action::Continue => match s.phase {
                Phase::Initialized => match header_spec(s.words) {
                    Err(e) => (finish(s), Event::Done(Err(e))),
                    Ok(h) => (
                        SessionView { pos: 5, phase: Phase::Instructions, ..s },
                        Event::Header(h),
                    ),
                },
                Phase::Instructions => match decode_inst(
                    g,
                    s.words,
                    s.pos,
                    (s.index + 1) as usize,
                ) {
                    Err(e) => (finish(s), Event::Done(Err(e))),
                    Ok(None) => (SessionView { phase: Phase::Finalized, ..s }, Event::Finalize),
                    Ok(Some((inst, p))) => (
                        SessionView { pos: p, index: s.index + 1, ..s },
                        Event::Instruction(inst),
                    ),
                },
                _ => (finish(s), Event::Done(Ok(()))),
            },
        },
    }
}

/// A fresh session over the words `w`.
pub open spec fn start(w: Seq<u32>) -> SessionView {
    SessionView { words: w, pos: 0, index: 0, phase: Phase::Start }
}

/// A session state that can be reached: within its words, and at the first word with
/// no instruction read before the header.
pub open spec fn view_ok(s: SessionView) -> bool {
    &&& s.pos <= s.words.len()
    &&& (s.phase == Phase::Start || s.phase == Phase::Initialized) ==> s.pos == 0 && s.index == 0
}

/// A session: the decisions of a parse, one consumer call at a time.
pub struct Session {
    decoder: Decoder,
    inst_index: usize,
    phase: Phase,
}

impl View for Session {
    type V = SessionView;

    closed spec fn view(&self) -> SessionView {
        SessionView {
            words: self.decoder@.words,
            pos: self.decoder@.pos,
            index: self.inst_index as nat,
            phase: self.phase,
        }
    }
}

impl Session {
    pub closed spec fn wf(&self) -> bool {
        &&& self.decoder.wf()
        &&& self.decoder@.end is None
        &&& self.phase != Phase::Finished ==> self.inst_index <= self.decoder@.pos
        &&& view_ok(self@)
    }

    /// A session over the words of `binary`.
    pub fn new(binary: Vec<u8>) -> (r: Session)
        ensures
            r.wf(),
            view_ok(r@),
            r@ == start(words_of(binary@)),
    {
        Session { decoder: Decoder::new(binary), inst_index: 0, phase: Phase::Start }
    }

    /// Reads the module header.
    fn parse_header(&mut self) -> (r: Result<ModuleHeader, State>)
        requires
            old(self).wf(),
            old(self).decoder@.pos == 0,
        ensures
            final(self).decoder.wf(),
            final(self).decoder@.end is None,
            final(self).decoder@.words == old(self).decoder@.words,
            final(self).inst_index == old(self).inst_index,
            final(self).phase == old(self).phase,
            r == header_spec(old(self).decoder@.words),
            r is Ok ==> final(self).decoder@.pos == 5,
    {
        match self.decoder.words(HEADER_NUM_WORDS) {
            Ok(words) => {
                if words[0] != MAGIC_NUMBER {
                    if words[0] == MAGIC_NUMBER_SWAPPED {
                        return Err(State::EndiannessUnsupported);
                    } else {
                        return Err(State::HeaderIncorrect);
                    }
                }
                Ok(ModuleHeader::new(words[0], words[1], words[2], words[3], words[4]))
            },
            Err(err) => Err(State::HeaderIncomplete(err)),
        }
    }

    /// Walks the logical operands of `grammar` in the open window.
    fn parse_operands(
        &mut self,
        g: &GrammarTable,
        grammar: &InstructionGrammar,
        opcode: u16,
        index: usize,
    ) -> (r:
        Result<Instruction, State>)
        requires
            wf(*g),
            forall|j: int|
                0 <= j < grammar.operands@.len() ==> kind_ok(*g, #[trigger] grammar.operands@[j].kind),
            old(self).decoder.wf(),
            old(self).decoder@.end is Some,
            old(self).decoder@.pos <= old(self).decoder@.end->0,
        ensures
            final(self).decoder.wf(),
            final(self).decoder@.words == old(self).decoder@.words,
            final(self).decoder@.end == old(self).decoder@.end,
            final(self).decoder@.pos <= final(self).decoder@.end->0,
            final(self).inst_index == old(self).inst_index,
            final(self).phase == old(self).phase,
            match walk(
                *g,
                old(self).decoder@.words,
                grammar.operands@,
                0,
                old(self).decoder@.pos,
                old(self).decoder@.end->0,
                index,
                InstructionView { opcode, result_type: None, result_id: None, operands: seq![] },
            ) {
                Ok((inst, p)) => r is Ok && r->Ok_0@ == inst && final(self).decoder@.pos == p,
                Err(e) => r is Err && r->Err_0 == e,
            },
    {
        let ghost w = self.decoder@.words;
        let ghost end = self.decoder@.end->0;
        let ghost los = grammar.operands@;
        let ghost whole = walk(
            *g,
            w,
            los,
            0,
            self.decoder@.pos,
            end,
            index,
            InstructionView { opcode, result_type: None, result_id: None, operands: seq![] },
        );
        let mut rtype: Option<u32> = None;
        let mut rid: Option<u32> = None;
        let mut coperands: Vec<Operand> = Vec::new();
        let mut li: usize = 0;
        assert(operands_view(coperands@) =~= seq![]);
        while li < grammar.operands.len()
            invariant
                wf(*g),
                old(self).decoder@.end is Some,
                forall|j: int| 0 <= j < los.len() ==> kind_ok(*g, #[trigger] los[j].kind),
                los == grammar.operands@,
                w == old(self).decoder@.words,
                end == old(self).decoder@.end->0,
                whole == walk(
                    *g,
                    w,
                    los,
                    0,
                    old(self).decoder@.pos,
                    end,
                    index,
                    InstructionView { opcode, result_type: None, result_id: None, operands: seq![] },
                ),
                self.decoder.wf(),
                self.decoder@.words == w,
                self.decoder@.end == Some(end),
                self.decoder@.pos <= end,
                self.inst_index == old(self).inst_index,
                self.phase == old(self).phase,
                li <= los.len(),
                whole == walk(
                    *g,
                    w,
                    los,
                    li as nat,
                    self.decoder@.pos,
                    end,
                    index,
                    InstructionView {
                        opcode,
                        result_type: rtype,
                        result_id: rid,
                        operands: operands_view(coperands@),
                    },
                ),
            decreases end - self.decoder@.pos, los.len() - li,
        {
            let loperand = grammar.operands[li];
            let ghost pos = self.decoder@.pos;
            if !self.decoder.limit_reached() {
                match loperand.kind {
                    OperandKind::IdResultType => {
                        match self.decoder.id() {
                            Ok(x) => {
                                rtype = Some(x);
                            },
                            Err(e) => {
                                return Err(State::OperandError(e));
                            },
                        }
                    },
                    OperandKind::IdResult => {
                        match self.decoder.id() {
                            Ok(x) => {
                                rid = Some(x);
                            },
                            Err(e) => {
                                return Err(State::OperandError(e));
                            },
                        }
                    },
                    _ => {
                        let ghost before = operands_view(coperands@);
                        match decode_operand(g, &mut self.decoder, loperand.kind) {
                            Ok(v) => {
                                let ghost vv = operands_view(v@);
                                let mut v = v;
                                coperands.append(&mut v);
                                assert(operands_view(coperands@) =~= before + vv);
                            },
                            Err(e) => {
                                return Err(State::OperandError(e));
                            },
                        }
                    },
                }
                proof {
                    lemma_kind_progress(*g, w, pos, end, loperand.kind);
                }
                match loperand.quantifier {
                    Quantifier::One | Quantifier::ZeroOrOne => {
                        li = li + 1;
                    },
                    Quantifier::ZeroOrMore => {},
                }
            } else {
                match loperand.quantifier {
                    Quantifier::One => {
                        return Err(State::OperandExpected(self.decoder.offset(), index));
                    },
                    _ => {
                        return Ok(
                            Instruction {
                                opcode,
                                result_type: rtype,
                                result_id: rid,
                                operands: coperands,
                            },
                        );
                    },
                }
            }
        }
        Ok(Instruction { opcode, result_type: rtype, result_id: rid, operands: coperands })
    }
}

impl Session {
    /// Reads the next instruction; `None` when every word has been read.
    fn parse_inst(&mut self, g: &GrammarTable) -> (r: Result<Option<Instruction>, State>)
        requires
            wf(*g),
            old(self).wf(),
            old(self).phase == Phase::Instructions,
        ensures
            final(self).decoder.wf(),
            final(self).decoder@.end is None,
            final(self).decoder@.words == old(self).decoder@.words,
            final(self).phase == old(self).phase,
            r is Ok ==> final(self).inst_index <= final(self).decoder@.pos,
            match decode_inst(
                *g,
                old(self).decoder@.words,
                old(self).decoder@.pos,
                (old(self).inst_index + 1) as usize,
            ) {
                Err(e) => r is Err && r->Err_0 == e,
                Ok(None) => r is Ok && r->Ok_0 is None && final(self)@ == old(self)@,
                Ok(Some((inst, p))) => r is Ok && r->Ok_0 is Some && r->Ok_0->0@ == inst
                    && final(self).decoder@.pos == p && final(self).inst_index == old(
                    self,
                ).inst_index + 1,
            },
    {
        let index = self.inst_index + 1;
        let start = self.decoder.offset();
        let word = match self.decoder.word() {
            Ok(word) => word,
            Err(_) => {
                return Ok(None);
            },
        };
        let (wc, opcode) = split_into_word_count_and_opcode(word);
        if wc == 0 {
            return Err(State::WordCountZero(start, index));
        }
        match g.lookup_opcode(opcode) {
            None => Err(State::OpcodeUnknown(start, index, opcode)),
            Some(grammar) => {
                proof {
                    let j = choose|j: int| crate::grammar::first_opcode(*g, opcode, j);
                    assert forall|m: int| 0 <= m < grammar.operands@.len() implies kind_ok(
                        *g,
                        #[trigger] grammar.operands@[m].kind,
                    ) by {
                        assert(kind_ok(*g, g.instructions@[j].operands@[m].kind));
                    }
                    lemma_inst_length(*g, old(self).decoder@.words, old(self).decoder@.pos, index);
                }
                self.decoder.set_limit((wc - 1) as usize);
                let result = self.parse_operands(g, grammar, opcode, index);
                let reached = self.decoder.limit_reached();
                let off = self.decoder.offset();
                self.decoder.clear_limit();
                match result {
                    Err(e) => Err(e),
                    Ok(inst) => {
                        if !reached {
                            Err(State::OperandExceeded(off, index))
                        } else {
                            self.inst_index = index;
                            Ok(Some(inst))
                        }
                    },
                }
            },
        }
    }

    /// Takes the consumer's reply to the last call, and says what to do next.
    pub fn advance(&mut self, g: &GrammarTable, reply: Action) -> (r: Step)
        requires
            wf(*g),
            old(self).wf(),
        ensures
            final(self).wf(),
            view_ok(final(self)@),
            r.event() == next(*g, old(self)@, reply).1,
            same_state(final(self)@, next(*g, old(self)@, reply).0),
    {
        match self.phase {
            Phase::Start => {
                self.phase = Phase::Initialized;
                Step::Call(Callback::Initialize)
            },
            Phase::Finished => Step::Ended,
            _ => match reply {
                Action::Stop => {
                    self.phase = Phase::Finished;
                    Step::Done(Err(State::ConsumerStopRequested))
                },
                Action::Error(c) => {
                    self.phase = Phase::Finished;
                    Step::Done(Err(State::ConsumerError(c)))
                },
                Action::Continue => match self.phase {
                    Phase::Initialized => match self.parse_header() {
                        Err(e) => {
                            self.phase = Phase::Finished;
                            Step::Done(Err(e))
                        },
                        Ok(h) => {
                            self.phase = Phase::Instructions;
                            Step::Call(Callback::ConsumeHeader(h))
                        },
                    },
                    Phase::Instructions => match self.parse_inst(g) {
                        Err(e) => {
                            self.phase = Phase::Finished;
                            Step::Done(Err(e))
                        },
                        Ok(None) => {
                            self.phase = Phase::Finalized;
                            Step::Call(Callback::Finalize)
                        },
                        Ok(Some(inst)) => Step::Call(Callback::ConsumeInstruction(inst)),
                    },
                    _ => {
                        self.phase = Phase::Finished;
                        Step::Done(Ok(()))
                    },
                },
            },
        }
    }
}

/// Two session states agree: in phase and words, and in everything else unless the
/// session has finished.
pub open spec fn same_state(a: SessionView, b: SessionView) -> bool {
    &&& a.phase == b.phase
    &&& a.words == b.words
    &&& a.phase != Phase::Finished ==> a == b
}

/// The outcome of decoding the instructions from `pos` on, `index` instructions having
/// been decoded before, when the consumer always says to continue. A decoded instruction
/// ends after its first word (`lemma_inst_length`) and within the words (as the cursor
/// shows), so the last branch is never taken.
pub open spec fn body_result(g: GrammarTable, w: Seq<u32>, pos: nat, index: nat) -> Result<(), State>
    decreases w.len() - pos,
{
    match decode_inst(g, w, pos, (index + 1) as usize) {
        Err(e) => Err(e),
        Ok(None) => Ok(()),
        Ok(Some((_, p))) => {
            if pos < p <= w.len() {
                body_result(g, w, p, index + 1)
            } else {
                Ok(())
            }
        },
    }
}

/// The outcome of decoding the module `w` when the consumer always says to continue.
pub open spec fn module_result(g: GrammarTable, w: Seq<u32>) -> Result<(), State> {
    match header_spec(w) {
        Err(e) => Err(e),
        Ok(_) => body_result(g, w, 5, 0),
    }
}

/// The outcome still ahead of a session that has not finished.
pub open spec fn remaining(g: GrammarTable, s: SessionView) -> Result<(), State> {
    match s.phase {
        Phase::Instructions => body_result(g, s.words, s.pos, s.index),
        Phase::Finalized => Ok(()),
        Phase::Finished => Ok(()),
        _ => module_result(g, s.words),
    }
}

/// Whether `r` is an outcome that the consumer brought about.
pub open spec fn consumer_abort(r: Result<(), State>) -> bool {
    r matches Err(State::ConsumerStopRequested) || r matches Err(State::ConsumerError(_))
}

/// How far a session is from its end, in phases.
pub open spec fn stage(p: Phase) -> nat {
    match p {
        Phase::Start => 4,
        Phase::Initialized => 3,
        Phase::Instructions => 2,
        Phase::Finalized => 1,
        Phase::Finished => 0,
    }
}

/// A step of a running session either gives an outcome that is what remained or
/// the consumer's doing, or asks for a call, keeps what remains and moves forward.
pub proof fn lemma_next_outcome(g: GrammarTable, s: SessionView, reply: Action)
    requires
        s.phase != Phase::Finished,
        view_ok(s),
        next(g, s, reply).0.pos <= s.words.len(),
    ensures
        !(next(g, s, reply).1 is Ended),
        next(g, s, reply).1 matches Event::Done(r) ==> r == remaining(g, s) || consumer_abort(r),
        !(next(g, s, reply).1 is Done) ==> next(g, s, reply).0.phase != Phase::Finished,
        !(next(g, s, reply).1 is Done) ==> remaining(g, next(g, s, reply).0) == remaining(g, s),
        !(next(g, s, reply).1 is Done) ==> next(g, s, reply).0.words == s.words,
        !(next(g, s, reply).1 is Done) ==> (stage(next(g, s, reply).0.phase) < stage(s.phase) || (
        stage(next(g, s, reply).0.phase) == stage(s.phase) && next(g, s, reply).0.pos > s.pos)),
{
    if s.phase == Phase::Instructions {
        lemma_inst_length(g, s.words, s.pos, (s.index + 1) as usize);
        assert(remaining(g, s) == body_result(g, s.words, s.pos, s.index));
        if reply is Continue {
            match decode_inst(g, s.words, s.pos, (s.index + 1) as usize) {
                Ok(Some((inst, p))) => {
                    assert(next(g, s, reply).0.pos == p);
                    assert(body_result(g, s.words, s.pos, s.index) == body_result(
                        g,
                        s.words,
                        p,
                        s.index + 1,
                    ));
                },
                _ => {},
            }
        }
    }
}

/// The binary consumer trait.
///
/// The parser calls `initialize` before parsing the binary and `finalize` after
/// parsing the whole binary successfully. After the module header is parsed,
/// `consume_header` is called; after each instruction, `consume_instruction`.
/// The consumer steers the parse with the [`Action`] it returns.
pub trait Consumer {
    /// Initialize the consumer.
    fn initialize(&mut self) -> Action;

    /// Finalize the consumer.
    fn finalize(&mut self) -> Action;

    /// Consume the module header.
    fn consume_header(&mut self, module: ModuleHeader) -> Action;

    /// Consume the given instruction.
    fn consume_instruction(&mut self, inst: Instruction) -> Action;
}

/// The binary parser: decodes a buffer against a grammar table, handing the header
/// and each instruction to a consumer.
pub struct Parser<'a, C: Consumer> {
    session: Session,
    grammar: &'a GrammarTable,
    consumer: &'a mut C,
}

impl<'a, C: Consumer> Parser<'a, C> {
    /// The words of the buffer being parsed.
    pub closed spec fn words(&self) -> Seq<u32> {
        self.session@.words
    }

    /// The grammar table in use.
    pub closed spec fn table(&self) -> GrammarTable {
        *self.grammar
    }

    /// Whether the parser has not started.
    pub closed spec fn fresh(&self) -> bool {
        self.session.wf() && view_ok(self.session@) && self.session@ == start(self.session@.words)
    }

    /// Creates a parser of `binary` that sends what it decodes to `consumer`.
    pub fn new(binary: Vec<u8>, grammar: &'a GrammarTable, consumer: &'a mut C) -> (r: Parser<'a, C>)
        ensures
            r.fresh(),
            r.words() == words_of(binary@),
            r.table() == *grammar,
    {
        Parser { session: Session::new(binary), grammar, consumer }
    }

    /// Does the parsing. The outcome is that of decoding the whole module, unless the
    /// consumer stopped the parse or failed.
    pub fn parse(self) -> (r: Result<(), State>)
        requires
            self.fresh(),
            wf(self.table()),
        ensures
            r == module_result(self.table(), self.words()) || consumer_abort(r),
    {
        let ghost g = *self.grammar;
        let ghost w = self.session@.words;
        let mut session = self.session;
        let grammar = self.grammar;
        let consumer = self.consumer;
        let mut reply = Action::Continue;
        loop
            invariant
                wf(g),
                g == self.table(),
                w == self.words(),
                *grammar == g,
                session.wf(),
                session@.words == w,
                view_ok(session@),
                session@.phase != Phase::Finished,
                remaining(g, session@) == module_result(g, w),
            decreases stage(session@.phase), w.len() - session@.pos,
        {
            let ghost before = session@;
            let step = session.advance(grammar, reply);
            proof {
                lemma_next_outcome(g, before, reply);
            }
            match step {
                Step::Call(cb) => {
                    reply = match cb {
                        Callback::Initialize => consumer.initialize(),
                        Callback::ConsumeHeader(h) => consumer.consume_header(h),
                        Callback::ConsumeInstruction(inst) => consumer.consume_instruction(inst),
                        Callback::Finalize => consumer.finalize(),
                    };
                },
                Step::Done(r) => {
                    return r;
                },
                Step::Ended => {
                    return Err(State::Complete);
                },
            }
        }
    }
}

/// Parses `binary` against `grammar`, handing the module to `consumer`. The outcome
/// is that of decoding the whole module, unless the consumer stopped the parse or
/// failed.
pub fn parse<C: Consumer>(binary: Vec<u8>, grammar: &GrammarTable, consumer: &mut C) -> (r: Result<
    (),
    State,
>)
    requires
        wf(*grammar),
    ensures
        r == module_result(*grammar, words_of(binary@)) || consumer_abort(r),
{
    Parser::new(binary, grammar, consumer).parse()
}

} // verus!
