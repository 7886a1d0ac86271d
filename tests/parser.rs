use rspirv::{
    parse, Action, Consumer, Enumerant, GrammarTable, Instruction, InstructionGrammar,
    LogicalOperand, ModuleHeader, Operand, OperandKind, Parser, Quantifier, State, DecodeError,
};

use rspirv::OperandKind::{
    BitEnum, IdRef, IdResult, IdResultType, LiteralInteger, LiteralString, PairIdRefIdRef, ValueEnum,
};
use rspirv::Quantifier::{One, ZeroOrMore, ZeroOrOne};

const MAGIC: u32 = 0x07230203;

fn op(kind: OperandKind, quantifier: Quantifier) -> LogicalOperand {
    LogicalOperand { kind, quantifier }
}

fn table() -> GrammarTable {
    GrammarTable {
        instructions: vec![
            InstructionGrammar { opcode: 0, operands: vec![] },
            InstructionGrammar { opcode: 5, operands: vec![op(IdRef, One), op(LiteralString, One)] },
            InstructionGrammar {
                opcode: 21,
                operands: vec![op(IdResult, One), op(LiteralInteger, One), op(LiteralInteger, One)],
            },
            InstructionGrammar {
                opcode: 57,
                operands: vec![
                    op(IdResultType, One),
                    op(IdResult, One),
                    op(IdRef, One),
                    op(IdRef, ZeroOrMore),
                ],
            },
            InstructionGrammar {
                opcode: 61,
                operands: vec![
                    op(IdResultType, One),
                    op(IdResult, One),
                    op(IdRef, One),
                    op(BitEnum(1), ZeroOrOne),
                ],
            },
            InstructionGrammar { opcode: 71, operands: vec![op(IdRef, One), op(ValueEnum(0), One)] },
            InstructionGrammar {
                opcode: 245,
                operands: vec![op(IdResultType, One), op(IdResult, One), op(PairIdRefIdRef, ZeroOrMore)],
            },
        ],
        enums: vec![
            vec![
                Enumerant { value: 1, params: vec![] },
                Enumerant { value: 30, params: vec![LiteralInteger] },
            ],
            vec![
                Enumerant { value: 1, params: vec![] },
                Enumerant { value: 2, params: vec![LiteralInteger] },
                Enumerant { value: 4, params: vec![] },
            ],
        ],
    }
}

fn to_bytes(words: &[u32]) -> Vec<u8> {
    let mut out = Vec::new();
    for w in words {
        out.extend_from_slice(&w.to_le_bytes());
    }
    out
}

fn header() -> Vec<u32> {
    vec![MAGIC, 0x0001_0000, 7, 10, 0]
}

fn module(insts: &[u32]) -> Vec<u8> {
    let mut w = header();
    w.extend_from_slice(insts);
    to_bytes(&w)
}

#[derive(Default)]
struct Recorder {
    calls: Vec<&'static str>,
    headers: Vec<ModuleHeader>,
    insts: Vec<Instruction>,
    stop_at: Option<&'static str>,
    fail_at: Option<&'static str>,
}

impl Recorder {
    fn reply(&mut self, name: &'static str) -> Action {
        self.calls.push(name);
        if self.stop_at == Some(name) {
            Action::Stop
        } else if self.fail_at == Some(name) {
            Action::Error(format!("failed in {}", name))
        } else {
            Action::Continue
        }
    }
}

impl Consumer for Recorder {
    fn initialize(&mut self) -> Action {
        self.reply("initialize")
    }
    fn finalize(&mut self) -> Action {
        self.reply("finalize")
    }
    fn consume_header(&mut self, module: ModuleHeader) -> Action {
        self.headers.push(module);
        self.reply("header")
    }
    fn consume_instruction(&mut self, inst: Instruction) -> Action {
        self.insts.push(inst);
        self.reply("instruction")
    }
}

fn run(bytes: Vec<u8>) -> (Result<(), State>, Recorder) {
    let g = table();
    let mut rec = Recorder::default();
    let r = parse(bytes, &g, &mut rec);
    (r, rec)
}

#[test]
fn header_only_module_succeeds() {
    let (r, rec) = run(module(&[]));
    assert_eq!(r, Ok(()));
    assert_eq!(rec.calls, vec!["initialize", "header", "finalize"]);
    assert_eq!(
        rec.headers,
        vec![ModuleHeader { magic_number: MAGIC, version: 0x0001_0000, generator: 7, bound: 10, reserved_word: 0 }]
    );
    assert!(rec.insts.is_empty());
}

#[test]
fn reserved_word_is_not_checked() {
    let mut w = header();
    w[4] = 123;
    let (r, rec) = run(to_bytes(&w));
    assert_eq!(r, Ok(()));
    assert_eq!(rec.headers[0].reserved_word, 123);
}

#[test]
fn swapped_magic_is_unsupported_endianness() {
    let mut w = header();
    w[0] = MAGIC.swap_bytes();
    let (r, rec) = run(to_bytes(&w));
    assert_eq!(r, Err(State::EndiannessUnsupported));
    assert!(rec.headers.is_empty());
    assert_eq!(rec.calls, vec!["initialize"]);
}

#[test]
fn other_magic_is_incorrect_header() {
    let mut w = header();
    w[0] = 0xdead_beef;
    let (r, rec) = run(to_bytes(&w));
    assert_eq!(r, Err(State::HeaderIncorrect));
    assert!(rec.headers.is_empty());
}

#[test]
fn short_header_is_incomplete() {
    let (r, _) = run(to_bytes(&[MAGIC, 1, 2]));
    assert_eq!(r, Err(State::HeaderIncomplete(DecodeError::StreamExpected(12))));
    let (r, _) = run(vec![]);
    assert_eq!(r, Err(State::HeaderIncomplete(DecodeError::StreamExpected(0))));
}

#[test]
fn zero_word_count_stops_with_index_and_offset() {
    let (r, rec) = run(module(&[1 << 16, 0x0000_0005, 1 << 16]));
    assert_eq!(r, Err(State::WordCountZero(24, 2)));
    assert_eq!(rec.insts.len(), 1);
    assert_eq!(rec.calls, vec!["initialize", "header", "instruction"]);
}

#[test]
fn unknown_opcode_carries_opcode() {
    let (r, rec) = run(module(&[(1 << 16) | 999]));
    assert_eq!(r, Err(State::OpcodeUnknown(20, 1, 999)));
    assert!(rec.insts.is_empty());
}

#[test]
fn missing_operand_is_expected() {
    let (r, _) = run(module(&[(3 << 16) | 21, 1, 32]));
    assert_eq!(r, Err(State::OperandExpected(32, 1)));
}

#[test]
fn extra_operand_is_exceeded() {
    let (r, _) = run(module(&[(5 << 16) | 21, 1, 32, 1, 99]));
    assert_eq!(r, Err(State::OperandExceeded(36, 1)));
}

#[test]
fn exact_operands_decode() {
    let (r, rec) = run(module(&[(4 << 16) | 21, 9, 32, 1]));
    assert_eq!(r, Ok(()));
    assert_eq!(
        rec.insts,
        vec![Instruction {
            opcode: 21,
            result_type: None,
            result_id: Some(9),
            operands: vec![Operand::LiteralInt32(32), Operand::LiteralInt32(1)],
        }]
    );
}

#[test]
fn trailing_variadic_operand_repeats() {
    let (r, rec) = run(module(&[(7 << 16) | 57, 2, 3, 4, 10, 11, 12]));
    assert_eq!(r, Ok(()));
    assert_eq!(rec.insts.len(), 1);
    assert_eq!(rec.insts[0].result_type, Some(2));
    assert_eq!(rec.insts[0].result_id, Some(3));
    assert_eq!(
        rec.insts[0].operands,
        vec![Operand::IdRef(4), Operand::IdRef(10), Operand::IdRef(11), Operand::IdRef(12)]
    );
    let (r, rec) = run(module(&[(4 << 16) | 57, 2, 3, 4]));
    assert_eq!(r, Ok(()));
    assert_eq!(rec.insts[0].operands, vec![Operand::IdRef(4)]);
}

#[test]
fn optional_operand_may_be_absent() {
    let (r, rec) = run(module(&[(4 << 16) | 61, 2, 3, 4]));
    assert_eq!(r, Ok(()));
    assert_eq!(rec.insts[0].operands, vec![Operand::IdRef(4)]);
}

#[test]
fn flags_bring_their_operands() {
    let (r, rec) = run(module(&[(6 << 16) | 61, 2, 3, 4, 3, 16]));
    assert_eq!(r, Ok(()));
    assert_eq!(
        rec.insts[0].operands,
        vec![Operand::IdRef(4), Operand::BitEnum(1, 3), Operand::LiteralInt32(16)]
    );
}

#[test]
fn unknown_flag_bit_is_operand_error() {
    let (r, _) = run(module(&[(5 << 16) | 61, 2, 3, 4, 8]));
    assert_eq!(r, Err(State::OperandError(DecodeError::EnumerantUnknown(36, 8))));
}

#[test]
fn enumerant_brings_its_operand() {
    let (r, rec) = run(module(&[(4 << 16) | 71, 1, 30, 7]));
    assert_eq!(r, Ok(()));
    assert_eq!(
        rec.insts[0].operands,
        vec![Operand::IdRef(1), Operand::ValueEnum(0, 30), Operand::LiteralInt32(7)]
    );
}

#[test]
fn unknown_enumerant_is_operand_error() {
    let (r, _) = run(module(&[(3 << 16) | 71, 1, 77]));
    assert_eq!(r, Err(State::OperandError(DecodeError::EnumerantUnknown(28, 77))));
}

#[test]
fn string_literal_stops_at_zero_byte() {
    let (r, rec) = run(module(&[(3 << 16) | 5, 1, 0x0063_6261]));
    assert_eq!(r, Ok(()));
    assert_eq!(rec.insts[0].operands, vec![Operand::IdRef(1), Operand::LiteralString(b"abc".to_vec())]);
    let (r, rec) = run(module(&[(4 << 16) | 5, 1, 0x6463_6261, 0]));
    assert_eq!(r, Ok(()));
    assert_eq!(rec.insts[0].operands[1], Operand::LiteralString(b"abcd".to_vec()));
}

#[test]
fn unterminated_string_hits_window_end() {
    let (r, _) = run(module(&[(3 << 16) | 5, 1, 0x6463_6261]));
    assert_eq!(r, Err(State::OperandError(DecodeError::LimitReached(32))));
}

#[test]
fn pairs_give_two_operands_each() {
    let (r, rec) = run(module(&[(7 << 16) | 245, 2, 3, 10, 20, 11, 21]));
    assert_eq!(r, Ok(()));
    assert_eq!(
        rec.insts[0].operands,
        vec![Operand::IdRef(10), Operand::IdRef(20), Operand::IdRef(11), Operand::IdRef(21)]
    );
}

#[test]
fn truncated_instruction_is_operand_error() {
    let (r, _) = run(module(&[(4 << 16) | 21, 1]));
    assert_eq!(r, Err(State::OperandError(DecodeError::StreamExpected(28))));
}

#[test]
fn trailing_bytes_are_ignored() {
    let mut bytes = module(&[1 << 16]);
    bytes.extend_from_slice(&[1, 2, 3]);
    let (r, rec) = run(bytes);
    assert_eq!(r, Ok(()));
    assert_eq!(rec.insts.len(), 1);
}

#[test]
fn several_instructions_in_order() {
    let (r, rec) = run(module(&[1 << 16, (4 << 16) | 21, 9, 32, 1, 1 << 16]));
    assert_eq!(r, Ok(()));
    let ops: Vec<u16> = rec.insts.iter().map(|i| i.opcode).collect();
    assert_eq!(ops, vec![0, 21, 0]);
}

fn stop_run(at: &'static str) -> (Result<(), State>, Recorder) {
    let g = table();
    let mut rec = Recorder { stop_at: Some(at), ..Recorder::default() };
    let r = parse(module(&[1 << 16, 1 << 16]), &g, &mut rec);
    (r, rec)
}

#[test]
fn stop_from_initialize() {
    let (r, rec) = stop_run("initialize");
    assert_eq!(r, Err(State::ConsumerStopRequested));
    assert_eq!(rec.calls, vec!["initialize"]);
}

#[test]
fn stop_from_header() {
    let (r, rec) = stop_run("header");
    assert_eq!(r, Err(State::ConsumerStopRequested));
    assert_eq!(rec.calls, vec!["initialize", "header"]);
}

#[test]
fn stop_from_instruction() {
    let (r, rec) = stop_run("instruction");
    assert_eq!(r, Err(State::ConsumerStopRequested));
    assert_eq!(rec.calls, vec!["initialize", "header", "instruction"]);
    assert_eq!(rec.insts.len(), 1);
}

#[test]
fn stop_from_finalize() {
    let (r, rec) = stop_run("finalize");
    assert_eq!(r, Err(State::ConsumerStopRequested));
    assert_eq!(rec.calls, vec!["initialize", "header", "instruction", "instruction", "finalize"]);
}

#[test]
fn consumer_error_is_passed_on() {
    let g = table();
    let mut rec = Recorder { fail_at: Some("header"), ..Recorder::default() };
    let r = parse(module(&[1 << 16]), &g, &mut rec);
    assert_eq!(r, Err(State::ConsumerError("failed in header".to_string())));
    assert_eq!(rec.calls, vec!["initialize", "header"]);
}

#[test]
fn parsing_twice_gives_same_calls() {
    let bytes = module(&[(7 << 16) | 57, 2, 3, 4, 10, 11, 12, (3 << 16) | 5, 1, 0x0063_6261]);
    let (r1, a) = run(bytes.clone());
    let (r2, b) = run(bytes);
    assert_eq!(r1, r2);
    assert_eq!(a.calls, b.calls);
    assert_eq!(a.headers, b.headers);
    assert_eq!(a.insts, b.insts);
}

#[test]
fn parser_struct_parses() {
    let g = table();
    let mut rec = Recorder::default();
    let r = Parser::new(module(&[1 << 16]), &g, &mut rec).parse();
    assert_eq!(r, Ok(()));
    assert_eq!(rec.insts.len(), 1);
}

#[test]
fn state_descriptions() {
    assert_eq!(State::HeaderIncorrect.description(), "incorrect module header");
    assert_eq!(State::WordCountZero(0, 1).description(), "zero word count found");
    assert_eq!(State::OperandExceeded(0, 1).description(), "found extra operands");
}

#[test]
fn grammar_well_formedness() {
    let g = table();
    assert!(g.is_well_formed());
    let mut bad = table();
    bad.instructions.push(InstructionGrammar { opcode: 300, operands: vec![op(ValueEnum(5), One)] });
    assert!(!bad.is_well_formed());
    let mut cyclic = table();
    cyclic.enums[1][0].params.push(BitEnum(1));
    assert!(!cyclic.is_well_formed());
    let mut nested = table();
    nested.enums[1][0].params.push(ValueEnum(0));
    assert!(nested.is_well_formed());
}

#[test]
fn nested_enumerant_operands_decode() {
    let mut g = table();
    g.enums[1][0].params.push(ValueEnum(0));
    let mut rec = Recorder::default();
    let r = parse(module(&[(7 << 16) | 61, 2, 3, 4, 1, 30, 9]), &g, &mut rec);
    assert_eq!(r, Ok(()));
    assert_eq!(
        rec.insts[0].operands,
        vec![
            Operand::IdRef(4),
            Operand::BitEnum(1, 1),
            Operand::ValueEnum(0, 30),
            Operand::LiteralInt32(9)
        ]
    );
}
