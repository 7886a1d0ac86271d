use vstd::prelude::*;

verus! {

/// The kind of a logical operand, which decides how its words are read.
///
/// `ValueEnum(i)` and `BitEnum(i)` name the enumerant table `i` of the grammar.
#[derive(Debug, Clone, Copy, PartialEq, Eq)]
pub enum OperandKind {
    IdResultType,
    IdResult,
    IdRef,
    LiteralInteger,
    LiteralString,
    ValueEnum(usize),
    BitEnum(usize),
    PairIdRefLiteralInteger,
    PairLiteralIntegerIdRef,
    PairIdRefIdRef,
}

/// How many times a logical operand may occur.
#[derive(Debug, Clone, Copy, PartialEq, Eq)]
pub enum Quantifier {
    One,
    ZeroOrOne,
    ZeroOrMore,
}

/// One operand slot of an instruction's grammar.
#[derive(Debug, Clone, Copy, PartialEq, Eq)]
pub struct LogicalOperand {
    pub kind: OperandKind,
    pub quantifier: Quantifier,
}

/// A named value of an enumerant table, with the kinds of the operands that
/// must follow it when it is present.
#[derive(Debug, Clone)]
pub struct Enumerant {
    pub value: u32,
    pub params: Vec<OperandKind>,
}

/// The grammar of one instruction: its opcode and its logical operands in order.
#[derive(Debug, Clone)]
pub struct InstructionGrammar {
    pub opcode: u16,
    pub operands: Vec<LogicalOperand>,
}

/// A read-only grammar table: the instructions, and the enumerant tables that
/// enumerant kinds refer to.
#[derive(Debug, Clone)]
pub struct GrammarTable {
    pub instructions: Vec<InstructionGrammar>,
    pub enums: Vec<Vec<Enumerant>>,
}

/// The rank of a kind: one more than its enumerant table for an enumerant kind,
/// zero otherwise.
pub open spec fn rank(k: OperandKind) -> nat {
    match k {
        OperandKind::ValueEnum(i) => i as nat + 1,
        OperandKind::BitEnum(i) => i as nat + 1,
        _ => 0,
    }
}

/// Whether the kind names an enumerant table that exists.
pub open spec fn kind_ok(g: GrammarTable, k: OperandKind) -> bool {
    rank(k) <= g.enums@.len()
}

/// A grammar is well formed when every enumerant kind names an existing table, and
/// the operands mandated by the enumerants of table `i` only name tables before `i`.
pub open spec fn wf(g: GrammarTable) -> bool {
    &&& forall|i: int, j: int|
        0 <= i < g.instructions@.len() && 0 <= j < g.instructions@[i].operands@.len() ==> kind_ok(
            g,
            #[trigger] g.instructions@[i].operands@[j].kind,
        )
    &&& forall|i: int, j: int, k: int|
        0 <= i < g.enums@.len() && 0 <= j < g.enums@[i]@.len() && 0 <= k
            < g.enums@[i]@[j].params@.len() ==> rank(#[trigger] g.enums@[i]@[j].params@[k]) <= i
}

/// `j` is the first instruction of the table with the given opcode.
pub open spec fn first_opcode(g: GrammarTable, opcode: u16, j: int) -> bool {
    &&& 0 <= j < g.instructions@.len()
    &&& g.instructions@[j].opcode == opcode
    &&& forall|k: int| 0 <= k < j ==> #[trigger] g.instructions@[k].opcode != opcode
}

/// The grammar of an opcode: that of the first instruction of the table with it.
pub open spec fn lookup_spec(g: GrammarTable, opcode: u16) -> Option<InstructionGrammar> {
    if exists|j: int| first_opcode(g, opcode, j) {
        Some(g.instructions@[choose|j: int| first_opcode(g, opcode, j)])
    } else {
        None
    }
}

/// `j` is the first enumerant of `es` with the given value.
pub open spec fn first_value(es: Seq<Enumerant>, v: u32, j: int) -> bool {
    &&& 0 <= j < es.len()
    &&& es[j].value == v
    &&& forall|k: int| 0 <= k < j ==> #[trigger] es[k].value != v
}

/// The enumerant of `es` with value `v`: the first one, if there is one.
pub open spec fn find_value(es: Seq<Enumerant>, v: u32) -> Option<Enumerant> {
    if exists|j: int| first_value(es, v, j) {
        Some(es[choose|j: int| first_value(es, v, j)])
    } else {
        None
    }
}

/// The union of the flag bits of the enumerants of `es`.
pub open spec fn known_bits(es: Seq<Enumerant>) -> u32
    decreases es.len(),
{
    if es.len() == 0 {
        0
    } else {
        known_bits(es.drop_last()) | es.last().value
    }
}

/// Whether the flag `e` is set in `word`. A zero flag is never set.
pub open spec fn flag_set(e: Enumerant, word: u32) -> bool {
    e.value != 0 && word & e.value == e.value
}

/// The operand kinds mandated by the flags set in `word`, in table order.
pub open spec fn flag_params(es: Seq<Enumerant>, word: u32) -> Seq<OperandKind>
    decreases es.len(),
{
    if es.len() == 0 {
        seq![]
    } else {
        flag_params(es.drop_last(), word) + if flag_set(es.last(), word) {
            es.last().params@
        } else {
            seq![]
        }
    }
}

impl GrammarTable {
    /// Whether every kind in `ks` has rank at most `bound`.
    fn kinds_within(ks: &Vec<OperandKind>, bound: usize) -> (r: bool)
        ensures
            r == forall|k: int| 0 <= k < ks@.len() ==> rank(#[trigger] ks@[k]) <= bound,
    {
        let mut i: usize = 0;
        while i < ks.len()
            invariant
                i <= ks@.len(),
                forall|k: int| 0 <= k < i ==> rank(#[trigger] ks@[k]) <= bound,
            decreases ks@.len() - i,
        {
            let within = match ks[i] {
                OperandKind::ValueEnum(j) => j < bound,
                OperandKind::BitEnum(j) => j < bound,
                _ => true,
            };
            if !within {
                return false;
            }
            i = i + 1;
        }
        true
    }

    /// Whether the table is well formed: see [`wf`].
    pub fn is_well_formed(&self) -> (r: bool)
        ensures
            r == wf(*self),
    {
        let n = self.enums.len();
        let mut i: usize = 0;
        while i < self.instructions.len()
            invariant
                n == self.enums@.len(),
                i <= self.instructions@.len(),
                forall|a: int, b: int|
                    0 <= a < i && 0 <= b < self.instructions@[a].operands@.len() ==> kind_ok(
                        *self,
                        #[trigger] self.instructions@[a].operands@[b].kind,
                    ),
            decreases self.instructions@.len() - i,
        {
            let ops = &self.instructions[i].operands;
            let mut j: usize = 0;
            while j < ops.len()
                invariant
                    n == self.enums@.len(),
                    i < self.instructions@.len(),
                    *ops == self.instructions@[i as int].operands,
                    j <= ops@.len(),
                    forall|a: int, b: int|
                        0 <= a < i && 0 <= b < self.instructions@[a].operands@.len() ==> kind_ok(
                            *self,
                            #[trigger] self.instructions@[a].operands@[b].kind,
                        ),
                    forall|b: int| 0 <= b < j ==> kind_ok(*self, #[trigger] ops@[b].kind),
                decreases ops@.len() - j,
            {
                let ok = match ops[j].kind {
                    OperandKind::ValueEnum(e) => e < n,
                    OperandKind::BitEnum(e) => e < n,
                    _ => true,
                };
                if !ok {
                    assert(!kind_ok(*self, self.instructions@[i as int].operands@[j as int].kind));
                    return false;
                }
                j = j + 1;
            }
            assert forall|a: int, b: int|
                0 <= a < i + 1 && 0 <= b < self.instructions@[a].operands@.len() implies kind_ok(
                *self,
                #[trigger] self.instructions@[a].operands@[b].kind,
            ) by {
                if a == i {
                    assert(ops@[b] == self.instructions@[a].operands@[b]);
                }
            }
            i = i + 1;
        }
        let mut t: usize = 0;
        while t < n
            invariant
                n == self.enums@.len(),
                t <= n,
                forall|a: int, b: int|
                    0 <= a < self.instructions@.len() && 0 <= b
                        < self.instructions@[a].operands@.len() ==> kind_ok(
                        *self,
                        #[trigger] self.instructions@[a].operands@[b].kind,
                    ),
                forall|a: int, b: int, c: int|
                    0 <= a < t && 0 <= b < self.enums@[a]@.len() && 0 <= c
                        < self.enums@[a]@[b].params@.len() ==> rank(
                        #[trigger] self.enums@[a]@[b].params@[c],
                    ) <= a,
            decreases n - t,
        {
            let es = &self.enums[t];
            let mut j: usize = 0;
            while j < es.len()
                invariant
                    n == self.enums@.len(),
                    t < n,
                    *es == self.enums@[t as int],
                    j <= es@.len(),
                    forall|a: int, b: int|
                        0 <= a < self.instructions@.len() && 0 <= b
                            < self.instructions@[a].operands@.len() ==> kind_ok(
                            *self,
                            #[trigger] self.instructions@[a].operands@[b].kind,
                        ),
                    forall|a: int, b: int, c: int|
                        0 <= a < t && 0 <= b < self.enums@[a]@.len() && 0 <= c
                            < self.enums@[a]@[b].params@.len() ==> rank(
                            #[trigger] self.enums@[a]@[b].params@[c],
                        ) <= a,
                    forall|b: int, c: int|
                        0 <= b < j && 0 <= c < es@[b].params@.len() ==> rank(
                            #[trigger] es@[b].params@[c],
                        ) <= t,
                decreases es@.len() - j,
            {
                if !GrammarTable::kinds_within(&es[j].params, t) {
                    let ghost c = choose|c: int|
                        0 <= c < es@[j as int].params@.len() && !(rank(es@[j as int].params@[c])
                            <= t);
                    assert(!(rank(self.enums@[t as int]@[j as int].params@[c]) <= t));
                    return false;
                }
                j = j + 1;
            }
            assert forall|a: int, b: int, c: int|
                0 <= a < t + 1 && 0 <= b < self.enums@[a]@.len() && 0 <= c
                    < self.enums@[a]@[b].params@.len() implies rank(
                #[trigger] self.enums@[a]@[b].params@[c],
            ) <= a by {
                if a == t {
                    assert(es@[b].params@[c] == self.enums@[a]@[b].params@[c]);
                }
            }
            t = t + 1;
        }
        true
    }

    /// Looks up the grammar of `opcode`.
    pub fn lookup_opcode(&self, opcode: u16) -> (r: Option<&InstructionGrammar>)
        ensures
            match lookup_spec(*self, opcode) {
                Some(ig) => r is Some && *r->0 == ig,
                None => r is None,
            },
    {
        let mut i: usize = 0;
        while i < self.instructions.len()
            invariant
                i <= self.instructions@.len(),
                forall|k: int| 0 <= k < i ==> #[trigger] self.instructions@[k].opcode != opcode,
            decreases self.instructions@.len() - i,
        {
            if self.instructions[i].opcode == opcode {
                assert(first_opcode(*self, opcode, i as int));
                assert forall|j: int| first_opcode(*self, opcode, j) implies j == i by {
                    if j < i {
                        assert(self.instructions@[j].opcode != opcode);
                    } else if j > i {
                        assert(self.instructions@[i as int].opcode != opcode);
                    }
                }
                return Some(&self.instructions[i]);
            }
            i = i + 1;
        }
        assert(!exists|j: int| first_opcode(*self, opcode, j));
        None
    }

    /// Looks up the enumerant of table `table` with value `v`.
    pub fn find_enumerant(&self, table: usize, v: u32) -> (r: Option<&Enumerant>)
        requires
            table < self.enums@.len(),
        ensures
            match find_value(self.enums@[table as int]@, v) {
                Some(e) => r is Some && *r->0 == e,
                None => r is None,
            },
    {
        let es = &self.enums[table];
        assert(es@ == self.enums@[table as int]@);
        let mut i: usize = 0;
        while i < es.len()
            invariant
                es@ == self.enums@[table as int]@,
                i <= es@.len(),
                forall|k: int| 0 <= k < i ==> #[trigger] es@[k].value != v,
            decreases es@.len() - i,
        {
            if es[i].value == v {
                assert(first_value(es@, v, i as int));
                assert forall|j: int| first_value(es@, v, j) implies j == i by {
                    if j < i {
                        assert(es@[j].value != v);
                    } else if j > i {
                        assert(es@[i as int].value != v);
                    }
                }
                return Some(&es[i]);
            }
            i = i + 1;
        }
        assert(!exists|j: int| first_value(es@, v, j));
        None
    }

    /// The union of the flag bits of table `table`.
    pub fn known_flags(&self, table: usize) -> (r: u32)
        requires
            table < self.enums@.len(),
        ensures
            r == known_bits(self.enums@[table as int]@),
    {
        let es = &self.enums[table];
        let mut acc: u32 = 0;
        let mut i: usize = 0;
        while i < es.len()
            invariant
                i <= es@.len(),
                acc == known_bits(es@.take(i as int)),
            decreases es@.len() - i,
        {
            assert(es@.take(i + 1).drop_last() =~= es@.take(i as int));
            acc = acc | es[i].value;
            i = i + 1;
        }
        assert(es@.take(i as int) =~= es@);
        acc
    }

    /// The operand kinds mandated by the flags of table `table` that are set in `word`.
    pub fn flag_operand_kinds(&self, table: usize, word: u32) -> (r: Vec<OperandKind>)
        requires
            table < self.enums@.len(),
        ensures
            r@ == flag_params(self.enums@[table as int]@, word),
    {
        let es = &self.enums[table];
        let mut acc: Vec<OperandKind> = Vec::new();
        let mut i: usize = 0;
        while i < es.len()
            invariant
                i <= es@.len(),
                acc@ == flag_params(es@.take(i as int), word),
            decreases es@.len() - i,
        {
            assert(es@.take(i + 1).drop_last() =~= es@.take(i as int));
            let e = &es[i];
            if e.value != 0 && word & e.value == e.value {
                let mut j: usize = 0;
                let ghost before = acc@;
                while j < e.params.len()
                    invariant
                        j <= e.params@.len(),
                        acc@ =~= before + e.params@.take(j as int),
                    decreases e.params@.len() - j,
                {
                    acc.push(e.params[j]);
                    j = j + 1;
                }
                assert(e.params@.take(j as int) =~= e.params@);
            }
            i = i + 1;
            assert(acc@ =~= flag_params(es@.take(i as int), word));
        }
        assert(es@.take(i as int) =~= es@);
        acc
    }
}

} // verus!
