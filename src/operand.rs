use vstd::prelude::*;
use crate::decoder::{read_word, DecodeError, Decoder};
use crate::grammar::{
    find_value, flag_set, flag_params, known_bits, kind_ok, rank, wf, GrammarTable, OperandKind,
};

verus! {

/// A decoded operand value.
#[derive(Debug, Clone, PartialEq, Eq)]
pub enum Operand {
    /// A reference to an identifier.
    IdRef(u32),
    /// A one-word numeric literal.
    LiteralInt32(u32),
    /// The bytes of a string literal, without its terminating zero.
    LiteralString(Vec<u8>),
    /// A value of the enumerant table with the given index.
    ValueEnum(usize, u32),
    /// A set of flags of the enumerant table with the given index.
    BitEnum(usize, u32),
}

/// The mathematical value of an [`Operand`].
pub enum OperandView {
    IdRef(u32),
    LiteralInt32(u32),
    LiteralString(Seq<u8>),
    ValueEnum(usize, u32),
    BitEnum(usize, u32),
}

impl View for Operand {
    type V = OperandView;

    open spec fn view(&self) -> OperandView {
        match self {
            Operand::IdRef(x) => OperandView::IdRef(*x),
            Operand::LiteralInt32(x) => OperandView::LiteralInt32(*x),
            Operand::LiteralString(s) => OperandView::LiteralString(s@),
            Operand::ValueEnum(i, x) => OperandView::ValueEnum(*i, *x),
            Operand::BitEnum(i, x) => OperandView::BitEnum(*i, *x),
        }
    }
}

/// The values of a sequence of operands.
pub open spec fn operands_view(v: Seq<Operand>) -> Seq<OperandView> {
    v.map_values(|o: Operand| o@)
}

/// What decoding operands yields: the operands and the position after them.
pub type Decoded = Result<(Seq<OperandView>, nat), DecodeError>;

/// Puts `a` before the operands of a decoding result.
pub open spec fn prepend(a: Seq<OperandView>, r: Decoded) -> Decoded {
    match r {
        Ok((o, p)) => Ok((a + o, p)),
        Err(e) => Err(e),
    }
}

/// The four bytes of a word, lowest first.
pub open spec fn word_bytes(x: u32) -> Seq<u8> {
    seq![
        (x & 0xff) as u8,
        ((x >> 8u32) & 0xff) as u8,
        ((x >> 16u32) & 0xff) as u8,
        ((x >> 24u32) & 0xff) as u8,
    ]
}

/// The bytes of the word `x` before its first zero byte, if it has one.
pub open spec fn string_part(x: u32) -> Option<Seq<u8>> {
    let b = word_bytes(x);
    if b[0] == 0 {
        Some(b.take(0))
    } else if b[1] == 0 {
        Some(b.take(1))
    } else if b[2] == 0 {
        Some(b.take(2))
    } else if b[3] == 0 {
        Some(b.take(3))
    } else {
        None
    }
}

/// A string literal starting at `pos`: the bytes of the words up to the first zero
/// byte, and the position after the word that holds it.
pub open spec fn decode_string(w: Seq<u32>, pos: nat, end: nat) -> Result<(Seq<u8>, nat), DecodeError>
    decreases end - pos,
{
    if pos >= end {
        Err(DecodeError::LimitReached((4 * pos) as usize))
    } else if pos >= w.len() {
        Err(DecodeError::StreamExpected((4 * pos) as usize))
    } else {
        match string_part(w[pos as int]) {
            Some(s) => Ok((s, pos + 1)),
            None => match decode_string(w, pos + 1, end) {
                Ok((s, p)) => Ok((word_bytes(w[pos as int]) + s, p)),
                Err(e) => Err(e),
            },
        }
    }
}

/// Two one-word operands at `pos`, made by `f` and `h` from their words.
pub open spec fn decode_two(
    w: Seq<u32>,
    pos: nat,
    end: nat,
    f: spec_fn(u32) -> OperandView,
    h: spec_fn(u32) -> OperandView,
) -> Decoded {
    match read_word(w, pos, Some(end)) {
        Err(e) => Err(e),
        Ok(x) => match read_word(w, pos + 1, Some(end)) {
            Err(e) => Err(e),
            Ok(y) => Ok((seq![f(x), h(y)], pos + 2)),
        },
    }
}

/// The operands that one logical operand of kind `k` starting at `pos` decodes to,
/// in a window ending at `end`.
pub open spec fn decode_kind(
    g: GrammarTable,
    w: Seq<u32>,
    pos: nat,
    end: nat,
    k: OperandKind,
) -> Decoded
    decreases rank(k), 1nat, 0nat,
{
    match k {
        OperandKind::LiteralString => match decode_string(w, pos, end) {
            Ok((s, p)) => Ok((seq![OperandView::LiteralString(s)], p)),
            Err(e) => Err(e),
        },
        OperandKind::PairIdRefLiteralInteger => decode_two(
            w,
            pos,
            end,
            |x: u32| OperandView::IdRef(x),
            |x: u32| OperandView::LiteralInt32(x),
        ),
        OperandKind::PairLiteralIntegerIdRef => decode_two(
            w,
            pos,
            end,
            |x: u32| OperandView::LiteralInt32(x),
            |x: u32| OperandView::IdRef(x),
        ),
        OperandKind::PairIdRefIdRef => decode_two(
            w,
            pos,
            end,
            |x: u32| OperandView::IdRef(x),
            |x: u32| OperandView::IdRef(x),
        ),
        _ => match read_word(w, pos, Some(end)) {
            Err(e) => Err(e),
            Ok(x) => match k {
                OperandKind::LiteralInteger => Ok((seq![OperandView::LiteralInt32(x)], pos + 1)),
                OperandKind::ValueEnum(i) => {
                    if i < g.enums@.len() {
                        match find_value(g.enums@[i as int]@, x) {
                            None => Err(DecodeError::EnumerantUnknown((4 * pos) as usize, x)),
                            Some(e) => prepend(
                                seq![OperandView::ValueEnum(i, x)],
                                decode_kinds(g, w, pos + 1, end, e.params@, i as nat),
                            ),
                        }
                    } else {
                        Err(DecodeError::EnumerantUnknown((4 * pos) as usize, x))
                    }
                },
                OperandKind::BitEnum(i) => {
                    if i < g.enums@.len() && x & !known_bits(g.enums@[i as int]@) == 0 {
                        prepend(
                            seq![OperandView::BitEnum(i, x)],
                            decode_kinds(
                                g,
                                w,
                                pos + 1,
                                end,
                                flag_params(g.enums@[i as int]@, x),
                                i as nat,
                            ),
                        )
                    } else {
                        Err(DecodeError::EnumerantUnknown((4 * pos) as usize, x))
                    }
                },
                _ => Ok((seq![OperandView::IdRef(x)], pos + 1)),
            },
        },
    }
}

/// The operands that the kinds `ks`, read one after another from `pos`, decode to.
/// Only kinds of rank at most `bound` are read; in a well-formed grammar the kinds that
/// an enumerant of table `i` mandates all have rank at most `i`.
pub open spec fn decode_kinds(
    g: GrammarTable,
    w: Seq<u32>,
    pos: nat,
    end: nat,
    ks: Seq<OperandKind>,
    bound: nat,
) -> Decoded
    decreases bound + 1, 0nat, ks.len(),
{
    if ks.len() == 0 {
        Ok((seq![], pos))
    } else if rank(ks[0]) <= bound {
        match decode_kind(g, w, pos, end, ks[0]) {
            Err(e) => Err(e),
            Ok((a, p)) => prepend(a, decode_kinds(g, w, p, end, ks.drop_first(), bound)),
        }
    } else {
        Ok((seq![], pos))
    }
}

/// Decoding a string literal moves forward and stays in the window.
pub proof fn lemma_string_progress(w: Seq<u32>, pos: nat, end: nat)
    ensures
        decode_string(w, pos, end) matches Ok((_, p)) ==> pos < p <= end,
    decreases end - pos,
{
    if pos < end && pos < w.len() {
        lemma_string_progress(w, pos + 1, end);
    }
}

/// Decoding one logical operand moves forward and stays in the window.
pub proof fn lemma_kind_progress(g: GrammarTable, w: Seq<u32>, pos: nat, end: nat, k: OperandKind)
    ensures
        decode_kind(g, w, pos, end, k) matches Ok((_, p)) ==> pos < p <= end,
    decreases rank(k), 1nat, 0nat,
{
    lemma_string_progress(w, pos, end);
    match k {
        OperandKind::ValueEnum(i) => {
            if i < g.enums@.len() && pos < end && pos < w.len() {
                let x = w[pos as int];
                match find_value(g.enums@[i as int]@, x) {
                    Some(e) => {
                        lemma_kinds_progress(g, w, pos + 1, end, e.params@, i as nat);
                    },
                    None => {},
                }
            }
        },
        OperandKind::BitEnum(i) => {
            if i < g.enums@.len() && pos < end && pos < w.len() {
                let x = w[pos as int];
                lemma_kinds_progress(g, w, pos + 1, end, flag_params(g.enums@[i as int]@, x), i as nat);
            }
        },
        _ => {},
    }
}

/// Decoding a sequence of kinds never moves back and stays in the window.
pub proof fn lemma_kinds_progress(
    g: GrammarTable,
    w: Seq<u32>,
    pos: nat,
    end: nat,
    ks: Seq<OperandKind>,
    bound: nat,
)
    requires
        pos <= end,
    ensures
        decode_kinds(g, w, pos, end, ks, bound) matches Ok((_, p)) ==> pos <= p <= end,
    decreases bound + 1, 0nat, ks.len(),
{
    if ks.len() > 0 && rank(ks[0]) <= bound {
        lemma_kind_progress(g, w, pos, end, ks[0]);
        match decode_kind(g, w, pos, end, ks[0]) {
            Ok((_, p)) => {
                lemma_kinds_progress(g, w, p, end, ks.drop_first(), bound);
            },
            Err(_) => {},
        }
    }
}

/// The kinds mandated by set flags are kinds mandated by some enumerant of the table.
pub proof fn lemma_flag_params_rank(es: Seq<crate::grammar::Enumerant>, x: u32, bound: nat)
    requires
        forall|j: int, m: int|
            0 <= j < es.len() && 0 <= m < es[j].params@.len() ==> rank(#[trigger] es[j].params@[m])
                <= bound,
    ensures
        forall|k: int|
            0 <= k < flag_params(es, x).len() ==> rank(#[trigger] flag_params(es, x)[k]) <= bound,
    decreases es.len(),
{
    if es.len() > 0 {
        let init = es.drop_last();
        assert forall|j: int, m: int|
            0 <= j < init.len() && 0 <= m < init[j].params@.len() implies rank(
                #[trigger] init[j].params@[m],
            ) <= bound by {
            assert(init[j] == es[j]);
        }
        lemma_flag_params_rank(init, x, bound);
        let last = es.last();
        assert forall|m: int| 0 <= m < last.params@.len() implies rank(
            #[trigger] last.params@[m],
        ) <= bound by {
            assert(es[es.len() - 1].params@[m] == last.params@[m]);
        }
        let a = flag_params(init, x);
        let b: Seq<OperandKind> = if flag_set(last, x) {
            last.params@
        } else {
            seq![]
        };
        assert(flag_params(es, x) == a + b);
        assert forall|k: int| 0 <= k < flag_params(es, x).len() implies rank(
            #[trigger] flag_params(es, x)[k],
        ) <= bound by {
            if k < a.len() {
                assert(flag_params(es, x)[k] == a[k]);
            } else {
                assert(flag_params(es, x)[k] == b[k - a.len()]);
            }
        }
    }
}

/// Whether the exec result `r`, with the cursor left at `p`, is the decoding `s`.
pub open spec fn decoded_as(r: Result<Vec<Operand>, DecodeError>, s: Decoded, p: nat) -> bool {
    match s {
        Ok((o, q)) => r is Ok && operands_view(r->Ok_0@) == o && p == q,
        Err(e) => r is Err && r->Err_0 == e,
    }
}

/// Reads a string literal: words up to and including the first that holds a zero byte.
pub fn read_string(d: &mut Decoder) -> (r: Result<Vec<u8>, DecodeError>)
    requires
        old(d).wf(),
        old(d)@.end is Some,
        old(d)@.pos <= old(d)@.end->0,
    ensures
        final(d).wf(),
        final(d)@.words == old(d)@.words,
        final(d)@.end == old(d)@.end,
        final(d)@.pos <= final(d)@.end->0,
        match decode_string(old(d)@.words, old(d)@.pos, old(d)@.end->0) {
            Ok((s, p)) => r is Ok && r->Ok_0@ == s && final(d)@.pos == p,
            Err(e) => r is Err && r->Err_0 == e,
        },
{
    let ghost w = d@.words;
    let ghost pos0 = d@.pos;
    let ghost end = d@.end->0;
    let mut acc: Vec<u8> = Vec::new();
    loop
        invariant
            d.wf(),
            w == old(d)@.words,
            pos0 == old(d)@.pos,
            end == old(d)@.end->0,
            old(d)@.end is Some,
            d@.words == w,
            d@.end == Some(end),
            d@.pos <= end,
            decode_string(w, pos0, end) == match decode_string(w, d@.pos, end) {
                Ok((s, p)) => Ok((acc@ + s, p)),
                Err(e) => Err(e),
            },
        decreases end - d@.pos,
    {
        let ghost before = acc@;
        let ghost pos = d@.pos;
        let x = match d.word() {
            Ok(x) => x,
            Err(e) => {
                return Err(e);
            },
        };
        let b0 = (x & 0xff) as u8;
        let b1 = ((x >> 8u32) & 0xff) as u8;
        let b2 = ((x >> 16u32) & 0xff) as u8;
        let b3 = ((x >> 24u32) & 0xff) as u8;
        let ghost b = word_bytes(x);
        assert(b[0] == b0 && b[1] == b1 && b[2] == b2 && b[3] == b3);
        if b0 == 0 {
            assert(b.take(0) =~= seq![]);
            assert(acc@ =~= before + b.take(0));
            return Ok(acc);
        }
        acc.push(b0);
        if b1 == 0 {
            assert(acc@ =~= before + b.take(1));
            return Ok(acc);
        }
        acc.push(b1);
        if b2 == 0 {
            assert(acc@ =~= before + b.take(2));
            return Ok(acc);
        }
        acc.push(b2);
        if b3 == 0 {
            assert(acc@ =~= before + b.take(3));
            return Ok(acc);
        }
        acc.push(b3);
        assert(acc@ =~= before + b);
        assert forall|s: Seq<u8>| #[trigger] (before + (b + s)) == acc@ + s by {
            assert(before + (b + s) =~= acc@ + s);
        }
    }
}

/// Decodes one logical operand of kind `k` at the cursor.
pub fn decode_operand(g: &GrammarTable, d: &mut Decoder, k: OperandKind) -> (r: Result<
    Vec<Operand>,
    DecodeError,
>)
    requires
        wf(*g),
        kind_ok(*g, k),
        old(d).wf(),
        old(d)@.end is Some,
        old(d)@.pos <= old(d)@.end->0,
    ensures
        final(d).wf(),
        final(d)@.words == old(d)@.words,
        final(d)@.end == old(d)@.end,
        final(d)@.pos <= final(d)@.end->0,
        decoded_as(r, decode_kind(*g, old(d)@.words, old(d)@.pos, old(d)@.end->0, k), final(d)@.pos),
    decreases rank(k), 1nat, 0nat,
{
    let ghost w = d@.words;
    let ghost pos = d@.pos;
    let ghost end = d@.end->0;
    let off = d.offset();
    match k {
        OperandKind::LiteralString => {
            let s = match read_string(d) {
                Ok(s) => s,
                Err(e) => {
                    return Err(e);
                },
            };
            proof {
                lemma_string_progress(w, pos, end);
            }
            let v = vec![Operand::LiteralString(s)];
            assert(operands_view(v@) =~= seq![OperandView::LiteralString(s@)]);
            Ok(v)
        },
        OperandKind::PairIdRefLiteralInteger | OperandKind::PairLiteralIntegerIdRef
        | OperandKind::PairIdRefIdRef => {
            let x = match d.word() {
                Ok(x) => x,
                Err(e) => {
                    return Err(e);
                },
            };
            let y = match d.word() {
                Ok(y) => y,
                Err(e) => {
                    return Err(e);
                },
            };
            let v = match k {
                OperandKind::PairIdRefLiteralInteger => vec![
                    Operand::IdRef(x),
                    Operand::LiteralInt32(y),
                ],
                OperandKind::PairLiteralIntegerIdRef => vec![
                    Operand::LiteralInt32(x),
                    Operand::IdRef(y),
                ],
                _ => vec![Operand::IdRef(x), Operand::IdRef(y)],
            };
            assert(operands_view(v@) =~= decode_kind(*g, w, pos, end, k)->Ok_0.0);
            Ok(v)
        },
        _ => {
            let x = match d.word() {
                Ok(x) => x,
                Err(e) => {
                    return Err(e);
                },
            };
            match k {
                OperandKind::LiteralInteger => {
                    let v = vec![Operand::LiteralInt32(x)];
                    assert(operands_view(v@) =~= seq![OperandView::LiteralInt32(x)]);
                    Ok(v)
                },
                OperandKind::ValueEnum(i) => {
                    match g.find_enumerant(i, x) {
                        None => Err(DecodeError::EnumerantUnknown(off, x)),
                        Some(e) => {
                            proof {
                                let es = g.enums@[i as int]@;
                                let j = choose|j: int| crate::grammar::first_value(es, x, j);
                                assert forall|m: int| 0 <= m < e.params@.len() implies rank(
                                    #[trigger] e.params@[m],
                                ) <= i by {
                                    assert(rank(g.enums@[i as int]@[j].params@[m]) <= i);
                                }
                            }
                            let rest = match decode_operands(g, d, &e.params, i) {
                                Ok(rest) => rest,
                                Err(er) => {
                                    return Err(er);
                                },
                            };
                            let mut v = vec![Operand::ValueEnum(i, x)];
                            let ghost rv = rest@;
                            let mut rest = rest;
                            v.append(&mut rest);
                            assert(operands_view(v@) =~= seq![OperandView::ValueEnum(i, x)]
                                + operands_view(rv));
                            Ok(v)
                        },
                    }
                },
                OperandKind::BitEnum(i) => {
                    let known = g.known_flags(i);
                    if x & !known != 0 {
                        return Err(DecodeError::EnumerantUnknown(off, x));
                    }
                    let kinds = g.flag_operand_kinds(i, x);
                    proof {
                        let es = g.enums@[i as int]@;
                        assert forall|j: int, m: int|
                            0 <= j < es.len() && 0 <= m < es[j].params@.len() implies rank(
                                #[trigger] es[j].params@[m],
                            ) <= i by {
                            assert(rank(g.enums@[i as int]@[j].params@[m]) <= i);
                        }
                        lemma_flag_params_rank(es, x, i as nat);
                    }
                    let rest = match decode_operands(g, d, &kinds, i) {
                        Ok(rest) => rest,
                        Err(er) => {
                            return Err(er);
                        },
                    };
                    let mut v = vec![Operand::BitEnum(i, x)];
                    let ghost rv = rest@;
                    let mut rest = rest;
                    v.append(&mut rest);
                    assert(operands_view(v@) =~= seq![OperandView::BitEnum(i, x)] + operands_view(
                        rv,
                    ));
                    Ok(v)
                },
                _ => {
                    let v = vec![Operand::IdRef(x)];
                    assert(operands_view(v@) =~= seq![OperandView::IdRef(x)]);
                    Ok(v)
                },
            }
        },
    }
}

/// Decodes the kinds `ks` one after another at the cursor.
pub fn decode_operands(
    g: &GrammarTable,
    d: &mut Decoder,
    ks: &Vec<OperandKind>,
    bound: usize,
) -> (r: Result<Vec<Operand>, DecodeError>)
    requires
        wf(*g),
        bound < g.enums@.len(),
        forall|m: int| 0 <= m < ks@.len() ==> rank(#[trigger] ks@[m]) <= bound,
        old(d).wf(),
        old(d)@.end is Some,
        old(d)@.pos <= old(d)@.end->0,
    ensures
        final(d).wf(),
        final(d)@.words == old(d)@.words,
        final(d)@.end == old(d)@.end,
        final(d)@.pos <= final(d)@.end->0,
        decoded_as(
            r,
            decode_kinds(*g, old(d)@.words, old(d)@.pos, old(d)@.end->0, ks@, bound as nat),
            final(d)@.pos,
        ),
    decreases bound + 1, 0nat, ks@.len(),
{
    let ghost w = d@.words;
    let ghost pos0 = d@.pos;
    let ghost end = d@.end->0;
    let mut acc: Vec<Operand> = Vec::new();
    let mut i: usize = 0;
    assert(ks@.skip(0) =~= ks@);
    while i < ks.len()
        invariant
            wf(*g),
            bound < g.enums@.len(),
            forall|m: int| 0 <= m < ks@.len() ==> rank(#[trigger] ks@[m]) <= bound,
            i <= ks@.len(),
            d.wf(),
            w == old(d)@.words,
            pos0 == old(d)@.pos,
            end == old(d)@.end->0,
            old(d)@.end is Some,
            d@.words == w,
            d@.end == Some(end),
            d@.pos <= end,
            decode_kinds(*g, w, pos0, end, ks@, bound as nat) == prepend(
                operands_view(acc@),
                decode_kinds(*g, w, d@.pos, end, ks@.skip(i as int), bound as nat),
            ),
        decreases ks@.len() - i,
    {
        let ghost pos = d@.pos;
        let ghost tail = ks@.skip(i as int);
        assert(tail[0] == ks@[i as int]);
        assert(tail.drop_first() =~= ks@.skip(i + 1));
        let k = ks[i];
        assert(rank(k) <= bound);
        let v = match decode_operand(g, d, k) {
            Ok(v) => v,
            Err(e) => {
                return Err(e);
            },
        };
        let ghost av = operands_view(acc@);
        let ghost vv = operands_view(v@);
        let mut v = v;
        acc.append(&mut v);
        assert(operands_view(acc@) =~= av + vv);
        i = i + 1;
        proof {
            let rest = decode_kinds(*g, w, d@.pos, end, ks@.skip(i as int), bound as nat);
            match rest {
                Ok((o, p)) => {
                    assert(av + (vv + o) =~= (av + vv) + o);
                },
                Err(_) => {},
            }
        }
    }
    assert(ks@.skip(i as int) =~= seq![]);
    assert(operands_view(acc@) + seq![] =~= operands_view(acc@));
    Ok(acc)
}

} // verus!
