//! What holds of every assembled program: decoding it gives its
//! instructions back, and a label in the first block points at the
//! statement that follows it.

use crate::assembly::assemble::{encode, lemma_encode_decode};
use crate::assembly::layout::{
    block_words, emit, emit_deferred, enter_symbols, global_symbols, lookup, missing_in, resolve,
    BlockView, ItemView, LayoutProgress, LayoutView, Symbols,
};
use crate::disassemble::{decode, decode_all, lemma_decode_count, lemma_field_bounds, word_at};
use crate::opcodes::{OpcodeView, OperandView};
use crate::parser::StatementView;
use crate::result::DcpuErrorKind;
use vstd::prelude::*;

verus! {

/// Decoding does not look at words that it does not take: if an
/// instruction decodes with `n` words after its first, it decodes to the
/// same from any stream with the same first `n` words.
pub proof fn lemma_decode_ignores_rest(
    inst: u16,
    w1: Option<u16>,
    w2: Option<u16>,
    v1: Option<u16>,
    v2: Option<u16>,
)
    requires
        decode(inst, w1, w2) is Ok,
        decode(inst, w1, w2)->Ok_0.1 >= 1 ==> v1 == w1,
        decode(inst, w1, w2)->Ok_0.1 >= 2 ==> v2 == w2,
    ensures
        decode(inst, v1, v2) == decode(inst, w1, w2),
{
    reveal(decode);
    lemma_field_bounds(inst);
}

/// A stream that is made of two streams of whole instructions holds the
/// instructions of the first and then those of the second.
pub proof fn lemma_decode_all_append(x: Seq<u16>, y: Seq<u16>)
    requires
        decode_all(x) is Ok,
        decode_all(y) is Ok,
    ensures
        decode_all(x + y) == Ok::<Seq<OpcodeView>, DcpuErrorKind>(
            decode_all(x)->Ok_0 + decode_all(y)->Ok_0,
        ),
    decreases x.len(),
{
    if x.len() == 0 {
        assert(x + y =~= y);
        assert(decode_all(x)->Ok_0 + decode_all(y)->Ok_0 =~= decode_all(y)->Ok_0);
    } else {
        let z = x + y;
        let first = decode(x[0], word_at(x, 1), word_at(x, 2));
        let (op, n) = first->Ok_0;
        lemma_decode_count(x[0], word_at(x, 1), word_at(x, 2));
        lemma_decode_ignores_rest(x[0], word_at(x, 1), word_at(x, 2), word_at(z, 1), word_at(z, 2));
        assert(z[0] == x[0]);
        lemma_decode_all_append(x.skip(1 + n as int), y);
        assert(z.skip(1 + n as int) =~= x.skip(1 + n as int) + y);
        let rest = decode_all(x.skip(1 + n as int))->Ok_0;
        assert(seq![op] + (rest + decode_all(y)->Ok_0) =~= (seq![op] + rest) + decode_all(
            y,
        )->Ok_0);
    }
}

/// The words of one instruction hold that instruction and no other.
pub proof fn lemma_decode_all_encoded(op: OpcodeView)
    requires
        encode(op) is Ok,
    ensures
        decode_all(encode(op)->Ok_0) == Ok::<Seq<OpcodeView>, DcpuErrorKind>(seq![op]),
{
    let w = encode(op)->Ok_0;
    lemma_encode_decode(op, Seq::empty());
    assert(w + Seq::<u16>::empty() =~= w);
    let n = (w.len() - 1) as nat;
    assert(decode(w[0], word_at(w, 1), word_at(w, 2)) == Ok::<(OpcodeView, nat), DcpuErrorKind>(
        (op, n),
    ));
    let rest = w.skip(1 + n as int);
    assert(rest.len() == 0);
    assert(decode_all(rest) == Ok::<Seq<OpcodeView>, DcpuErrorKind>(Seq::empty()));
    assert(seq![op] + Seq::<OpcodeView>::empty() =~= seq![op]);
}

/// True if `r` is `o` with its labels replaced by numbers: a label by a
/// literal, a label in brackets by an address, a register with a label by
/// the register with an offset; an operand without a label is unchanged.
pub open spec fn operand_substituted(o: OperandView, r: OperandView) -> bool {
    match o {
        OperandView::Label(_) => r is Literal,
        OperandView::LabelDeref(_) => r is LiteralDeref,
        OperandView::LabelPlusDeref(_, _) => r is LiteralDeref,
        OperandView::LabelPlusLabelDeref(_, _) => r is LiteralDeref,
        OperandView::RegisterPlusLabelDeref(reg, _) => r is RegisterPlusDeref
            && r->RegisterPlusDeref_0 == reg,
        _ => r == o,
    }
}

/// True if `r` is the instruction `op` with the labels of its operands
/// replaced by numbers.
pub open spec fn substituted(op: OpcodeView, r: OpcodeView) -> bool {
    match op {
        OpcodeView::Binary(o, b, a) => r is Binary && r->Binary_0 == o && operand_substituted(
            b,
            r->Binary_1,
        ) && operand_substituted(a, r->Binary_2),
        OpcodeView::Special(o, a) => r is Special && r->Special_0 == o && operand_substituted(
            a,
            r->Special_1,
        ),
    }
}

/// Resolving an instruction replaces its labels by numbers and nothing
/// else.
pub proof fn lemma_resolve_substituted(symbols: Symbols, op: OpcodeView)
    ensures
        substituted(op, resolve(symbols, op)),
{
}

/// The instructions among a sequence of statements, in their order.
pub open spec fn instructions(stmts: Seq<StatementView>) -> Seq<OpcodeView>
    decreases stmts.len(),
{
    if stmts.len() == 0 {
        Seq::empty()
    } else {
        match stmts.last() {
            StatementView::Instruction(op) => instructions(stmts.drop_last()).push(op),
            StatementView::LabelDef(_) => instructions(stmts.drop_last()),
        }
    }
}

/// The instructions that the items of a layout hold: those in the code of
/// the blocks, and the deferred ones as `table` resolves them.
pub open spec fn decoded_items(items: Seq<ItemView>, table: Symbols) -> Seq<OpcodeView>
    decreases items.len(),
{
    if items.len() == 0 {
        Seq::empty()
    } else {
        decoded_items(items.drop_last(), table) + (match items.last() {
            ItemView::Block(b) => match decode_all(b.code) {
                Ok(ops) => ops,
                Err(_) => Seq::empty(),
            },
            ItemView::Deferred(op) => seq![resolve(table, op)],
        })
    }
}

/// True if the code of every block is a sequence of whole instructions.
pub open spec fn blocks_decode(items: Seq<ItemView>) -> bool {
    forall|i: int|
        0 <= i < items.len() ==> (match #[trigger] items[i] {
            ItemView::Block(b) => decode_all(b.code) is Ok,
            ItemView::Deferred(_) => true,
        })
}

/// The words that are written for a list of items decode to the
/// instructions that the items hold.
proof fn lemma_emit_decodes(items: Seq<ItemView>, table: Symbols)
    requires
        blocks_decode(items),
        emit(items, table) is Ok,
    ensures
        decode_all(emit(items, table)->Ok_0) == Ok::<Seq<OpcodeView>, DcpuErrorKind>(
            decoded_items(items, table),
        ),
    decreases items.len(),
{
    if items.len() > 0 {
        let front = items.drop_last();
        assert forall|i: int| 0 <= i < front.len() implies (match #[trigger] front[i] {
            ItemView::Block(b) => decode_all(b.code) is Ok,
            ItemView::Deferred(_) => true,
        }) by {
            assert(front[i] == items[i]);
        }
        lemma_emit_decodes(front, table);
        let words = emit(front, table)->Ok_0;
        assert(items.last() == items[items.len() - 1]);
        match items.last() {
            ItemView::Block(b) => {
                lemma_decode_all_append(words, b.code);
            },
            ItemView::Deferred(op) => {
                let w = emit_deferred(table, op)->Ok_0;
                lemma_decode_all_encoded(resolve(table, op));
                lemma_decode_all_append(words, w);
            },
        }
    }
}

/// The instructions among a sequence of statements as the layout resolves
/// them, in their order. An instruction whose labels are all defined
/// before it in its own block has each label replaced by the label's
/// offset in that block. Any other is deferred and has each label
/// replaced by the label's position in `table`, the table of all symbols.
pub open spec fn resolved_instructions(stmts: Seq<StatementView>, table: Symbols) -> Seq<
    OpcodeView,
>
    decreases stmts.len(),
{
    if stmts.len() == 0 {
        Seq::empty()
    } else {
        let before = resolved_instructions(stmts.drop_last(), table);
        let block = LayoutView::empty().handle_all(stmts.drop_last())->Ok_0.curr.symbols;
        match stmts.last() {
            StatementView::LabelDef(_) => before,
            StatementView::Instruction(op) => before.push(
                if missing_in(block, op) is Some {
                    resolve(table, op)
                } else {
                    resolve(block, op)
                },
            ),
        }
    }
}

/// What pass 1 keeps true: the code of every block is a sequence of whole
/// instructions, and the instructions that the layout holds are those of
/// the statements, one for one, as the layout resolves them.
proof fn lemma_layout_holds_statements(stmts: Seq<StatementView>, table: Symbols)
    requires
        LayoutView::empty().handle_all(stmts) is Ok,
    ensures
        blocks_decode(LayoutView::empty().handle_all(stmts)->Ok_0.sealed()),
        decoded_items(LayoutView::empty().handle_all(stmts)->Ok_0.sealed(), table)
            == resolved_instructions(stmts, table),
        decoded_items(LayoutView::empty().handle_all(stmts)->Ok_0.sealed(), table).len()
            == instructions(stmts).len(),
        forall|k: int|
            0 <= k < instructions(stmts).len() ==> substituted(
                #[trigger] instructions(stmts)[k],
                decoded_items(LayoutView::empty().handle_all(stmts)->Ok_0.sealed(), table)[k],
            ),
    decreases stmts.len(),
{
    let l = LayoutView::empty().handle_all(stmts)->Ok_0;
    if stmts.len() == 0 {
        let s = l.sealed();
        assert(s.drop_last() =~= Seq::<ItemView>::empty());
        assert(s.last() == ItemView::Block(BlockView::empty()));
        assert(s[0] == ItemView::Block(BlockView::empty()));
        assert(decode_all(BlockView::empty().code) == Ok::<Seq<OpcodeView>, DcpuErrorKind>(
            Seq::empty(),
        ));
        assert(decoded_items(s.drop_last(), table) =~= Seq::<OpcodeView>::empty());
        assert(decoded_items(s, table) =~= Seq::<OpcodeView>::empty());
    } else {
        let before = stmts.drop_last();
        lemma_layout_holds_statements(before, table);
        let l0 = LayoutView::empty().handle_all(before)->Ok_0;
        let s0 = l0.sealed();
        let s = l.sealed();
        let d0 = decoded_items(s0, table);
        let c0 = decode_all(l0.curr.code)->Ok_0;
        assert(s0.drop_last() =~= l0.items);
        assert(s0.last() == ItemView::Block(l0.curr));
        assert(s0[l0.items.len() as int] == ItemView::Block(l0.curr));
        assert(d0 == decoded_items(l0.items, table) + c0);
        assert(s.drop_last() =~= l.items);
        assert(s.last() == ItemView::Block(l.curr));
        match stmts.last() {
            StatementView::LabelDef(name) => {
                assert(l.items == l0.items);
                assert(l.curr.code == l0.curr.code);
                assert forall|i: int| 0 <= i < s.len() implies (match #[trigger] s[i] {
                    ItemView::Block(b) => decode_all(b.code) is Ok,
                    ItemView::Deferred(_) => true,
                }) by {
                    if i < l0.items.len() {
                        assert(s[i] == s0[i]);
                    }
                }
                assert(decoded_items(s, table) == d0);
            },
            StatementView::Instruction(op) => {
                let (b, progress) = l0.curr.handle(op)->Ok_0;
                match progress {
                    LayoutProgress::Continue => {
                        let r = resolve(l0.curr.symbols, op);
                        let w = encode(r)->Ok_0;
                        lemma_decode_all_encoded(r);
                        lemma_decode_all_append(l0.curr.code, w);
                        lemma_resolve_substituted(l0.curr.symbols, op);
                        assert(l.items == l0.items);
                        assert(l.curr.code == l0.curr.code + w);
                        assert forall|i: int| 0 <= i < s.len() implies (match #[trigger] s[i] {
                            ItemView::Block(b) => decode_all(b.code) is Ok,
                            ItemView::Deferred(_) => true,
                        }) by {
                            if i < l0.items.len() {
                                assert(s[i] == s0[i]);
                            }
                        }
                        assert(decoded_items(s, table) =~= d0.push(r));
                        assert(instructions(stmts) == instructions(before).push(op));
                        assert forall|k: int| 0 <= k < instructions(stmts).len() implies substituted(
                            #[trigger] instructions(stmts)[k],
                            decoded_items(s, table)[k],
                        ) by {
                            if k < instructions(before).len() {
                                assert(instructions(stmts)[k] == instructions(before)[k]);
                            }
                        }
                    },
                    LayoutProgress::Deferred => {
                        let r = resolve(table, op);
                        lemma_resolve_substituted(table, op);
                        let i1 = l0.items.push(ItemView::Block(l0.curr));
                        let i2 = i1.push(ItemView::Deferred(op));
                        assert(l.items == i2);
                        assert(l.curr == BlockView::empty());
                        assert(i1 =~= s0);
                        assert(i2.drop_last() =~= i1);
                        assert(i2.last() == ItemView::Deferred(op));
                        assert(decoded_items(i2, table) == d0 + seq![r]);
                        assert(decoded_items(s, table) =~= d0.push(r));
                        assert forall|i: int| 0 <= i < s.len() implies (match #[trigger] s[i] {
                            ItemView::Block(b) => decode_all(b.code) is Ok,
                            ItemView::Deferred(_) => true,
                        }) by {
                            if i < s0.len() {
                                assert(s[i] == s0[i]);
                            }
                        }
                        assert(instructions(stmts) == instructions(before).push(op));
                        assert forall|k: int| 0 <= k < instructions(stmts).len() implies substituted(
                            #[trigger] instructions(stmts)[k],
                            decoded_items(s, table)[k],
                        ) by {
                            if k < instructions(before).len() {
                                assert(instructions(stmts)[k] == instructions(before)[k]);
                            }
                        }
                    },
                }
            },
        }
    }
}

/// Assembling and decoding gives the program back.
///
/// If a sequence of statements can be laid out and finalized, then
/// decoding the words of the program, from the first to the last, yields
/// one instruction for each instruction among the statements, in the same
/// order, and each is the statement's instruction with its labels
/// replaced by numbers: by the numbers that [`resolved_instructions`]
/// names, with the program's own table as the table of all symbols.
pub proof fn lemma_layout_round_trip(stmts: Seq<StatementView>)
    requires
        LayoutView::empty().handle_all(stmts) is Ok,
        LayoutView::empty().handle_all(stmts)->Ok_0.finalize() is Ok,
    ensures
        decode_all(LayoutView::empty().handle_all(stmts)->Ok_0.finalize()->Ok_0.code) == Ok::<
            Seq<OpcodeView>,
            DcpuErrorKind,
        >(
            resolved_instructions(
                stmts,
                LayoutView::empty().handle_all(stmts)->Ok_0.finalize()->Ok_0.symbols,
            ),
        ),
        decode_all(LayoutView::empty().handle_all(stmts)->Ok_0.finalize()->Ok_0.code) is Ok,
        decode_all(
            LayoutView::empty().handle_all(stmts)->Ok_0.finalize()->Ok_0.code,
        )->Ok_0.len() == instructions(stmts).len(),
        forall|k: int|
            0 <= k < instructions(stmts).len() ==> substituted(
                #[trigger] instructions(stmts)[k],
                decode_all(
                    LayoutView::empty().handle_all(stmts)->Ok_0.finalize()->Ok_0.code,
                )->Ok_0[k],
            ),
{
    let l = LayoutView::empty().handle_all(stmts)->Ok_0;
    let prog = l.finalize()->Ok_0;
    let table = prog.symbols;
    lemma_layout_holds_statements(stmts, table);
    lemma_emit_decodes(l.sealed(), table);
}

/// The words of a sequence of instructions: the words of each, one
/// instruction after the other.
pub open spec fn words_of(ops: Seq<OpcodeView>) -> Seq<u16>
    decreases ops.len(),
{
    if ops.len() == 0 {
        Seq::empty()
    } else {
        words_of(ops.drop_last()) + (match encode(ops.last()) {
            Ok(w) => w,
            Err(_) => Seq::empty(),
        })
    }
}

/// The words of a sequence with one more instruction at its end.
proof fn lemma_words_of_push(ops: Seq<OpcodeView>, r: OpcodeView, w: Seq<u16>)
    requires
        encode(r) == Ok::<Seq<u16>, crate::assembly::assemble::AssemblyErrorView>(w),
        forall|k: int| 0 <= k < ops.len() ==> encode(#[trigger] ops[k]) is Ok,
    ensures
        words_of(ops.push(r)) == words_of(ops) + w,
        forall|k: int| 0 <= k < ops.push(r).len() ==> encode(#[trigger] ops.push(r)[k]) is Ok,
{
    assert(ops.push(r).drop_last() =~= ops);
    assert(ops.push(r).last() == r);
    assert forall|k: int| 0 <= k < ops.push(r).len() implies encode(
        #[trigger] ops.push(r)[k],
    ) is Ok by {
        if k < ops.len() {
            assert(ops.push(r)[k] == ops[k]);
        }
    }
}

/// The words of a list of items that ends with a block.
proof fn lemma_emit_block(items: Seq<ItemView>, b: BlockView, table: Symbols)
    ensures
        emit(items.push(ItemView::Block(b)), table) == (match emit(items, table) {
            Err(e) => Err(e),
            Ok(w) => Ok(w + b.code),
        }),
{
    assert(items.push(ItemView::Block(b)).drop_last() =~= items);
}

/// The words of a list of items that ends with a deferred instruction.
proof fn lemma_emit_waiting(items: Seq<ItemView>, op: OpcodeView, table: Symbols)
    ensures
        emit(items.push(ItemView::Deferred(op)), table) == (match emit(items, table) {
            Err(e) => Err(e),
            Ok(w) => match emit_deferred(table, op) {
                Err(e) => Err(e),
                Ok(d) => Ok(w + d),
            },
        }),
{
    assert(items.push(ItemView::Deferred(op)).drop_last() =~= items);
}

/// What the layout writes for a sequence of statements is what the
/// encoder gives for their instructions as the layout resolves them.
#[verifier::rlimit(40)]
proof fn lemma_layout_emits(stmts: Seq<StatementView>, table: Symbols)
    requires
        LayoutView::empty().handle_all(stmts) is Ok,
        emit(LayoutView::empty().handle_all(stmts)->Ok_0.sealed(), table) is Ok,
    ensures
        emit(LayoutView::empty().handle_all(stmts)->Ok_0.sealed(), table)->Ok_0 == words_of(
            resolved_instructions(stmts, table),
        ),
        forall|k: int|
            0 <= k < resolved_instructions(stmts, table).len() ==> encode(
                #[trigger] resolved_instructions(stmts, table)[k],
            ) is Ok,
    decreases stmts.len(),
{
    let l = LayoutView::empty().handle_all(stmts)->Ok_0;
    lemma_emit_block(l.items, l.curr, table);
    if stmts.len() == 0 {
        assert(emit(l.sealed(), table)->Ok_0 =~= Seq::<u16>::empty());
    } else {
        let before = stmts.drop_last();
        let l0 = LayoutView::empty().handle_all(before)->Ok_0;
        let r0 = resolved_instructions(before, table);
        lemma_emit_block(l0.items, l0.curr, table);
        match stmts.last() {
            StatementView::LabelDef(name) => {
                assert(l.items == l0.items);
                assert(l.curr.code == l0.curr.code);
                lemma_layout_emits(before, table);
            },
            StatementView::Instruction(op) => {
                let (b, progress) = l0.curr.handle(op)->Ok_0;
                match progress {
                    LayoutProgress::Continue => {
                        let r = resolve(l0.curr.symbols, op);
                        let w = encode(r)->Ok_0;
                        assert(l.items == l0.items);
                        assert(l.curr.code == l0.curr.code + w);
                        lemma_layout_emits(before, table);
                        let front = emit(l0.items, table)->Ok_0;
                        assert(front + (l0.curr.code + w) =~= (front + l0.curr.code) + w);
                        lemma_words_of_push(r0, r, w);
                    },
                    LayoutProgress::Deferred => {
                        let r = resolve(table, op);
                        let i1 = l0.sealed();
                        let i2 = i1.push(ItemView::Deferred(op));
                        assert(l.items == i2);
                        assert(l.curr == BlockView::empty());
                        lemma_emit_waiting(i1, op, table);
                        lemma_layout_emits(before, table);
                        let w = emit_deferred(table, op)->Ok_0;
                        assert(w == encode(r)->Ok_0);
                        assert((emit(i1, table)->Ok_0 + w) + BlockView::empty().code =~= emit(
                            i1,
                            table,
                        )->Ok_0 + w);
                        lemma_words_of_push(r0, r, w);
                    },
                }
            },
        }
    }
}

/// No word is added, dropped or moved.
///
/// If a sequence of statements can be laid out and finalized, the words
/// of the program are the words that the encoder gives for the
/// instructions among the statements, each resolved as
/// [`resolved_instructions`] says, in the order of the statements, and
/// nothing else.
pub proof fn lemma_program_words(stmts: Seq<StatementView>)
    requires
        LayoutView::empty().handle_all(stmts) is Ok,
        LayoutView::empty().handle_all(stmts)->Ok_0.finalize() is Ok,
    ensures
        LayoutView::empty().handle_all(stmts)->Ok_0.finalize()->Ok_0.code == words_of(
            resolved_instructions(
                stmts,
                LayoutView::empty().handle_all(stmts)->Ok_0.finalize()->Ok_0.symbols,
            ),
        ),
        resolved_instructions(
            stmts,
            LayoutView::empty().handle_all(stmts)->Ok_0.finalize()->Ok_0.symbols,
        ).len() == instructions(stmts).len(),
        forall|k: int|
            0 <= k < instructions(stmts).len() ==> encode(
                #[trigger] resolved_instructions(
                    stmts,
                    LayoutView::empty().handle_all(stmts)->Ok_0.finalize()->Ok_0.symbols,
                )[k],
            ) is Ok,
{
    let l = LayoutView::empty().handle_all(stmts)->Ok_0;
    let table = l.finalize()->Ok_0.symbols;
    lemma_layout_emits(stmts, table);
    lemma_layout_holds_statements(stmts, table);
}

/// The layout after the first `m` statements.
pub open spec fn state_at(stmts: Seq<StatementView>, m: int) -> LayoutView {
    LayoutView::empty().handle_all(stmts.take(m))->Ok_0
}

/// If a sequence of statements can be laid out, so can each of its
/// beginnings, and each statement takes the layout of the statements
/// before it to the next.
proof fn lemma_prefixes(stmts: Seq<StatementView>, m: int)
    requires
        LayoutView::empty().handle_all(stmts) is Ok,
        0 <= m <= stmts.len(),
    ensures
        LayoutView::empty().handle_all(stmts.take(m)) is Ok,
        m < stmts.len() ==> state_at(stmts, m).handle(stmts[m]) == Ok::<
            LayoutView,
            crate::assembly::layout::LayoutErrorView,
        >(state_at(stmts, m + 1)),
    decreases stmts.len() - m,
{
    if m == stmts.len() {
        assert(stmts.take(m) =~= stmts);
    } else {
        lemma_prefixes(stmts, m + 1);
        assert(stmts.take(m + 1).drop_last() =~= stmts.take(m));
        assert(stmts.take(m + 1).last() == stmts[m]);
    }
}

/// Looking a name up in a table with one more entry at its end.
proof fn lemma_lookup_push(symbols: Symbols, name: Seq<char>, p: nat, other: Seq<char>)
    ensures
        lookup(symbols.push((name, p)), other) == (if lookup(symbols, other) is Some {
            lookup(symbols, other)
        } else if other == name {
            Some(p)
        } else {
            None
        }),
    decreases symbols.len(),
{
    let pushed = symbols.push((name, p));
    assert(pushed.len() == symbols.len() + 1);
    if symbols.len() == 0 {
        assert(pushed[0] == (name, p));
        assert(pushed.skip(1) =~= Seq::<(Seq<char>, nat)>::empty());
        assert(lookup(pushed.skip(1), other) is None);
        assert(lookup(symbols, other) is None);
        assert(lookup(pushed, other) == (if other == name {
            Some(p)
        } else {
            None
        }));
    } else {
        assert(pushed[0] == symbols[0]);
        assert(pushed.skip(1) =~= symbols.skip(1).push((name, p)));
        lemma_lookup_push(symbols.skip(1), name, p, other);
        if symbols[0].0 == other {
            assert(lookup(pushed, other) == Some(symbols[0].1));
            assert(lookup(symbols, other) == Some(symbols[0].1));
        } else {
            assert(lookup(pushed, other) == lookup(pushed.skip(1), other));
            assert(lookup(symbols, other) == lookup(symbols.skip(1), other));
        }
    }
}

/// Entering the symbols of a block into a table keeps what the table held.
proof fn lemma_enter_keeps(table: Symbols, symbols: Symbols, base: nat, name: Seq<char>)
    requires
        enter_symbols(table, symbols, base) is Ok,
        lookup(table, name) is Some,
    ensures
        lookup(enter_symbols(table, symbols, base)->Ok_0, name) == lookup(table, name),
    decreases symbols.len(),
{
    if symbols.len() > 0 {
        lemma_lookup_push(table, symbols[0].0, symbols[0].1 + base, name);
        lemma_enter_keeps(
            table.push((symbols[0].0, symbols[0].1 + base)),
            symbols.skip(1),
            base,
            name,
        );
    }
}

/// Entering the symbols of a block into a table that lacks `name` gives
/// the name the position that it has in the block, moved up by the base.
proof fn lemma_enter_adds(table: Symbols, symbols: Symbols, base: nat, name: Seq<char>)
    requires
        enter_symbols(table, symbols, base) is Ok,
        lookup(table, name) is None,
        lookup(symbols, name) is Some,
    ensures
        lookup(enter_symbols(table, symbols, base)->Ok_0, name) == Some(
            lookup(symbols, name)->Some_0 + base,
        ),
    decreases symbols.len(),
{
    if symbols.len() > 0 {
        let next = table.push((symbols[0].0, symbols[0].1 + base));
        lemma_lookup_push(table, symbols[0].0, symbols[0].1 + base, name);
        if symbols[0].0 == name {
            lemma_enter_keeps(next, symbols.skip(1), base, name);
        } else {
            lemma_enter_adds(next, symbols.skip(1), base, name);
        }
    }
}

/// In the table of all symbols, a label of the first block has the
/// position that it has in that block.
proof fn lemma_first_block_symbols(items: Seq<ItemView>, name: Seq<char>)
    requires
        items.len() >= 1,
        items[0] is Block,
        lookup(items[0]->Block_0.symbols, name) is Some,
        global_symbols(items) is Ok,
    ensures
        lookup(global_symbols(items)->Ok_0, name) == lookup(items[0]->Block_0.symbols, name),
    decreases items.len(),
{
    let front = items.drop_last();
    let table = global_symbols(front)->Ok_0;
    assert(items.last() == items[items.len() - 1]);
    if items.len() == 1 {
        assert(front =~= Seq::<ItemView>::empty());
        let b = items[0]->Block_0;
        assert(block_words(front) == 0);
        lemma_enter_adds(Seq::empty(), b.symbols, 0, name);
    } else {
        assert(front[0] == items[0]);
        lemma_first_block_symbols(front, name);
        match items.last() {
            ItemView::Block(b) => {
                lemma_enter_keeps(table, b.symbols, block_words(front), name);
            },
            ItemView::Deferred(_) => {},
        }
    }
}

/// The words of a program begin with the words of each beginning of its
/// items.
proof fn lemma_emit_prefix(items: Seq<ItemView>, table: Symbols, m: int)
    requires
        emit(items, table) is Ok,
        0 <= m <= items.len(),
    ensures
        emit(items.take(m), table) is Ok,
        emit(items.take(m), table)->Ok_0.len() <= emit(items, table)->Ok_0.len(),
        emit(items, table)->Ok_0.subrange(0, emit(items.take(m), table)->Ok_0.len() as int)
            == emit(items.take(m), table)->Ok_0,
    decreases items.len() - m,
{
    let all = emit(items, table)->Ok_0;
    if m == items.len() {
        assert(items.take(m) =~= items);
        assert(all.subrange(0, all.len() as int) =~= all);
    } else {
        lemma_emit_prefix(items, table, m + 1);
        assert(items.take(m + 1).drop_last() =~= items.take(m));
        let longer = emit(items.take(m + 1), table)->Ok_0;
        let shorter = emit(items.take(m), table)->Ok_0;
        assert(longer.subrange(0, shorter.len() as int) =~= shorter);
        assert(all.subrange(0, shorter.len() as int) =~= longer.subrange(0, shorter.len() as int));
    }
}

/// The first block of a layout: the first item, or the current block
/// while there is no item.
pub open spec fn first_block(l: LayoutView) -> BlockView {
    if l.items.len() == 0 {
        l.curr
    } else {
        match l.items[0] {
            ItemView::Block(b) => b,
            ItemView::Deferred(_) => BlockView::empty(),
        }
    }
}

/// True if the first block of `l` has the label `name` at `p` and the
/// words `w` from `p` on.
spec fn placed(l: LayoutView, name: Seq<char>, p: nat, w: Seq<u16>) -> bool {
    &&& l.items.len() > 0 ==> l.items[0] is Block
    &&& lookup(first_block(l).symbols, name) == Some(p)
    &&& p + w.len() <= first_block(l).code.len()
    &&& first_block(l).code.subrange(p as int, (p + w.len()) as int) == w
}

/// True if the first block of `l` is sealed, has the label `name` at its
/// end `p`, and is followed by the deferred instruction `op`.
spec fn waiting(l: LayoutView, name: Seq<char>, p: nat, op: OpcodeView) -> bool {
    &&& l.items.len() >= 2
    &&& l.items[0] is Block
    &&& lookup(l.items[0]->Block_0.symbols, name) == Some(p)
    &&& l.items[0]->Block_0.code.len() == p
    &&& l.items[1] == ItemView::Deferred(op)
}

/// One more statement leaves what is placed in the first block in its
/// place.
proof fn lemma_placed_step(
    l: LayoutView,
    stmt: StatementView,
    name: Seq<char>,
    p: nat,
    w: Seq<u16>,
)
    requires
        placed(l, name, p, w),
        l.handle(stmt) is Ok,
    ensures
        placed(l.handle(stmt)->Ok_0, name, p, w),
{
    let next = l.handle(stmt)->Ok_0;
    if l.items.len() > 0 {
        assert(next.items[0] == l.items[0]);
    } else {
        match stmt {
            StatementView::LabelDef(s) => {
                lemma_lookup_push(l.curr.symbols, s, l.curr.code.len(), name);
            },
            StatementView::Instruction(op) => {
                let (b, progress) = l.curr.handle(op)->Ok_0;
                match progress {
                    LayoutProgress::Continue => {
                        assert(b.code.subrange(p as int, (p + w.len()) as int) =~= l.curr.code.subrange(
                            p as int,
                            (p + w.len()) as int,
                        ));
                    },
                    LayoutProgress::Deferred => {
                        assert(next.items[0] == ItemView::Block(l.curr));
                    },
                }
            },
        }
    }
}

/// One more statement leaves a sealed first block and the deferred
/// instruction after it as they are.
proof fn lemma_waiting_step(
    l: LayoutView,
    stmt: StatementView,
    name: Seq<char>,
    p: nat,
    op: OpcodeView,
)
    requires
        waiting(l, name, p, op),
        l.handle(stmt) is Ok,
    ensures
        waiting(l.handle(stmt)->Ok_0, name, p, op),
{
    let next = l.handle(stmt)->Ok_0;
    assert(next.items[0] == l.items[0]);
    assert(next.items[1] == l.items[1]);
}

/// What is placed after `m` statements is placed after all.
proof fn lemma_placed_to_the_end(
    stmts: Seq<StatementView>,
    m: int,
    name: Seq<char>,
    p: nat,
    w: Seq<u16>,
)
    requires
        LayoutView::empty().handle_all(stmts) is Ok,
        0 <= m <= stmts.len(),
        placed(state_at(stmts, m), name, p, w),
    ensures
        placed(LayoutView::empty().handle_all(stmts)->Ok_0, name, p, w),
    decreases stmts.len() - m,
{
    if m == stmts.len() {
        assert(stmts.take(m) =~= stmts);
    } else {
        lemma_prefixes(stmts, m);
        lemma_placed_step(state_at(stmts, m), stmts[m], name, p, w);
        lemma_placed_to_the_end(stmts, m + 1, name, p, w);
    }
}

/// What waits after `m` statements waits after all.
proof fn lemma_waiting_to_the_end(
    stmts: Seq<StatementView>,
    m: int,
    name: Seq<char>,
    p: nat,
    op: OpcodeView,
)
    requires
        LayoutView::empty().handle_all(stmts) is Ok,
        0 <= m <= stmts.len(),
        waiting(state_at(stmts, m), name, p, op),
    ensures
        waiting(LayoutView::empty().handle_all(stmts)->Ok_0, name, p, op),
    decreases stmts.len() - m,
{
    if m == stmts.len() {
        assert(stmts.take(m) =~= stmts);
    } else {
        lemma_prefixes(stmts, m);
        lemma_waiting_step(state_at(stmts, m), stmts[m], name, p, op);
        lemma_waiting_to_the_end(stmts, m + 1, name, p, op);
    }
}

/// Between a label and the next instruction, where only labels are
/// defined, the layout has no item, its code does not grow, and the label
/// keeps its position at the end of the code.
proof fn lemma_labels_only(stmts: Seq<StatementView>, i: int, k: int)
    requires
        LayoutView::empty().handle_all(stmts) is Ok,
        0 <= i < k <= stmts.len(),
        stmts[i] is LabelDef,
        forall|m: int| i < m < k ==> (#[trigger] stmts[m]) is LabelDef,
        LayoutView::empty().handle_all(stmts.take(i)) is Ok,
        state_at(stmts, i).items.len() == 0,
    ensures
        LayoutView::empty().handle_all(stmts.take(k)) is Ok,
        state_at(stmts, k).items.len() == 0,
        state_at(stmts, k).curr.code == state_at(stmts, i).curr.code,
        lookup(state_at(stmts, k).curr.symbols, stmts[i]->LabelDef_0) == Some(
            state_at(stmts, i).curr.code.len(),
        ),
    decreases k - i,
{
    let name = stmts[i]->LabelDef_0;
    lemma_prefixes(stmts, k - 1);
    lemma_prefixes(stmts, k);
    let before = state_at(stmts, k - 1);
    if k - 1 == i {
        lemma_lookup_push(before.curr.symbols, name, before.curr.code.len(), name);
    } else {
        lemma_labels_only(stmts, i, k - 1);
        lemma_lookup_push(
            before.curr.symbols,
            stmts[k - 1]->LabelDef_0,
            before.curr.code.len(),
            name,
        );
    }
}

/// A label in the first block points at the statement that follows it.
///
/// Let statement `i` define a label, let statement `j` be the first
/// instruction after it, and let no instruction before the label have been
/// deferred, so that the label lies in the first block. If the statements
/// can be laid out and finalized, then the table of all symbols has the
/// label, its position lies within the program, and the instruction that
/// starts at that position is the instruction of statement `j` with its
/// labels replaced by numbers.
pub proof fn lemma_label_position(stmts: Seq<StatementView>, i: int, j: int)
    requires
        0 <= i < j < stmts.len(),
        stmts[i] is LabelDef,
        stmts[j] is Instruction,
        forall|m: int| i < m < j ==> (#[trigger] stmts[m]) is LabelDef,
        LayoutView::empty().handle_all(stmts) is Ok,
        LayoutView::empty().handle_all(stmts)->Ok_0.finalize() is Ok,
        state_at(stmts, i).items.len() == 0,
    ensures
        ({
            let program = LayoutView::empty().handle_all(stmts)->Ok_0.finalize()->Ok_0;
            let found = lookup(program.symbols, stmts[i]->LabelDef_0);
            let p = found->Some_0 as int;
            let here = decode(
                program.code[p],
                word_at(program.code, p + 1),
                word_at(program.code, p + 2),
            );
            &&& found is Some
            &&& p < program.code.len()
            &&& here is Ok
            &&& substituted(stmts[j]->Instruction_0, here->Ok_0.0)
        }),
{
    let name = stmts[i]->LabelDef_0;
    let op = stmts[j]->Instruction_0;
    let last = LayoutView::empty().handle_all(stmts)->Ok_0;
    let program = last.finalize()->Ok_0;
    let table = program.symbols;
    let items = last.sealed();
    lemma_prefixes(stmts, i);
    lemma_labels_only(stmts, i, j);
    lemma_prefixes(stmts, j);
    lemma_prefixes(stmts, j + 1);
    let at = state_at(stmts, j);
    let after = state_at(stmts, j + 1);
    let p = at.curr.code.len();
    let (b, progress) = at.curr.handle(op)->Ok_0;
    assert(items[0] == (if last.items.len() == 0 {
        ItemView::Block(last.curr)
    } else {
        last.items[0]
    }));
    match progress {
        LayoutProgress::Continue => {
            let r = resolve(at.curr.symbols, op);
            let w = encode(r)->Ok_0;
            lemma_encode_decode(r, Seq::empty());
            assert(b.code.subrange(p as int, (p + w.len()) as int) =~= w);
            assert(placed(after, name, p, w));
            lemma_placed_to_the_end(stmts, j + 1, name, p, w);
            lemma_first_block_symbols(items, name);
            lemma_emit_prefix(items, table, 1);
            assert(items.take(1).drop_last() =~= Seq::<ItemView>::empty());
            assert(items.take(1).last() == items[0]);
            let head = emit(items.take(1), table)->Ok_0;
            assert(emit(Seq::<ItemView>::empty(), table)->Ok_0 + first_block(last).code
                =~= first_block(last).code);
            assert(head == first_block(last).code);
            assert(program.code.subrange(p as int, (p + w.len()) as int) =~= head.subrange(
                p as int,
                (p + w.len()) as int,
            ));
            lemma_resolve_substituted(at.curr.symbols, op);
            lemma_decode_at(program.code, p as int, r);
        },
        LayoutProgress::Deferred => {
            assert(after.items[0] == ItemView::Block(at.curr));
            assert(after.items[1] == ItemView::Deferred(op));
            assert(waiting(after, name, p, op));
            lemma_waiting_to_the_end(stmts, j + 1, name, p, op);
            let r = resolve(table, op);
            assert(items[1] == last.items[1]);
            lemma_first_block_symbols(items, name);
            lemma_emit_prefix(items, table, 2);
            lemma_emit_prefix(items, table, 1);
            assert(items.take(2).drop_last() =~= items.take(1));
            assert(items.take(2).last() == items[1]);
            assert(items.take(1).drop_last() =~= Seq::<ItemView>::empty());
            assert(items.take(1).last() == items[0]);
            let block = last.items[0]->Block_0;
            assert(emit(Seq::<ItemView>::empty(), table)->Ok_0 + block.code =~= block.code);
            let w = emit_deferred(table, op)->Ok_0;
            let head = emit(items.take(2), table)->Ok_0;
            assert(head == block.code + w);
            lemma_encode_decode(r, Seq::empty());
            assert(program.code.subrange(p as int, (p + w.len()) as int) =~= head.subrange(
                p as int,
                (p + w.len()) as int,
            ));
            assert(head.subrange(p as int, (p + w.len()) as int) =~= w);
            lemma_resolve_substituted(table, op);
            lemma_decode_at(program.code, p as int, r);
        },
    }
}

/// Where the words of an instruction stand in a stream, the instruction
/// is decoded.
proof fn lemma_decode_at(code: Seq<u16>, p: int, r: OpcodeView)
    requires
        encode(r) is Ok,
        0 <= p,
        p + encode(r)->Ok_0.len() <= code.len(),
        code.subrange(p, p + encode(r)->Ok_0.len()) == encode(r)->Ok_0,
    ensures
        p < code.len(),
        decode(code[p], word_at(code, p + 1), word_at(code, p + 2)) == Ok::<
            (OpcodeView, nat),
            DcpuErrorKind,
        >((r, (encode(r)->Ok_0.len() - 1) as nat)),
{
    let w = encode(r)->Ok_0;
    let rest = code.skip((p + w.len()) as int);
    let tail = w + rest;
    lemma_encode_decode(r, rest);
    assert(tail =~= code.skip(p));
    assert(tail[0] == code[p]);
    assert(word_at(tail, 1) == word_at(code, p + 1));
    assert(word_at(tail, 2) == word_at(code, p + 2));
}

} // verus!
