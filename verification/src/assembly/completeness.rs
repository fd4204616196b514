//! When a program can be assembled: a layout can be finalized if no label
//! is defined twice and every deferred instruction uses defined labels
//! only and has `PUSH` and `POP` in their places.

use crate::assembly::assemble::encode;
use crate::assembly::layout::{
    block_words, emit, emit_deferred, enter_symbols, global_symbols, lookup, missing_in, resolve,
    BlockView, ItemView, LayoutProgress, LayoutView, Symbols,
};
use crate::opcodes::{OpcodeView, OperandView};
use crate::parser::StatementView;
use vstd::prelude::*;

verus! {

/// The names of a table, in its order.
pub open spec fn names(symbols: Symbols) -> Seq<Seq<char>> {
    symbols.map_values(|e: (Seq<char>, nat)| e.0)
}

/// True if no name occurs twice in a sequence of names.
pub open spec fn all_distinct(ns: Seq<Seq<char>>) -> bool {
    forall|i: int, j: int| 0 <= i < j < ns.len() ==> #[trigger] ns[i] != #[trigger] ns[j]
}

/// The labels that the blocks of a list of items define, in their order.
pub open spec fn defined_names(items: Seq<ItemView>) -> Seq<Seq<char>>
    decreases items.len(),
{
    if items.len() == 0 {
        Seq::empty()
    } else {
        defined_names(items.drop_last()) + (match items.last() {
            ItemView::Block(b) => names(b.symbols),
            ItemView::Deferred(_) => Seq::empty(),
        })
    }
}

/// True if every label of an operand is among the names `ns`.
pub open spec fn operand_known(o: OperandView, ns: Seq<Seq<char>>) -> bool {
    match o {
        OperandView::Label(s) => ns.contains(s),
        OperandView::LabelDeref(s) => ns.contains(s),
        OperandView::LabelPlusDeref(s, _) => ns.contains(s),
        OperandView::RegisterPlusLabelDeref(_, s) => ns.contains(s),
        OperandView::LabelPlusLabelDeref(s, t) => ns.contains(s) && ns.contains(t),
        _ => true,
    }
}

/// True if every label of an instruction is among the names `ns`.
pub open spec fn labels_known(op: OpcodeView, ns: Seq<Seq<char>>) -> bool {
    operand_known(op.a(), ns) && (match op.b() {
        Some(b) => operand_known(b, ns),
        None => true,
    })
}

/// True if `PUSH` is not operand `a` and `POP` is not operand `b`.
pub open spec fn stack_operands_in_place(op: OpcodeView) -> bool {
    !(op.a() is Push) && op.b() != Some(OperandView::Pop)
}

/// A name that a table has at some index is found.
proof fn lemma_lookup_at(symbols: Symbols, i: int, name: Seq<char>)
    requires
        0 <= i < symbols.len(),
        symbols[i].0 == name,
    ensures
        lookup(symbols, name) is Some,
    decreases i,
{
    if symbols[0].0 != name {
        assert(symbols.skip(1)[i - 1] == symbols[i]);
        lemma_lookup_at(symbols.skip(1), i - 1, name);
    }
}

/// A name among the names of a table is found.
proof fn lemma_lookup_known(symbols: Symbols, name: Seq<char>)
    requires
        names(symbols).contains(name),
    ensures
        lookup(symbols, name) is Some,
{
    let i = choose|i: int| 0 <= i < names(symbols).len() && names(symbols)[i] == name;
    lemma_lookup_at(symbols, i, name);
}

/// A name that no entry of a table has is not found.
proof fn lemma_lookup_absent(symbols: Symbols, name: Seq<char>)
    requires
        forall|i: int| 0 <= i < symbols.len() ==> (#[trigger] symbols[i]).0 != name,
    ensures
        lookup(symbols, name) is None,
    decreases symbols.len(),
{
    if symbols.len() > 0 {
        assert(symbols[0].0 != name);
        assert forall|i: int| 0 <= i < symbols.skip(1).len() implies (#[trigger] symbols.skip(
            1,
        )[i]).0 != name by {
            assert(symbols.skip(1)[i] == symbols[i + 1]);
        }
        lemma_lookup_absent(symbols.skip(1), name);
    }
}

/// An instruction whose labels a table knows, and whose `PUSH` and `POP`
/// are in their places, is resolved and encoded without an error.
pub proof fn lemma_known_resolves(table: Symbols, op: OpcodeView)
    requires
        labels_known(op, names(table)),
        stack_operands_in_place(op),
    ensures
        missing_in(table, op) is None,
        encode(resolve(table, op)) is Ok,
        emit_deferred(table, op) is Ok,
{
    lemma_operand_known(table, op.a());
    match op.b() {
        Some(b) => {
            lemma_operand_known(table, b);
        },
        None => {},
    }
    lemma_resolved_encodes(table, op);
}

/// An instruction of which no label is missing, and whose `PUSH` and
/// `POP` are in their places, has an encoding once it is resolved.
pub proof fn lemma_resolved_encodes(table: Symbols, op: OpcodeView)
    requires
        missing_in(table, op) is None,
        stack_operands_in_place(op),
    ensures
        encode(resolve(table, op)) is Ok,
{
}

/// An operand whose labels a table knows has no missing label.
proof fn lemma_operand_known(table: Symbols, o: OperandView)
    requires
        operand_known(o, names(table)),
    ensures
        crate::assembly::layout::missing_label(table, o) is None,
{
    match o {
        OperandView::Label(s) => {
            lemma_lookup_known(table, s);
        },
        OperandView::LabelDeref(s) => {
            lemma_lookup_known(table, s);
        },
        OperandView::LabelPlusDeref(s, _) => {
            lemma_lookup_known(table, s);
        },
        OperandView::RegisterPlusLabelDeref(_, s) => {
            lemma_lookup_known(table, s);
        },
        OperandView::LabelPlusLabelDeref(s, t) => {
            lemma_lookup_known(table, s);
            lemma_lookup_known(table, t);
        },
        _ => {},
    }
}

/// Symbols whose names are new to a table, and differ among themselves,
/// are entered without an error, one after the other.
proof fn lemma_enter_fresh(table: Symbols, symbols: Symbols, base: nat)
    requires
        all_distinct(names(table) + names(symbols)),
    ensures
        enter_symbols(table, symbols, base) is Ok,
        names(enter_symbols(table, symbols, base)->Ok_0) == names(table) + names(symbols),
    decreases symbols.len(),
{
    let all = names(table) + names(symbols);
    if symbols.len() == 0 {
        assert(names(table) + names(symbols) =~= names(table));
    } else {
        let name = symbols[0].0;
        assert(all[table.len() as int] == name);
        assert forall|i: int| 0 <= i < table.len() implies (#[trigger] table[i]).0 != name by {
            assert(all[i] == table[i].0);
        }
        lemma_lookup_absent(table, name);
        let next = table.push((name, symbols[0].1 + base));
        assert(names(next) + names(symbols.skip(1)) =~= all);
        lemma_enter_fresh(next, symbols.skip(1), base);
    }
}

/// A beginning of a sequence of different names has different names.
proof fn lemma_distinct_prefix(front: Seq<Seq<char>>, rest: Seq<Seq<char>>)
    requires
        all_distinct(front + rest),
    ensures
        all_distinct(front),
{
    let all = front + rest;
    assert forall|i: int, j: int| 0 <= i < j < front.len() implies #[trigger] front[i]
        != #[trigger] front[j] by {
        assert(all[i] == front[i]);
        assert(all[j] == front[j]);
    }
}

/// If no label is defined twice, the table of all symbols can be built,
/// and it holds the labels in the order of their definition.
pub proof fn lemma_global_fresh(items: Seq<ItemView>)
    requires
        all_distinct(defined_names(items)),
    ensures
        global_symbols(items) is Ok,
        names(global_symbols(items)->Ok_0) == defined_names(items),
    decreases items.len(),
{
    if items.len() == 0 {
        assert(names(Seq::<(Seq<char>, nat)>::empty()) =~= Seq::<Seq<char>>::empty());
    } else {
        let front = items.drop_last();
        match items.last() {
            ItemView::Block(b) => {
                lemma_distinct_prefix(defined_names(front), names(b.symbols));
                lemma_global_fresh(front);
                lemma_enter_fresh(global_symbols(front)->Ok_0, b.symbols, block_words(front));
            },
            ItemView::Deferred(_) => {
                assert(defined_names(front) + Seq::<Seq<char>>::empty() =~= defined_names(front));
                lemma_global_fresh(front);
            },
        }
    }
}

/// If every deferred instruction can be resolved and encoded, the program
/// can be written.
proof fn lemma_emit_succeeds(items: Seq<ItemView>, table: Symbols)
    requires
        forall|k: int|
            0 <= k < items.len() ==> (match #[trigger] items[k] {
                ItemView::Deferred(op) => emit_deferred(table, op) is Ok,
                ItemView::Block(_) => true,
            }),
    ensures
        emit(items, table) is Ok,
    decreases items.len(),
{
    if items.len() > 0 {
        let front = items.drop_last();
        assert forall|k: int| 0 <= k < front.len() implies (match #[trigger] front[k] {
            ItemView::Deferred(op) => emit_deferred(table, op) is Ok,
            ItemView::Block(_) => true,
        }) by {
            assert(front[k] == items[k]);
        }
        lemma_emit_succeeds(front, table);
        assert(items.last() == items[items.len() - 1]);
    }
}

/// A layout can be finalized if no label is defined twice and every
/// deferred instruction uses defined labels only and has `PUSH` and `POP`
/// in their places.
pub proof fn lemma_finalize_succeeds(l: LayoutView)
    requires
        all_distinct(defined_names(l.sealed())),
        forall|k: int|
            0 <= k < l.items.len() ==> (match #[trigger] l.items[k] {
                ItemView::Deferred(op) => labels_known(op, defined_names(l.sealed()))
                    && stack_operands_in_place(op),
                ItemView::Block(_) => true,
            }),
    ensures
        l.finalize() is Ok,
{
    let items = l.sealed();
    lemma_global_fresh(items);
    let table = global_symbols(items)->Ok_0;
    assert forall|k: int| 0 <= k < items.len() implies (match #[trigger] items[k] {
        ItemView::Deferred(op) => emit_deferred(table, op) is Ok,
        ItemView::Block(_) => true,
    }) by {
        if k < l.items.len() {
            assert(items[k] == l.items[k]);
            match l.items[k] {
                ItemView::Deferred(op) => {
                    lemma_known_resolves(table, op);
                },
                ItemView::Block(_) => {},
            }
        }
    }
    lemma_emit_succeeds(items, table);
}

/// The labels that a sequence of statements defines, in their order.
pub open spec fn label_names(stmts: Seq<StatementView>) -> Seq<Seq<char>>
    decreases stmts.len(),
{
    if stmts.len() == 0 {
        Seq::empty()
    } else {
        match stmts.last() {
            StatementView::LabelDef(s) => label_names(stmts.drop_last()).push(s),
            StatementView::Instruction(_) => label_names(stmts.drop_last()),
        }
    }
}

/// True if every instruction among the statements uses names of `ns`
/// only and has `PUSH` and `POP` in their places.
pub open spec fn instructions_fit(stmts: Seq<StatementView>, ns: Seq<Seq<char>>) -> bool {
    forall|k: int|
        0 <= k < stmts.len() ==> (match #[trigger] stmts[k] {
            StatementView::Instruction(op) => labels_known(op, ns) && stack_operands_in_place(op),
            StatementView::LabelDef(_) => true,
        })
}

/// True if every deferred instruction among the items uses names of `ns`
/// only and has `PUSH` and `POP` in their places.
pub open spec fn deferred_fit(items: Seq<ItemView>, ns: Seq<Seq<char>>) -> bool {
    forall|k: int|
        0 <= k < items.len() ==> (match #[trigger] items[k] {
            ItemView::Deferred(op) => labels_known(op, ns) && stack_operands_in_place(op),
            ItemView::Block(_) => true,
        })
}

/// The labels of a list of items that ends with a block.
proof fn lemma_defined_block(items: Seq<ItemView>, b: BlockView)
    ensures
        defined_names(items.push(ItemView::Block(b))) == defined_names(items) + names(b.symbols),
{
    assert(items.push(ItemView::Block(b)).drop_last() =~= items);
}

/// The labels of a list of items that ends with a deferred instruction.
proof fn lemma_defined_waiting(items: Seq<ItemView>, op: OpcodeView)
    ensures
        defined_names(items.push(ItemView::Deferred(op))) == defined_names(items),
{
    assert(items.push(ItemView::Deferred(op)).drop_last() =~= items);
    assert(defined_names(items) + Seq::<Seq<char>>::empty() =~= defined_names(items));
}

/// Pass 1 accepts statements whose labels differ and whose instructions
/// have `PUSH` and `POP` in their places; the layout then defines the
/// labels of the statements in their order, and what it defers are
/// instructions of the statements.
proof fn lemma_pass_one_succeeds(stmts: Seq<StatementView>, ns: Seq<Seq<char>>)
    requires
        all_distinct(label_names(stmts)),
        instructions_fit(stmts, ns),
    ensures
        LayoutView::empty().handle_all(stmts) is Ok,
        defined_names(LayoutView::empty().handle_all(stmts)->Ok_0.sealed()) == label_names(stmts),
        deferred_fit(LayoutView::empty().handle_all(stmts)->Ok_0.items, ns),
    decreases stmts.len(),
{
    if stmts.len() == 0 {
        let l = LayoutView::empty();
        lemma_defined_block(l.items, l.curr);
        assert(l.items =~= Seq::<ItemView>::empty());
        assert(names(l.curr.symbols) =~= Seq::<Seq<char>>::empty());
        assert(defined_names(l.sealed()) =~= Seq::<Seq<char>>::empty());
    } else {
        let before = stmts.drop_last();
        assert(stmts.last() == stmts[stmts.len() - 1]);
        assert forall|k: int| 0 <= k < before.len() implies (match #[trigger] before[k] {
            StatementView::Instruction(op) => labels_known(op, ns) && stack_operands_in_place(op),
            StatementView::LabelDef(_) => true,
        }) by {
            assert(before[k] == stmts[k]);
        }
        match stmts.last() {
            StatementView::LabelDef(s) => {
                assert(label_names(stmts) == label_names(before).push(s));
                assert(label_names(before) + seq![s] =~= label_names(before).push(s));
                lemma_distinct_prefix(label_names(before), seq![s]);
            },
            StatementView::Instruction(_) => {},
        }
        lemma_pass_one_succeeds(before, ns);
        let l0 = LayoutView::empty().handle_all(before)->Ok_0;
        lemma_defined_block(l0.items, l0.curr);
        let done = defined_names(l0.items);
        match stmts.last() {
            StatementView::LabelDef(s) => {
                let all = label_names(stmts);
                assert(all =~= label_names(before).push(s));
                assert forall|i: int| 0 <= i < l0.curr.symbols.len() implies (
                #[trigger] l0.curr.symbols[i]).0 != s by {
                    let at = done.len() + i;
                    assert(label_names(before)[at] == names(l0.curr.symbols)[i]);
                    assert(all[at] == label_names(before)[at]);
                    assert(all[all.len() - 1] == s);
                }
                lemma_lookup_absent(l0.curr.symbols, s);
                let l = l0.handle(stmts.last())->Ok_0;
                lemma_defined_block(l.items, l.curr);
                assert(names(l.curr.symbols) =~= names(l0.curr.symbols).push(s));
                assert(done + names(l0.curr.symbols).push(s) =~= (done + names(
                    l0.curr.symbols,
                )).push(s));
            },
            StatementView::Instruction(op) => {
                if missing_in(l0.curr.symbols, op) is Some {
                    let i1 = l0.sealed();
                    let i2 = i1.push(ItemView::Deferred(op));
                    let l = l0.handle(stmts.last())->Ok_0;
                    assert(l.items == i2);
                    lemma_defined_waiting(i1, op);
                    lemma_defined_block(i2, BlockView::empty());
                    assert(names(BlockView::empty().symbols) =~= Seq::<Seq<char>>::empty());
                    assert(defined_names(i2) + Seq::<Seq<char>>::empty() =~= defined_names(i2));
                    assert forall|k: int| 0 <= k < i2.len() implies (match #[trigger] i2[k] {
                        ItemView::Deferred(o) => labels_known(o, ns) && stack_operands_in_place(o),
                        ItemView::Block(_) => true,
                    }) by {
                        if k < l0.items.len() {
                            assert(i2[k] == l0.items[k]);
                        }
                    }
                } else {
                    lemma_resolved_encodes(l0.curr.symbols, op);
                    let l = l0.handle(stmts.last())->Ok_0;
                    lemma_defined_block(l.items, l.curr);
                }
            },
        }
    }
}

/// A program can be assembled if every label is defined once and used
/// only where it is defined somewhere.
///
/// If no two label definitions among the statements have the same name,
/// every label that an instruction uses is defined by one of the
/// statements, and no instruction has `PUSH` as operand `a` or `POP` as
/// operand `b`, then every statement is accepted and the layout can be
/// finalized.
pub proof fn lemma_program_assembles(stmts: Seq<StatementView>)
    requires
        all_distinct(label_names(stmts)),
        instructions_fit(stmts, label_names(stmts)),
    ensures
        LayoutView::empty().handle_all(stmts) is Ok,
        LayoutView::empty().handle_all(stmts)->Ok_0.finalize() is Ok,
{
    lemma_pass_one_succeeds(stmts, label_names(stmts));
    lemma_finalize_succeeds(LayoutView::empty().handle_all(stmts)->Ok_0);
}

} // verus!
