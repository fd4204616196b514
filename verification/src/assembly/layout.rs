//! The label resolver: lays statements out in blocks, defers the
//! instructions whose labels are not known yet, and resolves them when all
//! statements have been seen.

use crate::arithmetic::wrap16;
use crate::assembly::assemble::{encode, Assemble, AssemblyError, AssemblyErrorView};
use crate::opcodes::{Opcode, OpcodeView, Operand, OperandView};
use crate::parser::{statements_view, Statement, StatementView};
use vstd::prelude::*;

verus! {

/// Why a program could not be laid out.
#[derive(Debug, PartialEq)]
pub enum LayoutError {
    /// The label of this name is defined twice: at the first position now,
    /// at the second position before.
    RedefinedSymbol(String, usize, usize),
    /// An instruction has no encoding.
    AssemblyError(AssemblyError),
    /// The label of this name is used and nowhere defined.
    MissingSymbol(String),
}

/// The mathematical value of a [`LayoutError`].
pub enum LayoutErrorView {
    RedefinedSymbol(Seq<char>, nat, nat),
    AssemblyError(AssemblyErrorView),
    MissingSymbol(Seq<char>),
}

impl View for LayoutError {
    type V = LayoutErrorView;

    open spec fn view(&self) -> LayoutErrorView {
        match *self {
            LayoutError::RedefinedSymbol(s, p, q) => LayoutErrorView::RedefinedSymbol(
                s@,
                p as nat,
                q as nat,
            ),
            LayoutError::AssemblyError(e) => LayoutErrorView::AssemblyError(e@),
            LayoutError::MissingSymbol(s) => LayoutErrorView::MissingSymbol(s@),
        }
    }
}

/// What a block did with an instruction.
#[derive(Copy, Clone, Debug, PartialEq, Eq, Structural)]
pub enum LayoutProgress {
    /// The instruction was assembled into the block.
    Continue,
    /// A label of the instruction is unknown to the block.
    Deferred,
}

/// A symbol table: names with their positions, in the order of definition.
pub type Symbols = Seq<(Seq<char>, nat)>;

/// The position of the first entry for `name`.
pub open spec fn lookup(symbols: Symbols, name: Seq<char>) -> Option<nat>
    decreases symbols.len(),
{
    if symbols.len() == 0 {
        None
    } else if symbols[0].0 == name {
        Some(symbols[0].1)
    } else {
        lookup(symbols.skip(1), name)
    }
}

/// True if no name occurs twice in a table.
pub open spec fn distinct_names(symbols: Symbols) -> bool {
    forall|i: int, j: int|
        0 <= i < j < symbols.len() ==> (#[trigger] symbols[i]).0 != (#[trigger] symbols[j]).0
}

/// A name that is looked up in vain is the name of no entry.
pub proof fn lemma_lookup_none(symbols: Symbols, name: Seq<char>)
    requires
        lookup(symbols, name) is None,
    ensures
        forall|i: int| 0 <= i < symbols.len() ==> (#[trigger] symbols[i]).0 != name,
    decreases symbols.len(),
{
    if symbols.len() > 0 {
        lemma_lookup_none(symbols.skip(1), name);
        assert forall|i: int| 0 <= i < symbols.len() implies (#[trigger] symbols[i]).0
            != name by {
            if i > 0 {
                assert(symbols.skip(1)[i - 1] == symbols[i]);
            }
        }
    }
}

/// A table without a name twice stays so when a name that it lacks is
/// added.
pub proof fn lemma_push_distinct(symbols: Symbols, name: Seq<char>, p: nat)
    requires
        distinct_names(symbols),
        lookup(symbols, name) is None,
    ensures
        distinct_names(symbols.push((name, p))),
{
    lemma_lookup_none(symbols, name);
    let pushed = symbols.push((name, p));
    assert forall|i: int, j: int| 0 <= i < j < pushed.len() implies (#[trigger] pushed[i]).0 != (
    #[trigger] pushed[j]).0 by {
        assert(pushed[i] == symbols[i]);
        if j < symbols.len() {
            assert(pushed[j] == symbols[j]);
        } else {
            assert(pushed[j] == (name, p));
        }
    }
}

/// Entering the symbols of a block into a table without a name twice
/// gives such a table again.
pub proof fn lemma_enter_distinct(table: Symbols, symbols: Symbols, base: nat)
    requires
        distinct_names(table),
        enter_symbols(table, symbols, base) is Ok,
    ensures
        distinct_names(enter_symbols(table, symbols, base)->Ok_0),
    decreases symbols.len(),
{
    if symbols.len() > 0 {
        lemma_push_distinct(table, symbols[0].0, symbols[0].1 + base);
        lemma_enter_distinct(
            table.push((symbols[0].0, symbols[0].1 + base)),
            symbols.skip(1),
            base,
        );
    }
}

/// The table of all symbols has no name twice.
pub proof fn lemma_global_distinct(items: Seq<ItemView>)
    requires
        global_symbols(items) is Ok,
    ensures
        distinct_names(global_symbols(items)->Ok_0),
    decreases items.len(),
{
    if items.len() > 0 {
        lemma_global_distinct(items.drop_last());
        match items.last() {
            ItemView::Block(b) => {
                lemma_enter_distinct(
                    global_symbols(items.drop_last())->Ok_0,
                    b.symbols,
                    block_words(items.drop_last()),
                );
            },
            ItemView::Deferred(_) => {},
        }
    }
}

/// The first label of an operand that `symbols` does not hold, if any.
pub open spec fn missing_label(symbols: Symbols, op: OperandView) -> Option<Seq<char>> {
    match op {
        OperandView::Label(s) | OperandView::LabelDeref(s) | OperandView::LabelPlusDeref(s, _)
        | OperandView::RegisterPlusLabelDeref(_, s) => if lookup(symbols, s) is None {
            Some(s)
        } else {
            None
        },
        OperandView::LabelPlusLabelDeref(s, t) => if lookup(symbols, s) is None {
            Some(s)
        } else if lookup(symbols, t) is None {
            Some(t)
        } else {
            None
        },
        _ => None,
    }
}

/// The operand with each label replaced by its position modulo 65536: a
/// label becomes a literal, a label in brackets an address, and an offset
/// or a second label is added to it. An operand without a label stays as it
/// is. Meant for operands of which no label is missing.
pub open spec fn substitute(symbols: Symbols, op: OperandView) -> OperandView {
    match op {
        OperandView::Label(s) => OperandView::Literal(wrap16(lookup(symbols, s).unwrap() as int)),
        OperandView::LabelDeref(s) => OperandView::LiteralDeref(
            wrap16(lookup(symbols, s).unwrap() as int),
        ),
        OperandView::LabelPlusDeref(s, n) => OperandView::LiteralDeref(
            wrap16(lookup(symbols, s).unwrap() + n),
        ),
        OperandView::LabelPlusLabelDeref(s, t) => OperandView::LiteralDeref(
            wrap16((lookup(symbols, s).unwrap() + lookup(symbols, t).unwrap()) as int),
        ),
        OperandView::RegisterPlusLabelDeref(r, s) => OperandView::RegisterPlusDeref(
            r,
            wrap16(lookup(symbols, s).unwrap() as int),
        ),
        _ => op,
    }
}

/// The first label of an instruction that `symbols` does not hold, if any;
/// operand `a` comes before operand `b`.
pub open spec fn missing_in(symbols: Symbols, op: OpcodeView) -> Option<Seq<char>> {
    match missing_label(symbols, op.a()) {
        Some(s) => Some(s),
        None => match op.b() {
            Some(b) => missing_label(symbols, b),
            None => None,
        },
    }
}

/// The instruction with the labels of both operands replaced.
pub open spec fn resolve(symbols: Symbols, op: OpcodeView) -> OpcodeView {
    op.with_operands(
        match op.b() {
            Some(b) => Some(substitute(symbols, b)),
            None => None,
        },
        substitute(symbols, op.a()),
    )
}

/// The mathematical value of a [`Block`]: assembled words, and the labels
/// defined in the block with their offsets from its start.
pub struct BlockView {
    pub code: Seq<u16>,
    pub symbols: Symbols,
}

impl BlockView {
    pub open spec fn empty() -> BlockView {
        BlockView { code: Seq::empty(), symbols: Seq::empty() }
    }

    /// What a block keeps true of its labels: no name occurs twice.
    pub open spec fn wf(self) -> bool {
        distinct_names(self.symbols)
    }

    /// The block with `name` defined at `pos`, or at the end of the code
    /// where no position is given; an error if the block has the name
    /// already.
    pub open spec fn define_label(self, name: Seq<char>, pos: Option<nat>) -> Result<
        BlockView,
        LayoutErrorView,
    > {
        let p = match pos {
            Some(p) => p,
            None => self.code.len(),
        };
        match lookup(self.symbols, name) {
            Some(prev) => Err(LayoutErrorView::RedefinedSymbol(name, p, prev)),
            None => Ok(BlockView { symbols: self.symbols.push((name, p)), ..self }),
        }
    }

    /// What the block makes of an instruction. If the block knows every
    /// label, the instruction is resolved and its words are appended, or
    /// it has no encoding and the error is returned; if not, the block
    /// stays as it is and the instruction is to be deferred.
    pub open spec fn handle(self, op: OpcodeView) -> Result<
        (BlockView, LayoutProgress),
        LayoutErrorView,
    > {
        if missing_in(self.symbols, op) is Some {
            Ok((self, LayoutProgress::Deferred))
        } else {
            match encode(resolve(self.symbols, op)) {
                Err(e) => Err(LayoutErrorView::AssemblyError(e)),
                Ok(w) => Ok((BlockView { code: self.code + w, ..self }, LayoutProgress::Continue)),
            }
        }
    }
}

/// The entries of a table with every position moved up by `base`.
pub open spec fn shifted(symbols: Symbols, base: nat) -> Symbols {
    symbols.map_values(|e: (Seq<char>, nat)| (e.0, e.1 + base))
}

/// Enters the symbols of a block, which starts at `base`, into `table`,
/// in the order of definition. The first name that the table holds already
/// is an error.
pub open spec fn enter_symbols(table: Symbols, symbols: Symbols, base: nat) -> Result<
    Symbols,
    LayoutErrorView,
>
    decreases symbols.len(),
{
    if symbols.len() == 0 {
        Ok(table)
    } else {
        match lookup(table, symbols[0].0) {
            Some(prev) => Err(
                LayoutErrorView::RedefinedSymbol(symbols[0].0, symbols[0].1 + base, prev),
            ),
            None => enter_symbols(
                table.push((symbols[0].0, symbols[0].1 + base)),
                symbols.skip(1),
                base,
            ),
        }
    }
}

/// An item of a layout: a finished block, or an instruction that waits for
/// its labels.
pub enum ItemView {
    Block(BlockView),
    Deferred(OpcodeView),
}

/// The number of words in the blocks of `items`.
pub open spec fn block_words(items: Seq<ItemView>) -> nat
    decreases items.len(),
{
    if items.len() == 0 {
        0
    } else {
        block_words(items.drop_last()) + (match items.last() {
            ItemView::Block(b) => b.code.len(),
            ItemView::Deferred(_) => 0,
        })
    }
}

/// The number of deferred instructions in `items`.
pub open spec fn deferred_count(items: Seq<ItemView>) -> nat
    decreases items.len(),
{
    if items.len() == 0 {
        0
    } else {
        deferred_count(items.drop_last()) + (match items.last() {
            ItemView::Block(_) => 0nat,
            ItemView::Deferred(_) => 1nat,
        })
    }
}

/// The table of all symbols: the symbols of every block are entered, in
/// the order of the blocks, at the block's base address, which is the
/// number of words in the blocks before it.
pub open spec fn global_symbols(items: Seq<ItemView>) -> Result<Symbols, LayoutErrorView>
    decreases items.len(),
{
    if items.len() == 0 {
        Ok(Seq::empty())
    } else {
        match global_symbols(items.drop_last()) {
            Err(e) => Err(e),
            Ok(table) => match items.last() {
                ItemView::Block(b) => enter_symbols(
                    table,
                    b.symbols,
                    block_words(items.drop_last()),
                ),
                ItemView::Deferred(_) => Ok(table),
            },
        }
    }
}

/// The words of a deferred instruction: its labels are looked up in the
/// table of all symbols, and the result is encoded.
pub open spec fn emit_deferred(table: Symbols, op: OpcodeView) -> Result<
    Seq<u16>,
    LayoutErrorView,
> {
    match missing_in(table, op) {
        Some(s) => Err(LayoutErrorView::MissingSymbol(s)),
        None => match encode(resolve(table, op)) {
            Err(e) => Err(LayoutErrorView::AssemblyError(e)),
            Ok(w) => Ok(w),
        },
    }
}

/// The words of the program: the code of the blocks and the words of the
/// deferred instructions, in the order of the items. The first deferred
/// instruction that fails is the error.
pub open spec fn emit(items: Seq<ItemView>, table: Symbols) -> Result<Seq<u16>, LayoutErrorView>
    decreases items.len(),
{
    if items.len() == 0 {
        Ok(Seq::empty())
    } else {
        match emit(items.drop_last(), table) {
            Err(e) => Err(e),
            Ok(words) => match items.last() {
                ItemView::Block(b) => Ok(words + b.code),
                ItemView::Deferred(op) => match emit_deferred(table, op) {
                    Err(e) => Err(e),
                    Ok(w) => Ok(words + w),
                },
            },
        }
    }
}

/// The mathematical value of a [`Layout`]: the finished items and the
/// block that is being filled.
pub struct LayoutView {
    pub items: Seq<ItemView>,
    pub curr: BlockView,
}

impl LayoutView {
    pub open spec fn empty() -> LayoutView {
        LayoutView { items: Seq::empty(), curr: BlockView::empty() }
    }

    /// All items, the current block last.
    pub open spec fn sealed(self) -> Seq<ItemView> {
        self.items.push(ItemView::Block(self.curr))
    }

    /// More words than the finished program can have: those of the blocks
    /// and three for each deferred instruction.
    pub open spec fn word_bound(self) -> nat {
        block_words(self.sealed()) + 3 * deferred_count(self.sealed())
    }

    /// The layout after one more statement. A label is defined in the
    /// current block at the end of its code. An instruction goes to the
    /// current block; if the block defers it, the block is sealed, the
    /// instruction follows it as a deferred item, and a new block begins.
    pub open spec fn handle(self, stmt: StatementView) -> Result<LayoutView, LayoutErrorView> {
        match stmt {
            StatementView::LabelDef(s) => match self.curr.define_label(s, None) {
                Err(e) => Err(e),
                Ok(b) => Ok(LayoutView { curr: b, ..self }),
            },
            StatementView::Instruction(op) => match self.curr.handle(op) {
                Err(e) => Err(e),
                Ok((b, LayoutProgress::Continue)) => Ok(LayoutView { curr: b, ..self }),
                Ok((_, LayoutProgress::Deferred)) => Ok(
                    LayoutView {
                        items: self.items.push(ItemView::Block(self.curr)).push(
                            ItemView::Deferred(op),
                        ),
                        curr: BlockView::empty(),
                    },
                ),
            },
        }
    }

    /// The layout after a sequence of statements, or the first error.
    pub open spec fn handle_all(self, stmts: Seq<StatementView>) -> Result<
        LayoutView,
        LayoutErrorView,
    >
        decreases stmts.len(),
    {
        if stmts.len() == 0 {
            Ok(self)
        } else {
            match self.handle_all(stmts.drop_last()) {
                Err(e) => Err(e),
                Ok(l) => l.handle(stmts.last()),
            }
        }
    }

    /// The finished program as one block: the table of all symbols, then
    /// the words. Errors of the table come before errors of deferred
    /// instructions.
    pub open spec fn finalize(self) -> Result<BlockView, LayoutErrorView> {
        match global_symbols(self.sealed()) {
            Err(e) => Err(e),
            Ok(table) => match emit(self.sealed(), table) {
                Err(e) => Err(e),
                Ok(words) => Ok(BlockView { code: words, symbols: table }),
            },
        }
    }
}

/// The mathematical value of a list of symbols.
pub open spec fn symbols_view(symbols: Seq<(String, usize)>) -> Symbols {
    symbols.map_values(|e: (String, usize)| (e.0@, e.1 as nat))
}

/// The position of `name` in `symbols`.
pub fn find_symbol(symbols: &Vec<(String, usize)>, name: &String) -> (r: Option<usize>)
    ensures
        match r {
            Some(p) => lookup(symbols_view(symbols@), name@) == Some(p as nat),
            None => lookup(symbols_view(symbols@), name@) is None,
        },
{
    let ghost view = symbols_view(symbols@);
    let mut i: usize = 0;
    proof {
        assert(view.skip(0) =~= view);
    }
    while i < symbols.len()
        invariant
            i <= symbols@.len(),
            view == symbols_view(symbols@),
            lookup(view, name@) == lookup(view.skip(i as int), name@),
        decreases symbols@.len() - i,
    {
        proof {
            assert(view.skip(i as int)[0] == view[i as int]);
            assert(view.skip(i as int).skip(1) =~= view.skip(i + 1));
        }
        if symbols[i].0 == *name {
            return Some(symbols[i].1);
        }
        i = i + 1;
    }
    None
}

/// The word that stands for a position.
fn position_word(p: usize) -> (r: u16)
    ensures
        r == wrap16(p as int),
{
    (p % 0x10000) as u16
}

/// The word that stands for the sum of a position and an offset.
fn position_sum(p: usize, n: usize) -> (r: u16)
    ensures
        r == wrap16(p + n),
{
    proof {
        vstd::arithmetic::div_mod::lemma_add_mod_noop(p as int, n as int, 0x10000);
    }
    ((p % 0x10000 + n % 0x10000) % 0x10000) as u16
}

/// Replaces the labels of an operand by their positions in `symbols`.
/// Fails with the name of the first label that `symbols` does not hold.
pub fn substitute_operand(symbols: &Vec<(String, usize)>, operand: &Operand) -> (r: Result<
    Operand,
    String,
>)
    ensures
        match r {
            Ok(o) => missing_label(symbols_view(symbols@), operand@) is None && o@ == substitute(
                symbols_view(symbols@),
                operand@,
            ),
            Err(s) => missing_label(symbols_view(symbols@), operand@) == Some(s@),
        },
{
    match operand {
        Operand::Label(s) => match find_symbol(symbols, s) {
            Some(pos) => Ok(Operand::Literal(position_word(pos))),
            None => Err(s.clone()),
        },
        Operand::LabelDeref(s) => match find_symbol(symbols, s) {
            Some(pos) => Ok(Operand::LiteralDeref(position_word(pos))),
            None => Err(s.clone()),
        },
        Operand::LabelPlusDeref(s, n) => match find_symbol(symbols, s) {
            Some(pos) => Ok(Operand::LiteralDeref(position_sum(pos, *n as usize))),
            None => Err(s.clone()),
        },
        Operand::RegisterPlusLabelDeref(r, s) => match find_symbol(symbols, s) {
            Some(pos) => Ok(Operand::RegisterPlusDeref(*r, position_word(pos))),
            None => Err(s.clone()),
        },
        Operand::LabelPlusLabelDeref(s1, s2) => match find_symbol(symbols, s1) {
            None => Err(s1.clone()),
            Some(p1) => match find_symbol(symbols, s2) {
                None => Err(s2.clone()),
                Some(p2) => Ok(Operand::LiteralDeref(position_sum(p1, p2))),
            },
        },
        _ => Ok(operand.clone()),
    }
}

/// Replaces the labels of both operands of an instruction, operand `a`
/// first. Fails with the name of the first label that `symbols` does not
/// hold.
pub fn resolve_opcode(symbols: &Vec<(String, usize)>, op: &Opcode) -> (r: Result<Opcode, String>)
    ensures
        match r {
            Ok(o) => missing_in(symbols_view(symbols@), op@) is None && o@ == resolve(
                symbols_view(symbols@),
                op@,
            ),
            Err(s) => missing_in(symbols_view(symbols@), op@) == Some(s@),
        },
{
    let (a, b) = op.get_operands();
    let new_a: Operand = match substitute_operand(symbols, a) {
        Ok(o) => o,
        Err(s) => {
            return Err(s);
        },
    };
    match b {
        Some(b) => {
            let new_b: Operand = match substitute_operand(symbols, b) {
                Ok(o) => o,
                Err(s) => {
                    return Err(s);
                },
            };
            Ok(op.set_operands(Some(new_b), new_a))
        },
        None => Ok(op.set_operands(None, new_a)),
    }
}

/// A stretch of assembled words with the labels defined in it.
#[derive(Debug, PartialEq)]
pub struct Block {
    code: Vec<u16>,
    symbols: Vec<(String, usize)>,
}

impl View for Block {
    type V = BlockView;

    closed spec fn view(&self) -> BlockView {
        BlockView { code: self.code@, symbols: symbols_view(self.symbols@) }
    }
}

impl Block {
    /// An empty block.
    pub fn new() -> (b: Self)
        ensures
            b@ == BlockView::empty(),
            b@.wf(),
    {
        let b = Block { code: Vec::new(), symbols: Vec::new() };
        assert(symbols_view(b.symbols@) =~= Seq::empty());
        b
    }

    /// Defines `symbol` at `pos`, or at the end of the code if `pos` is
    /// `None`. Fails if the block has a label of that name already.
    pub fn define_label(&mut self, symbol: &String, pos: Option<usize>) -> (r: Result<
        (),
        LayoutError,
    >)
        ensures
            match r {
                Ok(_) => old(self)@.define_label(
                    symbol@,
                    match pos {
                        Some(p) => Some(p as nat),
                        None => None,
                    },
                ) == Ok::<BlockView, LayoutErrorView>(final(self)@),
                Err(e) => old(self)@.define_label(
                    symbol@,
                    match pos {
                        Some(p) => Some(p as nat),
                        None => None,
                    },
                ) == Err::<BlockView, LayoutErrorView>(e@) && final(self)@ == old(self)@,
            },
            old(self)@.wf() ==> final(self)@.wf(),
    {
        let p: usize = match pos {
            Some(p) => p,
            None => self.code.len(),
        };
        match find_symbol(&self.symbols, symbol) {
            Some(prev) => Err(LayoutError::RedefinedSymbol(symbol.clone(), p, prev)),
            None => {
                self.symbols.push((symbol.clone(), p));
                proof {
                    if old(self)@.wf() {
                        lemma_push_distinct(old(self)@.symbols, symbol@, p as nat);
                    }
                    assert(symbols_view(self.symbols@) =~= symbols_view(old(self).symbols@).push(
                        (symbol@, p as nat),
                    ));
                }
                Ok(())
            },
        }
    }

    /// The operand with its labels replaced by their positions in this
    /// block; `None` if the block does not know one of them.
    pub fn handle_label_operand(&self, operand: Operand) -> (r: Option<Operand>)
        ensures
            match r {
                Some(o) => missing_label(self@.symbols, operand@) is None && o@ == substitute(
                    self@.symbols,
                    operand@,
                ),
                None => missing_label(self@.symbols, operand@) is Some,
            },
    {
        match substitute_operand(&self.symbols, &operand) {
            Ok(o) => Some(o),
            Err(_) => None,
        }
    }

    /// Assembles an instruction into the block if the block knows all its
    /// labels; says `Deferred`, and leaves the block as it is, if not.
    pub fn handle_statement(&mut self, op: &Opcode) -> (r: Result<LayoutProgress, LayoutError>)
        ensures
            match r {
                Ok(p) => old(self)@.handle(op@) == Ok::<
                    (BlockView, LayoutProgress),
                    LayoutErrorView,
                >((final(self)@, p)),
                Err(e) => old(self)@.handle(op@) == Err::<
                    (BlockView, LayoutProgress),
                    LayoutErrorView,
                >(e@) && final(self)@ == old(self)@,
            },
            final(self)@.symbols == old(self)@.symbols,
            old(self)@.wf() ==> final(self)@.wf(),
            final(self)@.code.len() <= old(self)@.code.len() + 3,
            final(self)@.code.len() >= old(self)@.code.len(),
    {
        match resolve_opcode(&self.symbols, op) {
            Err(_) => Ok(LayoutProgress::Deferred),
            Ok(new_op) => match new_op.assemble() {
                Err(e) => Err(LayoutError::AssemblyError(e)),
                Ok(words) => {
                    proof {
                        crate::assembly::assemble::lemma_encode_decode(new_op@, Seq::empty());
                    }
                    let mut words = words;
                    self.code.append(&mut words);
                    Ok(LayoutProgress::Continue)
                },
            },
        }
    }

    /// The number of words in the block.
    pub fn size(&self) -> (n: usize)
        ensures
            n == self@.code.len(),
    {
        self.code.len()
    }

    /// The words of the block.
    pub fn code(&self) -> (c: &Vec<u16>)
        ensures
            c@ == self@.code,
    {
        &self.code
    }

    /// The position of the label `name`, if the block has it.
    pub fn symbol(&self, name: &String) -> (r: Option<usize>)
        ensures
            match r {
                Some(p) => lookup(self@.symbols, name@) == Some(p as nat),
                None => lookup(self@.symbols, name@) is None,
            },
    {
        find_symbol(&self.symbols, name)
    }

    /// Appends `other` to this block: its words, and its labels, moved up
    /// by the size of this block, in the order of definition. `other` is
    /// left empty. If this block has one of the labels already, nothing
    /// changes, and the first such label is the error.
    pub fn join(&mut self, other: &mut Block) -> (r: Result<(), LayoutError>)
        requires
            forall|i: int|
                0 <= i < old(other)@.symbols.len() ==> (#[trigger] old(other)@.symbols[i]).1 + old(self)@.code.len() <= usize::MAX,
        ensures
            match r {
                Ok(_) => enter_symbols(
                    old(self)@.symbols,
                    old(other)@.symbols,
                    old(self)@.code.len(),
                ) == Ok::<Symbols, LayoutErrorView>(final(self)@.symbols) && final(self)@.code
                    == old(self)@.code + old(other)@.code && final(other)@ == BlockView::empty(),
                Err(e) => enter_symbols(
                    old(self)@.symbols,
                    old(other)@.symbols,
                    old(self)@.code.len(),
                ) == Err::<Symbols, LayoutErrorView>(e@) && final(self)@ == old(self)@ && final(other)@ == old(other)@,
            },
            old(self)@.wf() ==> final(self)@.wf(),
            old(other)@.wf() ==> final(other)@.wf(),
    {
        proof {
            if old(self)@.wf() && enter_symbols(
                old(self)@.symbols,
                old(other)@.symbols,
                old(self)@.code.len(),
            ) is Ok {
                lemma_enter_distinct(
                    old(self)@.symbols,
                    old(other)@.symbols,
                    old(self)@.code.len(),
                );
            }
        }
        let old_size: usize = self.code.len();
        let mut table: Vec<(String, usize)> = clone_symbols(&self.symbols);
        match enter_block_symbols(&mut table, &other.symbols, old_size, Ghost(usize::MAX as nat)) {
            Err(e) => Err(e),
            Ok(_) => {
                self.symbols = table;
                self.code.append(&mut other.code);
                other.symbols.clear();
                proof {
                    assert(symbols_view(other.symbols@) =~= Seq::empty());
                }
                Ok(())
            },
        }
    }
}

/// A copy of a list of symbols.
fn clone_symbols(symbols: &Vec<(String, usize)>) -> (r: Vec<(String, usize)>)
    ensures
        symbols_view(r@) == symbols_view(symbols@),
{
    let mut r: Vec<(String, usize)> = Vec::new();
    let mut i: usize = 0;
    while i < symbols.len()
        invariant
            i <= symbols@.len(),
            r@.len() == i,
            forall|k: int|
                0 <= k < i ==> (#[trigger] r@[k]).0@ == symbols@[k].0@ && r@[k].1 == symbols@[k].1,
        decreases symbols@.len() - i,
    {
        r.push((symbols[i].0.clone(), symbols[i].1));
        i = i + 1;
    }
    assert(symbols_view(r@) =~= symbols_view(symbols@));
    r
}

/// Enters the symbols of a block that starts at `base` into `table`. On
/// an error the table may hold some of them.
fn enter_block_symbols(
    table: &mut Vec<(String, usize)>,
    symbols: &Vec<(String, usize)>,
    base: usize,
    Ghost(limit): Ghost<nat>,
) -> (r: Result<(), LayoutError>)
    requires
        limit <= usize::MAX,
        forall|i: int|
            0 <= i < symbols@.len() ==> (#[trigger] symbols_view(symbols@)[i]).1 + base <= limit,
        forall|i: int|
            0 <= i < old(table)@.len() ==> (#[trigger] symbols_view(old(table)@)[i]).1 <= limit,
    ensures
        r is Ok ==> forall|i: int|
            0 <= i < final(table)@.len() ==> (#[trigger] symbols_view(final(table)@)[i]).1
                <= limit,
        match r {
            Ok(_) => enter_symbols(
                symbols_view(old(table)@),
                symbols_view(symbols@),
                base as nat,
            ) == Ok::<Symbols, LayoutErrorView>(symbols_view(final(table)@)),
            Err(e) => enter_symbols(
                symbols_view(old(table)@),
                symbols_view(symbols@),
                base as nat,
            ) == Err::<Symbols, LayoutErrorView>(e@),
        },
{
    let ghost all = symbols_view(symbols@);
    let mut i: usize = 0;
    proof {
        assert(all.skip(0) =~= all);
    }
    while i < symbols.len()
        invariant
            i <= symbols@.len(),
            all == symbols_view(symbols@),
            limit <= usize::MAX,
            forall|k: int| 0 <= k < symbols@.len() ==> (#[trigger] all[k]).1 + base <= limit,
            forall|k: int|
                0 <= k < table@.len() ==> (#[trigger] symbols_view(table@)[k]).1 <= limit,
            enter_symbols(symbols_view(old(table)@), all, base as nat) == enter_symbols(
                symbols_view(table@),
                all.skip(i as int),
                base as nat,
            ),
        decreases symbols@.len() - i,
    {
        proof {
            assert(all.skip(i as int)[0] == all[i as int]);
            assert(all.skip(i as int).skip(1) =~= all.skip(i + 1));
        }
        let pos: usize = symbols[i].1 + base;
        match find_symbol(table, &symbols[i].0) {
            Some(prev) => {
                return Err(LayoutError::RedefinedSymbol(symbols[i].0.clone(), pos, prev));
            },
            None => {
                let ghost before = symbols_view(table@);
                table.push((symbols[i].0.clone(), pos));
                proof {
                    assert(symbols_view(table@) =~= before.push((all[i as int].0, pos as nat)));
                }
            },
        }
        i = i + 1;
    }
    Ok(())
}

/// An item of a layout.
#[derive(Debug)]
enum LayoutStatus {
    Block(Block),
    DeferredStatement(Opcode),
}

spec fn item_view(item: LayoutStatus) -> ItemView {
    match item {
        LayoutStatus::Block(b) => ItemView::Block(b@),
        LayoutStatus::DeferredStatement(op) => ItemView::Deferred(op@),
    }
}

/// True if every label of the block lies within its code or at its end,
/// and no label occurs twice.
pub open spec fn labels_within(b: BlockView) -> bool {
    &&& forall|i: int| 0 <= i < b.symbols.len() ==> (#[trigger] b.symbols[i]).1 <= b.code.len()
    &&& b.wf()
}

/// True if every label of every block of `items` lies within its block,
/// and no block has a label twice.
pub open spec fn items_within(items: Seq<ItemView>) -> bool {
    forall|i: int|
        0 <= i < items.len() ==> (match #[trigger] items[i] {
            ItemView::Block(b) => labels_within(b),
            ItemView::Deferred(_) => true,
        })
}

/// The layout of a program: the statements seen so far, as blocks of
/// assembled words and deferred instructions between them.
#[derive(Debug)]
pub struct Layout {
    curr: Block,
    layout: Vec<LayoutStatus>,
    bound: usize,
}

impl View for Layout {
    type V = LayoutView;

    closed spec fn view(&self) -> LayoutView {
        LayoutView { items: self.layout@.map_values(|i: LayoutStatus| item_view(i)), curr: self.curr@ }
    }
}

impl Layout {
    /// The layout's own invariant: every label lies within its block, no
    /// block has a label twice, and the layout knows its word bound, which
    /// fits the machine.
    pub closed spec fn wf(&self) -> bool {
        &&& items_within(self@.sealed())
        &&& self.bound == self@.word_bound()
    }

    /// A layout without statements.
    pub fn new() -> (l: Self)
        ensures
            l@ == LayoutView::empty(),
            l.wf(),
            l@.curr.wf(),
    {
        let l = Layout { curr: Block::new(), layout: Vec::new(), bound: 0 };
        proof {
            assert(l@.items =~= Seq::empty());
            lemma_bound_push_block(Seq::empty(), BlockView::empty());
        }
        l
    }

    /// More words than the finished program can have
    /// ([`LayoutView::word_bound`]).
    pub fn word_bound(&self) -> (n: usize)
        requires
            self.wf(),
        ensures
            n == self@.word_bound(),
    {
        self.bound
    }

    /// The words of the current block; after `finalize`, the program.
    pub fn code(&self) -> (c: &Vec<u16>)
        ensures
            c@ == self@.curr.code,
    {
        self.curr.code()
    }

    /// The position of a label of the current block; after `finalize`, of
    /// any label of the program.
    pub fn symbol(&self, name: &String) -> (r: Option<usize>)
        ensures
            match r {
                Some(p) => lookup(self@.curr.symbols, name@) == Some(p as nat),
                None => lookup(self@.curr.symbols, name@) is None,
            },
    {
        self.curr.symbol(name)
    }

    /// Takes one more statement ([`LayoutView::handle`]). On an error the
    /// layout is unchanged.
    pub fn handle_statement(&mut self, stmt: &Statement) -> (r: Result<(), LayoutError>)
        requires
            old(self).wf(),
            old(self)@.word_bound() + 3 <= usize::MAX,
        ensures
            final(self).wf(),
            final(self)@.curr.wf(),
            final(self)@.word_bound() <= old(self)@.word_bound() + 3,
            match r {
                Ok(_) => old(self)@.handle(stmt@) == Ok::<LayoutView, LayoutErrorView>(
                    final(self)@,
                ),
                Err(e) => old(self)@.handle(stmt@) == Err::<LayoutView, LayoutErrorView>(e@)
                    && final(self)@ == old(self)@,
            },
    {
        let ghost items = self@.items;
        let ghost before = self.curr@;
        proof {
            lemma_bound_push_block(items, before);
            assert(self@.sealed()[items.len() as int] == ItemView::Block(before));
        }
        let size_before: usize = self.curr.size();
        match stmt {
            Statement::Instruction(op) => {
                match self.curr.handle_statement(op) {
                    Err(e) => Err(e),
                    Ok(LayoutProgress::Continue) => {
                        self.bound = self.bound + (self.curr.size() - size_before);
                        proof {
                            lemma_bound_push_block(items, self.curr@);
                            lemma_within_push_block(items, before, self.curr@);
                        }
                        Ok(())
                    },
                    Ok(LayoutProgress::Deferred) => {
                        let mut sealed: Block = Block::new();
                        std::mem::swap(&mut self.curr, &mut sealed);
                        self.layout.push(LayoutStatus::Block(sealed));
                        self.layout.push(LayoutStatus::DeferredStatement(op.clone()));
                        self.bound = self.bound + 3;
                        proof {
                            let items2 = items.push(ItemView::Block(before)).push(
                                ItemView::Deferred(op@),
                            );
                            assert(self@.items =~= items2);
                            lemma_bound_push_deferred(items.push(ItemView::Block(before)), op@);
                            lemma_bound_push_block(items2, BlockView::empty());
                            assert forall|i: int| 0 <= i < self@.sealed().len() implies (
                            match #[trigger] self@.sealed()[i] {
                                ItemView::Block(b) => labels_within(b),
                                ItemView::Deferred(_) => true,
                            }) by {
                                if i <= items.len() {
                                    assert(self@.sealed()[i] == old(self)@.sealed()[i]);
                                }
                            }
                        }
                        Ok(())
                    },
                }
            },
            Statement::LabelDef(s) => {
                match self.curr.define_label(s, None) {
                    Err(e) => Err(e),
                    Ok(_) => {
                        proof {
                            lemma_bound_push_block(items, self.curr@);
                            lemma_within_push_block(items, before, self.curr@);
                        }
                        Ok(())
                    },
                }
            },
        }
    }

    /// Builds the table of all symbols: the labels of every block, at the
    /// block's base address.
    fn resolve_symbol(&self) -> (r: Result<Vec<(String, usize)>, LayoutError>)
        requires
            self.wf(),
        ensures
            match r {
                Ok(t) => global_symbols(self@.sealed()) == Ok::<Symbols, LayoutErrorView>(
                    symbols_view(t@),
                ) && forall|i: int|
                    0 <= i < t@.len() ==> (#[trigger] symbols_view(t@)[i]).1 <= block_words(
                        self@.sealed(),
                    ),
                Err(e) => global_symbols(self@.sealed()) == Err::<Symbols, LayoutErrorView>(e@),
            },
    {
        let ghost all = self@.sealed();
        let ghost total = block_words(all);
        let mut table: Vec<(String, usize)> = Vec::new();
        let mut base: usize = 0;
        let mut i: usize = 0;
        proof {
            assert(symbols_view(table@) =~= Seq::empty());
            assert(all.take(0) =~= Seq::empty());
        }
        while i < self.layout.len()
            invariant
                i <= self.layout@.len(),
                self.wf(),
                all == self@.sealed(),
                total == block_words(all),
                base == block_words(all.take(i as int)),
                global_symbols(all.take(i as int)) == Ok::<Symbols, LayoutErrorView>(
                    symbols_view(table@),
                ),
                forall|k: int|
                    0 <= k < table@.len() ==> (#[trigger] symbols_view(table@)[k]).1 <= total,
            decreases self.layout@.len() - i,
        {
            proof {
                lemma_bound_prefix(all, i + 1);
                assert(all.take(i + 1).drop_last() =~= all.take(i as int));
                assert(all.take(i + 1).last() == all[i as int]);
                assert(all[i as int] == item_view(self.layout@[i as int]));
            }
            match &self.layout[i] {
                LayoutStatus::Block(b) => {
                    proof {
                        assert(labels_within(b@));
                        assert(block_words(all.take(i + 1)) == base + b@.code.len());
                        assert forall|k: int| 0 <= k < b.symbols@.len() implies (
                        #[trigger] symbols_view(b.symbols@)[k]).1 + base <= total by {
                            assert(b@.symbols[k].1 <= b@.code.len());
                        }
                    }
                    match enter_block_symbols(&mut table, &b.symbols, base, Ghost(total)) {
                        Err(e) => {
                            proof {
                                lemma_global_symbols_error(all, i + 1);
                            }
                            return Err(e);
                        },
                        Ok(_) => {},
                    }
                    base = base + b.size();
                },
                LayoutStatus::DeferredStatement(_) => {},
            }
            i = i + 1;
        }
        proof {
            assert(all.take(i as int) =~= self@.items);
            assert(all.drop_last() =~= self@.items);
            assert(all.last() == ItemView::Block(self.curr@));
            assert(all[self@.items.len() as int] == ItemView::Block(self.curr@));
            assert(labels_within(self.curr@));
            lemma_bound_push_block(self@.items, self.curr@);
            assert forall|k: int| 0 <= k < self.curr.symbols@.len() implies (
            #[trigger] symbols_view(self.curr.symbols@)[k]).1 + base <= total by {
                assert(self.curr@.symbols[k].1 <= self.curr@.code.len());
            }
        }
        match enter_block_symbols(&mut table, &self.curr.symbols, base, Ghost(total)) {
            Err(e) => Err(e),
            Ok(_) => Ok(table),
        }
    }

    /// Writes the program: the code of the blocks and, between them, the
    /// words of the deferred instructions, resolved with `table`.
    fn emit_words(&self, table: &Vec<(String, usize)>) -> (r: Result<Vec<u16>, LayoutError>)
        requires
            self.wf(),
        ensures
            match r {
                Ok(w) => emit(self@.sealed(), symbols_view(table@)) == Ok::<
                    Seq<u16>,
                    LayoutErrorView,
                >(w@) && w@.len() >= block_words(self@.sealed()),
                Err(e) => emit(self@.sealed(), symbols_view(table@)) == Err::<
                    Seq<u16>,
                    LayoutErrorView,
                >(e@),
            },
    {
        let ghost all = self@.sealed();
        let ghost symbols = symbols_view(table@);
        let mut output: Vec<u16> = Vec::new();
        let mut i: usize = 0;
        proof {
            assert(all.take(0) =~= Seq::empty());
        }
        while i < self.layout.len()
            invariant
                i <= self.layout@.len(),
                self.wf(),
                all == self@.sealed(),
                symbols == symbols_view(table@),
                emit(all.take(i as int), symbols) == Ok::<Seq<u16>, LayoutErrorView>(output@),
                output@.len() >= block_words(all.take(i as int)),
                output@.len() <= block_words(all.take(i as int)) + 3 * deferred_count(
                    all.take(i as int),
                ),
            decreases self.layout@.len() - i,
        {
            proof {
                lemma_bound_prefix(all, i + 1);
                assert(all.take(i + 1).drop_last() =~= all.take(i as int));
                assert(all.take(i + 1).last() == all[i as int]);
                assert(all[i as int] == item_view(self.layout@[i as int]));
            }
            match &self.layout[i] {
                LayoutStatus::Block(b) => {
                    append_words(&mut output, b.code());
                },
                LayoutStatus::DeferredStatement(op) => {
                    let resolved: Opcode = match resolve_opcode(table, op) {
                        Ok(o) => o,
                        Err(name) => {
                            proof {
                                lemma_emit_error(all, symbols, i + 1);
                            }
                            return Err(LayoutError::MissingSymbol(name));
                        },
                    };
                    match resolved.assemble() {
                        Err(e) => {
                            proof {
                                lemma_emit_error(all, symbols, i + 1);
                            }
                            return Err(LayoutError::AssemblyError(e));
                        },
                        Ok(words) => {
                            proof {
                                crate::assembly::assemble::lemma_encode_decode(
                                    resolved@,
                                    Seq::empty(),
                                );
                            }
                            append_words(&mut output, &words);
                        },
                    }
                },
            }
            i = i + 1;
        }
        proof {
            assert(all.take(i as int) =~= self@.items);
            assert(all.drop_last() =~= self@.items);
            assert(all.last() == ItemView::Block(self.curr@));
            lemma_bound_push_block(self@.items, self.curr@);
        }
        append_words(&mut output, self.curr.code());
        Ok(output)
    }

    /// Resolves all symbols and joins all blocks: afterwards the layout
    /// is one block that holds the program and the table of all symbols
    /// ([`LayoutView::finalize`]). On an error the layout is unchanged.
    pub fn finalize(&mut self) -> (r: Result<(), LayoutError>)
        requires
            old(self).wf(),
        ensures
            final(self).wf(),
            final(self)@.curr.wf(),
            match r {
                Ok(_) => old(self)@.finalize() == Ok::<BlockView, LayoutErrorView>(
                    final(self)@.curr,
                ) && final(self)@.items == Seq::<ItemView>::empty(),
                Err(e) => old(self)@.finalize() == Err::<BlockView, LayoutErrorView>(e@)
                    && final(self)@ == old(self)@,
            },
    {
        proof {
            assert(self@.sealed()[self@.items.len() as int] == ItemView::Block(self@.curr));
            if global_symbols(self@.sealed()) is Ok {
                lemma_global_distinct(self@.sealed());
            }
        }
        let table: Vec<(String, usize)> = match self.resolve_symbol() {
            Ok(t) => t,
            Err(e) => {
                return Err(e);
            },
        };
        let output: Vec<u16> = match self.emit_words(&table) {
            Ok(w) => w,
            Err(e) => {
                return Err(e);
            },
        };
        self.bound = output.len();
        self.layout = Vec::new();
        self.curr = Block { code: output, symbols: table };
        proof {
            assert(self@.items =~= Seq::empty());
            lemma_bound_push_block(Seq::empty(), self.curr@);
            assert forall|i: int| 0 <= i < self@.sealed().len() implies (
            match #[trigger] self@.sealed()[i] {
                ItemView::Block(b) => labels_within(b),
                ItemView::Deferred(_) => true,
            }) by {
                assert(self@.sealed()[i] == ItemView::Block(self.curr@));
            }
        }
        Ok(())
    }

    /// The current block; after `finalize`, the program and the table of
    /// all symbols.
    pub fn into_block(self) -> (b: Block)
        ensures
            b@ == self@.curr,
    {
        self.curr
    }
}

/// Lays out a whole program: takes the statements one after the other
/// and finalizes the layout. The result is the program with the table of
/// all symbols, or the first error.
pub fn assemble_program(stmts: &Vec<Statement>) -> (r: Result<Block, LayoutError>)
    requires
        3 * stmts@.len() + 3 <= usize::MAX,
    ensures
        r matches Ok(b) ==> b@.wf(),
        match r {
            Ok(b) => LayoutView::empty().handle_all(statements_view(stmts@)) is Ok
                && LayoutView::empty().handle_all(statements_view(stmts@))->Ok_0.finalize()
                == Ok::<BlockView, LayoutErrorView>(b@),
            Err(e) => match LayoutView::empty().handle_all(statements_view(stmts@)) {
                Err(first) => first == e@,
                Ok(l) => l.finalize() == Err::<BlockView, LayoutErrorView>(e@),
            },
        },
{
    let mut layout: Layout = Layout::new();
    let ghost all = statements_view(stmts@);
    let mut i: usize = 0;
    proof {
        assert(all.take(0) =~= Seq::<StatementView>::empty());
        lemma_bound_push_block(Seq::empty(), BlockView::empty());
    }
    while i < stmts.len()
        invariant
            i <= stmts@.len(),
            3 * stmts@.len() + 3 <= usize::MAX,
            all == statements_view(stmts@),
            layout.wf(),
            layout@.word_bound() <= 3 * i,
            LayoutView::empty().handle_all(all.take(i as int)) == Ok::<
                LayoutView,
                LayoutErrorView,
            >(layout@),
        decreases stmts@.len() - i,
    {
        proof {
            assert(all.take(i + 1).drop_last() =~= all.take(i as int));
            assert(all.take(i + 1).last() == stmts@[i as int]@);
        }
        match layout.handle_statement(&stmts[i]) {
            Err(e) => {
                proof {
                    lemma_handle_all_error(all, i + 1);
                }
                return Err(e);
            },
            Ok(_) => {},
        }
        i = i + 1;
    }
    proof {
        assert(all.take(i as int) =~= all);
    }
    match layout.finalize() {
        Err(e) => Err(e),
        Ok(_) => Ok(layout.into_block()),
    }
}

/// An error in the layout of the first statements is the error of the
/// whole layout.
proof fn lemma_handle_all_error(stmts: Seq<StatementView>, k: int)
    requires
        0 <= k <= stmts.len(),
        LayoutView::empty().handle_all(stmts.take(k)) is Err,
    ensures
        LayoutView::empty().handle_all(stmts) == LayoutView::empty().handle_all(stmts.take(k)),
    decreases stmts.len() - k,
{
    if k == stmts.len() {
        assert(stmts.take(k) =~= stmts);
    } else {
        assert(stmts.take(k + 1).drop_last() =~= stmts.take(k));
        lemma_handle_all_error(stmts, k + 1);
    }
}

/// Appends a copy of `words` to `output`.
fn append_words(output: &mut Vec<u16>, words: &Vec<u16>)
    requires
        old(output)@.len() + words@.len() <= usize::MAX,
    ensures
        final(output)@ == old(output)@ + words@,
{
    let mut i: usize = 0;
    while i < words.len()
        invariant
            i <= words@.len(),
            output@ == old(output)@ + words@.subrange(0, i as int),
        decreases words@.len() - i,
    {
        output.push(words[i]);
        i = i + 1;
        assert(output@ =~= old(output)@ + words@.subrange(0, i as int));
    }
    assert(words@.subrange(0, i as int) =~= words@);
}

/// A prefix of a list of items has no more block words and no more
/// deferred instructions than the list.
proof fn lemma_bound_prefix(items: Seq<ItemView>, k: int)
    requires
        0 <= k <= items.len(),
    ensures
        block_words(items.take(k)) <= block_words(items),
        deferred_count(items.take(k)) <= deferred_count(items),
    decreases items.len() - k,
{
    if k == items.len() {
        assert(items.take(k) =~= items);
    } else {
        lemma_bound_prefix(items, k + 1);
        assert(items.take(k + 1).drop_last() =~= items.take(k));
    }
}

/// An error in the table of a prefix is the error of the whole table.
proof fn lemma_global_symbols_error(items: Seq<ItemView>, k: int)
    requires
        0 <= k <= items.len(),
        global_symbols(items.take(k)) is Err,
    ensures
        global_symbols(items) == global_symbols(items.take(k)),
    decreases items.len() - k,
{
    if k == items.len() {
        assert(items.take(k) =~= items);
    } else {
        assert(items.take(k + 1).drop_last() =~= items.take(k));
        lemma_global_symbols_error(items, k + 1);
    }
}

/// An error in the words of a prefix is the error of the whole program.
proof fn lemma_emit_error(items: Seq<ItemView>, table: Symbols, k: int)
    requires
        0 <= k <= items.len(),
        emit(items.take(k), table) is Err,
    ensures
        emit(items, table) == emit(items.take(k), table),
    decreases items.len() - k,
{
    if k == items.len() {
        assert(items.take(k) =~= items);
    } else {
        assert(items.take(k + 1).drop_last() =~= items.take(k));
        lemma_emit_error(items, table, k + 1);
    }
}

/// The word bound of a list of items that ends with a block.
proof fn lemma_bound_push_block(items: Seq<ItemView>, b: BlockView)
    ensures
        block_words(items.push(ItemView::Block(b))) == block_words(items) + b.code.len(),
        deferred_count(items.push(ItemView::Block(b))) == deferred_count(items),
{
    assert(items.push(ItemView::Block(b)).drop_last() =~= items);
}

/// The word bound of a list of items that ends with a deferred
/// instruction.
proof fn lemma_bound_push_deferred(items: Seq<ItemView>, op: OpcodeView)
    ensures
        block_words(items.push(ItemView::Deferred(op))) == block_words(items),
        deferred_count(items.push(ItemView::Deferred(op))) == deferred_count(items) + 1,
{
    assert(items.push(ItemView::Deferred(op)).drop_last() =~= items);
}

/// Replacing the last block by one whose labels lie within it keeps all
/// labels within their blocks.
proof fn lemma_within_push_block(items: Seq<ItemView>, before: BlockView, after: BlockView)
    requires
        items_within(items.push(ItemView::Block(before))),
        labels_within(before) ==> labels_within(after),
    ensures
        items_within(items.push(ItemView::Block(after))),
{
    let s0 = items.push(ItemView::Block(before));
    let s1 = items.push(ItemView::Block(after));
    assert(s0[items.len() as int] == ItemView::Block(before));
    assert forall|i: int| 0 <= i < s1.len() implies (match #[trigger] s1[i] {
        ItemView::Block(b) => labels_within(b),
        ItemView::Deferred(_) => true,
    }) by {
        if i < items.len() {
            assert(s1[i] == s0[i]);
        }
    }
}

} // verus!
