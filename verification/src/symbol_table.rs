//! Two-pass symbol resolution. A table maps names to addresses; it is
//! seeded with the predefined symbols, pass one binds every label to the
//! instruction-memory address of the next real instruction, and pass two
//! assigns consecutive data addresses (from 16, in first-use order) to
//! the remaining symbolic operands and rewrites every address
//! instruction to a concrete address.

use vstd::prelude::*;

use crate::AsmError;
use crate::ErrorModel;
use crate::parser::Instruction;
use crate::parser::InstructionModel;
use crate::parser::models_of;
use crate::text::char_digit;
use crate::text::digit_val;
use crate::text::is_digit;
use crate::text::is_digit_char;
use crate::text::string_to_chars;
use crate::text::vec_chars_eq;

verus! {

/// The first data address handed to a variable.
pub const VAR_BASE: usize = 16;

/// One past the largest address that fits in 15 bits.
pub const ADDRESS_LIMIT: usize = 32768;

/// Address of a predefined symbol: the sixteen general-purpose
/// registers, the five segment pointers, and the two memory-mapped
/// regions.
pub open spec fn predefined_address(name: Seq<char>) -> Option<int> {
    if name.len() == 2 && name[0] == 'R' && is_digit_char(name[1]) {
        Some(digit_val(name[1]))
    } else if name.len() == 3 && name[0] == 'R' && name[1] == '1' && '0' <= name[2] && name[2]
        <= '5' {
        Some(10 + digit_val(name[2]))
    } else if name == seq!['S', 'P'] {
        Some(0int)
    } else if name == seq!['L', 'C', 'L'] {
        Some(1int)
    } else if name == seq!['A', 'R', 'G'] {
        Some(2int)
    } else if name == seq!['T', 'H', 'I', 'S'] {
        Some(3int)
    } else if name == seq!['T', 'H', 'A', 'T'] {
        Some(4int)
    } else if name == seq!['S', 'C', 'R', 'E', 'E', 'N'] {
        Some(16384int)
    } else if name == seq!['K', 'B', 'D'] {
        Some(24576int)
    } else {
        None
    }
}

/// The table every translation starts from: exactly the predefined
/// symbols at their fixed addresses.
pub open spec fn predefined_map() -> Map<Seq<char>, int> {
    Map::new(
        |n: Seq<char>| predefined_address(n) is Some,
        |n: Seq<char>| predefined_address(n).unwrap(),
    )
}

/// Looks up a predefined symbol.
pub fn predefined_lookup(name: &Vec<char>) -> (r: Option<usize>)
    ensures
        match r {
            Some(a) => predefined_address(name@) == Some(a as int),
            None => predefined_address(name@) is None,
        },
{
    let n = name.len();
    if n == 2 {
        if name[0] == 'R' && is_digit(name[1]) {
            return Some(char_digit(name[1]));
        }
        if name[0] == 'S' && name[1] == 'P' {
            proof {
                assert(name@ =~= seq!['S', 'P']);
            }
            return Some(0);
        }
        None
    } else if n == 3 {
        if name[0] == 'R' && name[1] == '1' && '0' <= name[2] && name[2] <= '5' {
            return Some(10 + char_digit(name[2]));
        }
        if name[0] == 'L' && name[1] == 'C' && name[2] == 'L' {
            proof {
                assert(name@ =~= seq!['L', 'C', 'L']);
            }
            return Some(1);
        }
        if name[0] == 'A' && name[1] == 'R' && name[2] == 'G' {
            proof {
                assert(name@ =~= seq!['A', 'R', 'G']);
            }
            return Some(2);
        }
        if name[0] == 'K' && name[1] == 'B' && name[2] == 'D' {
            proof {
                assert(name@ =~= seq!['K', 'B', 'D']);
            }
            return Some(24576);
        }
        None
    } else if n == 4 {
        if name[0] == 'T' && name[1] == 'H' && name[2] == 'I' && name[3] == 'S' {
            proof {
                assert(name@ =~= seq!['T', 'H', 'I', 'S']);
            }
            return Some(3);
        }
        if name[0] == 'T' && name[1] == 'H' && name[2] == 'A' && name[3] == 'T' {
            proof {
                assert(name@ =~= seq!['T', 'H', 'A', 'T']);
            }
            return Some(4);
        }
        None
    } else if n == 6 {
        if name[0] == 'S' && name[1] == 'C' && name[2] == 'R' && name[3] == 'E' && name[4] == 'E'
            && name[5] == 'N' {
            proof {
                assert(name@ =~= seq!['S', 'C', 'R', 'E', 'E', 'N']);
            }
            return Some(16384);
        }
        None
    } else {
        None
    }
}

/// The mapping a list of own entries denotes on top of the predefined
/// symbols.
spec fn table_map(es: Seq<(Seq<char>, int)>) -> Map<Seq<char>, int>
    decreases es.len(),
{
    if es.len() == 0 {
        predefined_map()
    } else {
        table_map(es.drop_last()).insert(es.last().0, es.last().1)
    }
}

/// A name bound by no entry is governed by the predefined symbols.
proof fn lemma_table_map_absent(es: Seq<(Seq<char>, int)>, n: Seq<char>)
    requires
        forall|k: int| 0 <= k < es.len() ==> (#[trigger] es[k]).0 != n,
    ensures
        table_map(es).dom().contains(n) == (predefined_address(n) is Some),
        predefined_address(n) is Some ==> table_map(es)[n] == predefined_address(n).unwrap(),
    decreases es.len(),
{
    if es.len() > 0 {
        lemma_table_map_absent(es.drop_last(), n);
    }
}

/// A name bound by an entry with no later rebinding maps to that
/// entry's address.
proof fn lemma_table_map_present(es: Seq<(Seq<char>, int)>, n: Seq<char>, k: int)
    requires
        0 <= k < es.len(),
        es[k].0 == n,
        forall|k2: int| k < k2 < es.len() ==> (#[trigger] es[k2]).0 != n,
    ensures
        table_map(es).dom().contains(n),
        table_map(es)[n] == es[k].1,
    decreases es.len(),
{
    if k + 1 < es.len() {
        lemma_table_map_present(es.drop_last(), n, k);
    }
}

/// A two-pass symbol table: the predefined symbols plus the entries
/// bound during resolution, each name in exactly one slot.
pub struct SymbolTable {
    entries: Vec<(Vec<char>, usize)>,
}

impl View for SymbolTable {
    type V = Map<Seq<char>, int>;

    closed spec fn view(&self) -> Map<Seq<char>, int> {
        table_map(self.entries@.map_values(|e: (Vec<char>, usize)| (e.0@, e.1 as int)))
    }
}

impl SymbolTable {
    /// The entry names are pairwise distinct and none shadows a
    /// predefined symbol: every name occupies exactly one slot.
    pub closed spec fn wf(&self) -> bool {
        let names = self.entries@.map_values(|e: (Vec<char>, usize)| e.0@);
        &&& forall|k1: int, k2: int|
            0 <= k1 < k2 < names.len() ==> #[trigger] names[k1] != #[trigger] names[k2]
        &&& forall|k: int|
            0 <= k < names.len() ==> predefined_address(#[trigger] names[k]) is None
    }

    /// A fresh table holding exactly the predefined symbols.
    pub fn new() -> (t: SymbolTable)
        ensures
            t.wf(),
            t@ == predefined_map(),
    {
        let t = SymbolTable { entries: Vec::new() };
        proof {
            assert(t.entries@.map_values(|e: (Vec<char>, usize)| (e.0@, e.1 as int))
                =~= Seq::<(Seq<char>, int)>::empty());
        }
        t
    }

    /// Finds the address a name is bound to, among predefined symbols
    /// and entries alike.
    pub fn lookup(&self, name: &Vec<char>) -> (r: Option<usize>)
        requires
            self.wf(),
        ensures
            match r {
                Some(a) => self@.dom().contains(name@) && self@[name@] == a as int,
                None => !self@.dom().contains(name@),
            },
    {
        let ghost es = self.entries@.map_values(|e: (Vec<char>, usize)| (e.0@, e.1 as int));
        if let Some(a) = predefined_lookup(name) {
            // A predefined name is never among the entries.
            proof {
                assert forall|k: int| 0 <= k < es.len() implies (#[trigger] es[k]).0 != name@ by {
                    assert(es[k].0 == self.entries@.map_values(
                        |e: (Vec<char>, usize)| e.0@,
                    )[k]);
                }
                lemma_table_map_absent(es, name@);
            }
            return Some(a);
        }
        let mut i: usize = 0;
        while i < self.entries.len()
            invariant
                self.wf(),
                i <= self.entries.len(),
                es == self.entries@.map_values(|e: (Vec<char>, usize)| (e.0@, e.1 as int)),
                forall|k: int| 0 <= k < i ==> (#[trigger] es[k]).0 != name@,
            decreases self.entries.len() - i,
        {
            if vec_chars_eq(&self.entries[i].0, name) {
                proof {
                    assert(es[i as int].0 == name@);
                    assert forall|k2: int| i < k2 < es.len() implies (#[trigger] es[k2]).0
                        != name@ by {
                        assert(self.entries@.map_values(|e: (Vec<char>, usize)| e.0@)[i as int]
                            != self.entries@.map_values(|e: (Vec<char>, usize)| e.0@)[k2]);
                    }
                    lemma_table_map_present(es, name@, i as int);
                }
                return Some(self.entries[i].1);
            }
            i = i + 1;
        }
        proof {
            lemma_table_map_absent(es, name@);
        }
        None
    }

    /// Binds an unbound name to an address.
    pub fn insert(&mut self, name: Vec<char>, addr: usize)
        requires
            old(self).wf(),
            !old(self)@.dom().contains(name@),
        ensures
            final(self).wf(),
            final(self)@ == old(self)@.insert(name@, addr as int),
    {
        proof {
            let es = self.entries@.map_values(|e: (Vec<char>, usize)| (e.0@, e.1 as int));
            // The name is in no entry and is not predefined, else it
            // would be in the table's domain.
            assert forall|k: int| 0 <= k < es.len() implies (#[trigger] es[k]).0 != name@ by {
                if es[k].0 == name@ {
                    lemma_table_map_in_dom(es, k);
                }
            }
            lemma_table_map_absent(es, name@);
        }
        let ghost old_entries = self.entries@;
        self.entries.push((name, addr));
        proof {
            let es = old_entries.map_values(|e: (Vec<char>, usize)| (e.0@, e.1 as int));
            let es2 = self.entries@.map_values(|e: (Vec<char>, usize)| (e.0@, e.1 as int));
            assert(es2 =~= es.push((name@, addr as int)));
            assert(es2.drop_last() =~= es);
            let names = old_entries.map_values(|e: (Vec<char>, usize)| e.0@);
            let names2 = self.entries@.map_values(|e: (Vec<char>, usize)| e.0@);
            assert(names2 =~= names.push(name@));
            assert forall|k: int| 0 <= k < names.len() implies names[k] != name@ by {
                assert(names[k] == old_entries[k].0@);
                assert(es[k].0 == old_entries[k].0@);
            }
            assert forall|k1: int, k2: int|
                0 <= k1 < k2 < names2.len() implies #[trigger] names2[k1] != #[trigger] names2[k2] by {
                assert(names2[k1] == names[k1]);
                if k2 == names.len() {
                    assert(names2[k2] == name@);
                } else {
                    assert(names2[k2] == names[k2]);
                }
            }
            assert forall|k: int|
                0 <= k < names2.len() implies predefined_address(#[trigger] names2[k]) is None by {
                if k == names.len() {
                    assert(names2[k] == name@);
                } else {
                    assert(names2[k] == names[k]);
                }
            }
        }
    }
}

/// Pass one from instruction `i` on: a running instruction-memory
/// counter `pc` is advanced once per real instruction, and every label
/// binds its name to the current counter — the address of the next real
/// instruction. Rebinding an already-bound name is a fatal error.
pub open spec fn pass1_rec(
    insts: Seq<InstructionModel>,
    i: int,
    table: Map<Seq<char>, int>,
    pc: int,
) -> Result<Map<Seq<char>, int>, ErrorModel>
    decreases insts.len() - i,
{
    if i < 0 || i >= insts.len() {
        Ok(table)
    } else {
        match insts[i] {
            InstructionModel::L { lnum, symbol } => {
                if table.dom().contains(symbol) {
                    Err(ErrorModel::DuplicateLabel { lnum, name: symbol })
                } else {
                    pass1_rec(insts, i + 1, table.insert(symbol, pc), pc)
                }
            },
            _ => pass1_rec(insts, i + 1, table, pc + 1),
        }
    }
}

/// The table after pass one, starting from the predefined symbols.
pub open spec fn pass1_spec(insts: Seq<InstructionModel>) -> Result<
    Map<Seq<char>, int>,
    ErrorModel,
> {
    pass1_rec(insts, 0, predefined_map(), 0)
}

/// Pass two from instruction `i` on: every address instruction holding
/// a symbol is rewritten to the address the symbol is bound to; an
/// unbound symbol is first bound to the next free data address, taken
/// consecutively from `next` in first-use order. A variable pushed past
/// the 15-bit address space is a fatal overflow. All other instructions
/// pass through unchanged, in order.
pub open spec fn pass2_rec(
    insts: Seq<InstructionModel>,
    i: int,
    table: Map<Seq<char>, int>,
    next: int,
    out: Seq<InstructionModel>,
) -> Result<(Seq<InstructionModel>, Map<Seq<char>, int>, int), ErrorModel>
    decreases insts.len() - i,
{
    if i < 0 || i >= insts.len() {
        Ok((out, table, next))
    } else {
        match insts[i] {
            InstructionModel::A { lnum, symbol: Some(name), address } => {
                if table.dom().contains(name) {
                    pass2_rec(
                        insts,
                        i + 1,
                        table,
                        next,
                        out.push(
                            InstructionModel::A { lnum, symbol: None, address: Some(table[name]) },
                        ),
                    )
                } else if next >= ADDRESS_LIMIT as int {
                    Err(ErrorModel::AddressOverflow { lnum, address: next })
                } else {
                    pass2_rec(
                        insts,
                        i + 1,
                        table.insert(name, next),
                        next + 1,
                        out.push(InstructionModel::A { lnum, symbol: None, address: Some(next) }),
                    )
                }
            },
            _ => pass2_rec(insts, i + 1, table, next, out.push(insts[i])),
        }
    }
}

/// What two-pass resolution makes of an instruction list: the same
/// instructions in order, with every address instruction's symbol
/// replaced by a concrete address.
pub open spec fn resolve_spec(insts: Seq<InstructionModel>) -> Result<
    Seq<InstructionModel>,
    ErrorModel,
> {
    match pass1_spec(insts) {
        Ok(table) => match pass2_rec(insts, 0, table, VAR_BASE as int, Seq::empty()) {
            Ok((out, table2, next)) => Ok(out),
            Err(e) => Err(e),
        },
        Err(e) => Err(e),
    }
}

/// Instruction-memory address of the next real instruction after the
/// first `i` list entries: each address or compute instruction occupies
/// one slot, labels occupy none.
pub open spec fn pc_at(ms: Seq<InstructionModel>, i: int) -> int
    decreases i,
{
    if i <= 0 {
        0
    } else {
        pc_at(ms, i - 1) + (if ms[i - 1] is L {
            0int
        } else {
            1int
        })
    }
}

/// The name a label declaration binds.
pub open spec fn label_of(m: InstructionModel) -> Seq<char> {
    match m {
        InstructionModel::L { lnum, symbol } => symbol,
        _ => Seq::empty(),
    }
}

/// A successful pass one never disturbs a binding it starts from.
proof fn lemma_pass1_extends(ms: Seq<InstructionModel>, i: int, table: Map<Seq<char>, int>, pc: int)
    requires
        pass1_rec(ms, i, table, pc) is Ok,
    ensures
        forall|n: Seq<char>|
            #[trigger] table.dom().contains(n) ==> pass1_rec(ms, i, table, pc)->Ok_0.dom().contains(
                n,
            ) && pass1_rec(ms, i, table, pc)->Ok_0[n] == table[n],
    decreases ms.len() - i,
{
    if 0 <= i < ms.len() {
        match ms[i] {
            InstructionModel::L { lnum, symbol } => {
                let t2 = table.insert(symbol, pc);
                lemma_pass1_extends(ms, i + 1, t2, pc);
                assert forall|n: Seq<char>| #[trigger] table.dom().contains(n) implies pass1_rec(
                    ms,
                    i,
                    table,
                    pc,
                )->Ok_0.dom().contains(n) && pass1_rec(ms, i, table, pc)->Ok_0[n] == table[n] by {
                    assert(t2.dom().contains(n));
                    assert(t2[n] == table[n]);
                }
            },
            _ => {
                lemma_pass1_extends(ms, i + 1, table, pc + 1);
            },
        }
    }
}

/// Pass one from position `j` binds the label at position `i` to the
/// running counter advanced by the real instructions between them.
proof fn lemma_pass1_label_rec(
    ms: Seq<InstructionModel>,
    j: int,
    table: Map<Seq<char>, int>,
    pc: int,
    i: int,
)
    requires
        0 <= j <= i < ms.len(),
        ms[i] is L,
        pass1_rec(ms, j, table, pc) is Ok,
    ensures
        pass1_rec(ms, j, table, pc)->Ok_0.dom().contains(label_of(ms[i])),
        pass1_rec(ms, j, table, pc)->Ok_0[label_of(ms[i])] == pc + pc_at(ms, i) - pc_at(ms, j),
    decreases i - j,
{
    if j == i {
        match ms[i] {
            InstructionModel::L { lnum, symbol } => {
                let t2 = table.insert(symbol, pc);
                lemma_pass1_extends(ms, j + 1, t2, pc);
                assert(t2.dom().contains(symbol));
                assert(t2[symbol] == pc);
            },
            _ => {},
        }
    } else {
        match ms[j] {
            InstructionModel::L { lnum, symbol } => {
                lemma_pass1_label_rec(ms, j + 1, table.insert(symbol, pc), pc, i);
            },
            _ => {
                lemma_pass1_label_rec(ms, j + 1, table, pc + 1, i);
            },
        }
    }
}

/// Law: a successful pass one binds every label declaration to the
/// instruction-memory address of the next real instruction — the number
/// of address and compute instructions that precede it.
pub proof fn lemma_label_address(ms: Seq<InstructionModel>, i: int)
    requires
        0 <= i < ms.len(),
        ms[i] is L,
        pass1_spec(ms) is Ok,
    ensures
        pass1_spec(ms)->Ok_0.dom().contains(label_of(ms[i])),
        pass1_spec(ms)->Ok_0[label_of(ms[i])] == pc_at(ms, i),
{
    lemma_pass1_label_rec(ms, 0, predefined_map(), 0, i);
}

/// The variable operands from position `i` on, in first-use order: the
/// symbolic address operands not yet bound, given the names `dom`
/// already bound (predefined symbols, labels, and earlier variables).
pub open spec fn new_vars(ms: Seq<InstructionModel>, i: int, dom: Set<Seq<char>>) -> Seq<Seq<char>>
    decreases ms.len() - i,
{
    if i < 0 || i >= ms.len() {
        Seq::empty()
    } else {
        match ms[i] {
            InstructionModel::A { lnum, symbol: Some(name), address } => {
                if dom.contains(name) {
                    new_vars(ms, i + 1, dom)
                } else {
                    seq![name] + new_vars(ms, i + 1, dom.insert(name))
                }
            },
            _ => new_vars(ms, i + 1, dom),
        }
    }
}

/// Law: a successful pass two assigns the variable operands
/// consecutive data addresses from `next` on, one more per variable in
/// first-use order; the names were unbound before — no variable rebinds
/// a predefined symbol, a label, or an earlier variable — and are
/// pairwise distinct.
pub proof fn lemma_pass2_new_vars(
    ms: Seq<InstructionModel>,
    i: int,
    table: Map<Seq<char>, int>,
    next: int,
    out: Seq<InstructionModel>,
)
    requires
        pass2_rec(ms, i, table, next, out) is Ok,
    ensures
        ({
            let vars = new_vars(ms, i, table.dom());
            let t2 = pass2_rec(ms, i, table, next, out)->Ok_0.1;
            &&& pass2_rec(ms, i, table, next, out)->Ok_0.2 == next + vars.len()
            &&& forall|k: int|
                0 <= k < vars.len() ==> t2.dom().contains(#[trigger] vars[k]) && t2[vars[k]]
                    == next + k
            &&& forall|k: int| 0 <= k < vars.len() ==> !table.dom().contains(#[trigger] vars[k])
            &&& forall|k1: int, k2: int|
                0 <= k1 < k2 < vars.len() ==> #[trigger] vars[k1] != #[trigger] vars[k2]
            &&& forall|n: Seq<char>|
                #[trigger] table.dom().contains(n) ==> t2.dom().contains(n) && t2[n] == table[n]
        }),
    decreases ms.len() - i,
{
    if i < 0 || i >= ms.len() {
    } else {
        let vars = new_vars(ms, i, table.dom());
        let t2 = pass2_rec(ms, i, table, next, out)->Ok_0.1;
        match ms[i] {
            InstructionModel::A { lnum, symbol: Some(name), address } => {
                if table.dom().contains(name) {
                    lemma_pass2_new_vars(
                        ms,
                        i + 1,
                        table,
                        next,
                        out.push(
                            InstructionModel::A {
                                lnum,
                                symbol: None,
                                address: Some(table[name]),
                            },
                        ),
                    );
                } else {
                    let tb = table.insert(name, next);
                    let out2 = out.push(
                        InstructionModel::A { lnum, symbol: None, address: Some(next) },
                    );
                    lemma_pass2_new_vars(ms, i + 1, tb, next + 1, out2);
                    let vars2 = new_vars(ms, i + 1, tb.dom());
                    assert(table.dom().insert(name) =~= tb.dom());
                    assert(vars == seq![name] + vars2);
                    assert(tb.dom().contains(name));
                    assert forall|k: int|
                        0 <= k < vars.len() implies t2.dom().contains(#[trigger] vars[k])
                        && t2[vars[k]] == next + k by {
                        if k == 0 {
                            assert(vars[0] == name);
                            assert(tb[name] == next);
                        } else {
                            assert(vars[k] == vars2[k - 1]);
                        }
                    }
                    assert forall|k: int| 0 <= k < vars.len() implies !table.dom().contains(
                        #[trigger] vars[k],
                    ) by {
                        if k > 0 {
                            assert(vars[k] == vars2[k - 1]);
                            assert(!tb.dom().contains(vars2[k - 1]));
                        }
                    }
                    assert forall|k1: int, k2: int|
                        0 <= k1 < k2 < vars.len() implies #[trigger] vars[k1] != #[trigger] vars[k2] by {
                        assert(vars[k2] == vars2[k2 - 1]);
                        if k1 == 0 {
                            assert(!tb.dom().contains(vars2[k2 - 1]));
                        } else {
                            assert(vars[k1] == vars2[k1 - 1]);
                        }
                    }
                    assert forall|n: Seq<char>| #[trigger] table.dom().contains(n) implies t2
                        .dom().contains(n) && t2[n] == table[n] by {
                        assert(tb.dom().contains(n));
                        assert(tb[n] == table[n]);
                    }
                }
            },
            _ => {
                lemma_pass2_new_vars(ms, i + 1, table, next, out.push(ms[i]));
            },
        }
    }
}

/// Law: a data address below the memory-mapped screen region differs
/// from every predefined symbol's address; in particular the variable
/// addresses 16, 17, ... collide with no predefined symbol until they
/// reach the screen base.
pub proof fn lemma_low_address_not_predefined(a: int)
    requires
        16 <= a < 16384,
    ensures
        forall|n: Seq<char>|
            #[trigger] predefined_address(n) is Some ==> predefined_address(n).unwrap() != a,
{
}

/// Rebuilds an instruction, field for field.
fn copy_instruction(inst: &Instruction) -> (r: Instruction)
    ensures
        r@ == inst@,
{
    match inst {
        Instruction::A { lnum, symbol, address } => Instruction::A {
            lnum: *lnum,
            symbol: match symbol {
                Some(s) => Some(s.clone()),
                None => None,
            },
            address: *address,
        },
        Instruction::L { lnum, symbol } => Instruction::L {
            lnum: *lnum,
            symbol: symbol.clone(),
        },
        Instruction::C { lnum, dest, comp, jump } => Instruction::C {
            lnum: *lnum,
            dest: match dest {
                Some(s) => Some(s.clone()),
                None => None,
            },
            comp: match comp {
                Some(s) => Some(s.clone()),
                None => None,
            },
            jump: match jump {
                Some(s) => Some(s.clone()),
                None => None,
            },
        },
    }
}

/// Runs pass one: binds every label, checking for rebinding.
fn pass1(insts: &Vec<Instruction>, table: &mut SymbolTable) -> (r: Result<(), AsmError>)
    requires
        old(table).wf(),
    ensures
        final(table).wf(),
        match r {
            Ok(()) => pass1_rec(models_of(insts@), 0, old(table)@, 0) == Ok::<
                Map<Seq<char>, int>,
                ErrorModel,
            >(final(table)@),
            Err(e) => pass1_rec(models_of(insts@), 0, old(table)@, 0) == Err::<
                Map<Seq<char>, int>,
                ErrorModel,
            >(e@),
        },
{
    let ghost models = models_of(insts@);
    let mut i: usize = 0;
    let mut pc: usize = 0;
    while i < insts.len()
        invariant
            table.wf(),
            i <= insts.len(),
            pc <= i,
            models == models_of(insts@),
            pass1_rec(models, 0, old(table)@, 0) == pass1_rec(models, i as int, table@, pc as int),
        decreases insts.len() - i,
    {
        proof {
            assert(models[i as int] == insts@[i as int]@);
        }
        match &insts[i] {
            Instruction::L { lnum, symbol } => {
                let name = string_to_chars(symbol.as_str());
                match table.lookup(&name) {
                    Some(_) => {
                        return Err(AsmError::DuplicateLabel { lnum: *lnum, name: symbol.clone() });
                    },
                    None => {
                        table.insert(name, pc);
                    },
                }
            },
            _ => {
                pc = pc + 1;
            },
        }
        i = i + 1;
    }
    Ok(())
}

/// Runs pass two: rewrites every address instruction to a concrete
/// address, assigning data addresses to new variables.
fn pass2(insts: &Vec<Instruction>, table: &mut SymbolTable) -> (r: Result<
    Vec<Instruction>,
    AsmError,
>)
    requires
        old(table).wf(),
    ensures
        final(table).wf(),
        match r {
            Ok(out) => {
                let p = pass2_rec(models_of(insts@), 0, old(table)@, VAR_BASE as int, Seq::empty());
                p is Ok && p->Ok_0.0 == models_of(out@) && p->Ok_0.1 == final(table)@
            },
            Err(e) => pass2_rec(models_of(insts@), 0, old(table)@, VAR_BASE as int, Seq::empty())
                == Err::<(Seq<InstructionModel>, Map<Seq<char>, int>, int), ErrorModel>(e@),
        },
{
    let ghost models = models_of(insts@);
    let mut out: Vec<Instruction> = Vec::new();
    let mut next: usize = VAR_BASE;
    let mut i: usize = 0;
    proof {
        assert(models_of(out@) =~= Seq::<InstructionModel>::empty());
    }
    while i < insts.len()
        invariant
            table.wf(),
            i <= insts.len(),
            next <= ADDRESS_LIMIT,
            models == models_of(insts@),
            pass2_rec(models, 0, old(table)@, VAR_BASE as int, Seq::empty()) == pass2_rec(
                models,
                i as int,
                table@,
                next as int,
                models_of(out@),
            ),
        decreases insts.len() - i,
    {
        let ghost old_models = models_of(out@);
        proof {
            assert(models[i as int] == insts@[i as int]@);
        }
        let inst = &insts[i];
        let resolved: Instruction = match inst {
            Instruction::A { lnum, symbol: Some(name), address: _ } => {
                let chars = string_to_chars(name.as_str());
                match table.lookup(&chars) {
                    Some(a) => Instruction::A { lnum: *lnum, symbol: None, address: Some(a) },
                    None => {
                        if next >= ADDRESS_LIMIT {
                            return Err(
                                AsmError::AddressOverflow { lnum: *lnum, address: next },
                            );
                        }
                        let a = next;
                        table.insert(chars, a);
                        next = next + 1;
                        Instruction::A { lnum: *lnum, symbol: None, address: Some(a) }
                    },
                }
            },
            _ => copy_instruction(inst),
        };
        out.push(resolved);
        proof {
            assert(models_of(out@) =~= old_models.push(out@.last()@));
        }
        i = i + 1;
    }
    Ok(out)
}

/// Resolves every symbolic address operand: pass one binds the labels,
/// pass two substitutes addresses and assigns data addresses to
/// variables. The result holds the same instructions in order, every
/// address instruction rewritten to a concrete address.
pub fn resolve(insts: Vec<Instruction>) -> (r: Result<Vec<Instruction>, AsmError>)
    ensures
        match r {
            Ok(out) => resolve_spec(models_of(insts@)) == Ok::<Seq<InstructionModel>, ErrorModel>(
                models_of(out@),
            ),
            Err(e) => resolve_spec(models_of(insts@)) == Err::<Seq<InstructionModel>, ErrorModel>(
                e@,
            ),
        },
{
    let mut table = SymbolTable::new();
    match pass1(&insts, &mut table) {
        Ok(()) => {},
        Err(e) => {
            return Err(e);
        },
    }
    match pass2(&insts, &mut table) {
        Ok(out) => Ok(out),
        Err(e) => Err(e),
    }
}

/// A bound entry's name lies in the table's domain.
proof fn lemma_table_map_in_dom(es: Seq<(Seq<char>, int)>, k: int)
    requires
        0 <= k < es.len(),
    ensures
        table_map(es).dom().contains(es[k].0),
    decreases es.len(),
{
    if k + 1 < es.len() {
        lemma_table_map_in_dom(es.drop_last(), k);
    }
}

} // verus!
