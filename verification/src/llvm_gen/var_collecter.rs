use crate::ir::definition::{val_models, Function, Instruction, SpecInstruction, SpecVal, Val};
use crate::parser::nodes::{SpecType, Type};
use crate::semantic_analysis::typecheck::SymbolTable;
use vstd::prelude::*;

verus! {

/// The operands of `instruction` that storage is found for, in the order in
/// which they are looked at: all its operands, but for the source of a
/// `GetAddress`; a label is no operand.
pub open spec fn operands(instruction: SpecInstruction) -> Seq<SpecVal> {
    match instruction {
        SpecInstruction::Return(val) => seq![val],
        SpecInstruction::Binary { src1, src2, dst, .. } => seq![src1, src2, dst],
        SpecInstruction::Copy { src, dst } => seq![src, dst],
        SpecInstruction::JumpIfZero(val, _) => seq![val],
        SpecInstruction::JumpIfNotZero(val, _) => seq![val],
        SpecInstruction::FunctionCall(_, args, dst) => args.push(dst),
        SpecInstruction::GetAddress(_, dst) => seq![dst],
        SpecInstruction::Store(value, address) => seq![value, address],
        SpecInstruction::Load(address, dst) => seq![address, dst],
        SpecInstruction::AddPtr { ptr, index, dst } => seq![ptr, index, dst],
        SpecInstruction::Jump(_) => Seq::empty(),
        SpecInstruction::Label(_) => Seq::empty(),
    }
}

/// Whether every variable among `vals` has a type in `table`.
pub open spec fn all_typed(vals: Seq<SpecVal>, table: Map<Seq<char>, SpecType>) -> bool {
    forall|i: int|
        0 <= i < vals.len() ==> (#[trigger] vals[i] matches SpecVal::Var(name)
            ==> table.contains_key(name))
}

/// Whether every variable that storage is found for in `body` has a type in
/// `table`.
pub open spec fn body_typed(body: Seq<SpecInstruction>, table: Map<Seq<char>, SpecType>) -> bool {
    forall|i: int| 0 <= i < body.len() ==> all_typed(operands(#[trigger] body[i]), table)
}

/// The variables `found` and the variable that `val` is, if it is one, with
/// its type in `table`.
pub open spec fn with_val(
    found: Set<(Seq<char>, SpecType)>,
    val: SpecVal,
    table: Map<Seq<char>, SpecType>,
) -> Set<(Seq<char>, SpecType)> {
    match val {
        SpecVal::Var(name) => found.insert((name, table[name])),
        SpecVal::Number(_) => found,
    }
}

/// The variables `found` and the variables among the first `count` of
/// `vals`, each with its type in `table`.
pub open spec fn with_vals(
    found: Set<(Seq<char>, SpecType)>,
    vals: Seq<SpecVal>,
    table: Map<Seq<char>, SpecType>,
    count: nat,
) -> Set<(Seq<char>, SpecType)>
    decreases count,
{
    if count == 0 || count > vals.len() {
        found
    } else {
        with_val(with_vals(found, vals, table, (count - 1) as nat), vals[count - 1], table)
    }
}

/// The variables `found` and the variables that storage is found for in the
/// first `count` instructions of `body`, each with its type in `table`.
pub open spec fn with_instructions(
    found: Set<(Seq<char>, SpecType)>,
    body: Seq<SpecInstruction>,
    table: Map<Seq<char>, SpecType>,
    count: nat,
) -> Set<(Seq<char>, SpecType)>
    decreases count,
{
    if count == 0 || count > body.len() {
        found
    } else {
        let before = with_instructions(found, body, table, (count - 1) as nat);
        with_vals(before, operands(body[count - 1]), table, operands(body[count - 1]).len())
    }
}

/// The variables among `vals`, each with its type in `table`, are all found,
/// and nothing else is.
pub proof fn lemma_with_vals(
    found: Set<(Seq<char>, SpecType)>,
    vals: Seq<SpecVal>,
    table: Map<Seq<char>, SpecType>,
    count: nat,
)
    requires
        count <= vals.len(),
    ensures
        forall|pair: (Seq<char>, SpecType)|
            #[trigger] with_vals(found, vals, table, count).contains(pair) <==> (found.contains(
                pair,
            ) || exists|i: int|
                0 <= i < count && #[trigger] vals[i] == SpecVal::Var(pair.0) && pair.1
                    == table[pair.0]),
    decreases count,
{
    if count > 0 {
        let before = with_vals(found, vals, table, (count - 1) as nat);
        let last = vals[count - 1];
        lemma_with_vals(found, vals, table, (count - 1) as nat);
        assert forall|pair: (Seq<char>, SpecType)|
            #[trigger] with_vals(found, vals, table, count).contains(pair) <==> (found.contains(
                pair,
            ) || exists|i: int|
                0 <= i < count && #[trigger] vals[i] == SpecVal::Var(pair.0) && pair.1
                    == table[pair.0]) by {
            if before.contains(pair) && !found.contains(pair) {
                let i = choose|i: int|
                    0 <= i < count - 1 && #[trigger] vals[i] == SpecVal::Var(pair.0) && pair.1
                        == table[pair.0];
                assert(0 <= i < count && vals[i] == SpecVal::Var(pair.0));
            }
            if last == SpecVal::Var(pair.0) && pair.1 == table[pair.0] {
                assert(vals[count - 1] == SpecVal::Var(pair.0));
            }
            if exists|i: int|
                0 <= i < count && #[trigger] vals[i] == SpecVal::Var(pair.0) && pair.1
                    == table[pair.0] {
                let i = choose|i: int|
                    0 <= i < count && #[trigger] vals[i] == SpecVal::Var(pair.0) && pair.1
                        == table[pair.0];
                if i < count - 1 {
                    assert(before.contains(pair));
                }
            }
        }
    }
}

/// The collector of the variables that a function needs storage for: the
/// variables found so far, each once and with its type, and the symbol table
/// that types them.
pub struct Collector<'a> {
    pub variables: Vec<(String, Type)>,
    pub frontend_symbol_table: &'a SymbolTable,
}

impl<'a> Collector<'a> {
    /// The variables found so far, each with its type.
    pub open spec fn found(&self) -> Set<(Seq<char>, SpecType)> {
        Set::new(
            |pair: (Seq<char>, SpecType)|
                exists|i: int|
                    0 <= i < self.variables@.len() && (#[trigger] self.variables@[i]).0@ == pair.0
                        && self.variables@[i].1@ == pair.1,
        )
    }

    /// Whether no variable is held twice, and each is held with the type
    /// that the symbol table gives it, so that no name is held with two types.
    pub open spec fn wf(&self) -> bool {
        &&& forall|i: int, j: int|
            0 <= i < j < self.variables@.len() ==> !((#[trigger] self.variables@[i]).0@ == (
            #[trigger] self.variables@[j]).0@ && self.variables@[i].1@ == self.variables@[j].1@)
        &&& forall|i: int|
            0 <= i < self.variables@.len() ==> self.frontend_symbol_table@.contains_key(
                (#[trigger] self.variables@[i]).0@,
            ) && self.frontend_symbol_table@[self.variables@[i].0@] == self.variables@[i].1@
    }

    /// A consistent collector holds each name once.
    pub proof fn lemma_one_type(&self, first: (Seq<char>, SpecType), second: (Seq<char>, SpecType))
        requires
            self.wf(),
            self.found().contains(first),
            self.found().contains(second),
            first.0 == second.0,
        ensures
            first == second,
    {
    }

    /// A collector that has found nothing yet.
    pub fn new(frontend_symbol_table: &'a SymbolTable) -> (r: Self)
        ensures
            r.wf(),
            r.found() == Set::<(Seq<char>, SpecType)>::empty(),
            r.frontend_symbol_table@ == frontend_symbol_table@,
    {
        let r = Self { variables: Vec::new(), frontend_symbol_table };
        assert(r.found() =~= Set::<(Seq<char>, SpecType)>::empty());
        r
    }

    /// Tests whether the variable `name` of type `ty` is held.
    fn holds(&self, name: &String, ty: &Type) -> (r: bool)
        ensures
            r == self.found().contains((name@, ty@)),
    {
        let mut i: usize = 0;
        while i < self.variables.len()
            invariant
                i <= self.variables.len(),
                forall|j: int|
                    0 <= j < i ==> !((#[trigger] self.variables@[j]).0@ == name@
                        && self.variables@[j].1@ == ty@),
            decreases self.variables.len() - i,
        {
            if self.variables[i].0 == *name && self.variables[i].1.same(ty) {
                return true;
            }
            i += 1;
        }
        false
    }

    /// Finds storage for `val`, if it is a variable.
    pub fn collect_val(&mut self, val: &Val)
        requires
            old(self).wf(),
            val@ matches SpecVal::Var(name) ==> old(self).frontend_symbol_table@.contains_key(name),
        ensures
            final(self).wf(),
            final(self).frontend_symbol_table == old(self).frontend_symbol_table,
            final(self).found() == with_val(
                old(self).found(),
                val@,
                old(self).frontend_symbol_table@,
            ),
    {
        match val {
            Val::Var(name) => {
                let ty = match self.frontend_symbol_table.get(name.as_str()) {
                    Some(entry) => entry.ty.clone(),
                    None => { return ; },
                };
                if !self.holds(name, &ty) {
                    let ghost before = self.variables@;
                    self.variables.push((name.clone(), ty));
                    assert forall|pair: (Seq<char>, SpecType)|
                        self.found().contains(pair) == old(self).found().insert(
                            (name@, ty@),
                        ).contains(pair) by {
                        if old(self).found().contains(pair) {
                            let i = choose|i: int|
                                0 <= i < before.len() && (#[trigger] before[i]).0@ == pair.0
                                    && before[i].1@ == pair.1;
                            assert(self.variables@[i] == before[i]);
                        }
                        if pair == (name@, ty@) {
                            assert(self.variables@[before.len() as int].0@ == name@);
                        }
                    }
                    assert(self.found() =~= old(self).found().insert((name@, ty@)));
                } else {
                    assert(self.found() =~= old(self).found().insert((name@, ty@)));
                }
            },
            _ => {},
        }
    }
}

/// The operands of `instruction` that storage is found for.
fn operands_of(instruction: &Instruction) -> (r: Vec<Val>)
    ensures
        val_models(r@) == operands(instruction@),
{
    let mut vals: Vec<Val> = Vec::new();
    match instruction {
        Instruction::Return(val) => {
            vals.push(val.clone());
        },
        Instruction::Binary { src1, src2, dst, .. } => {
            vals.push(src1.clone());
            vals.push(src2.clone());
            vals.push(dst.clone());
        },
        Instruction::Copy { src, dst } => {
            vals.push(src.clone());
            vals.push(dst.clone());
        },
        Instruction::JumpIfZero(val, _) => {
            vals.push(val.clone());
        },
        Instruction::JumpIfNotZero(val, _) => {
            vals.push(val.clone());
        },
        Instruction::FunctionCall(_, args, dst) => {
            let mut i: usize = 0;
            while i < args.len()
                invariant
                    i <= args.len(),
                    vals@.len() == i,
                    forall|j: int| 0 <= j < i ==> vals@[j]@ == args@[j]@,
                decreases args.len() - i,
            {
                vals.push(args[i].clone());
                i += 1;
            }
            vals.push(dst.clone());
        },
        Instruction::GetAddress(_, val) => {
            vals.push(val.clone());
        },
        Instruction::Store(val1, val2) => {
            vals.push(val1.clone());
            vals.push(val2.clone());
        },
        Instruction::Load(val1, val2) => {
            vals.push(val1.clone());
            vals.push(val2.clone());
        },
        Instruction::AddPtr { ptr, index, dst } => {
            vals.push(ptr.clone());
            vals.push(index.clone());
            vals.push(dst.clone());
        },
        Instruction::Jump(_) => {},
        Instruction::Label(_) => {},
    }
    assert(val_models(vals@) =~= operands(instruction@));
    vals
}

impl<'a> Collector<'a> {
    /// Finds storage for the variables of `instruction`.
    pub fn collect_instruction(&mut self, instruction: &Instruction)
        requires
            old(self).wf(),
            all_typed(operands(instruction@), old(self).frontend_symbol_table@),
        ensures
            final(self).wf(),
            final(self).frontend_symbol_table == old(self).frontend_symbol_table,
            final(self).found() == with_vals(
                old(self).found(),
                operands(instruction@),
                old(self).frontend_symbol_table@,
                operands(instruction@).len(),
            ),
    {
        let vals = operands_of(instruction);
        let mut i: usize = 0;
        while i < vals.len()
            invariant
                i <= vals.len(),
                val_models(vals@) == operands(instruction@),
                all_typed(operands(instruction@), old(self).frontend_symbol_table@),
                self.wf(),
                self.frontend_symbol_table == old(self).frontend_symbol_table,
                self.found() == with_vals(
                    old(self).found(),
                    operands(instruction@),
                    old(self).frontend_symbol_table@,
                    i as nat,
                ),
            decreases vals.len() - i,
        {
            assert(val_models(vals@)[i as int] == vals@[i as int]@);
            self.collect_val(&vals[i]);
            i += 1;
        }
    }

    /// Finds storage for every variable of `function`: for all the operands
    /// of its instructions, but for the sources of `GetAddress`. Each
    /// variable is held once, with the type that the symbol table gives it.
    pub fn collect_function(&mut self, function: &Function)
        requires
            old(self).wf(),
            body_typed(function@.body, old(self).frontend_symbol_table@),
        ensures
            final(self).wf(),
            final(self).frontend_symbol_table == old(self).frontend_symbol_table,
            final(self).found() == with_instructions(
                old(self).found(),
                function@.body,
                old(self).frontend_symbol_table@,
                function@.body.len(),
            ),
    {
        let mut i: usize = 0;
        while i < function.body.len()
            invariant
                i <= function.body.len(),
                body_typed(function@.body, old(self).frontend_symbol_table@),
                self.wf(),
                self.frontend_symbol_table == old(self).frontend_symbol_table,
                self.found() == with_instructions(
                    old(self).found(),
                    function@.body,
                    old(self).frontend_symbol_table@,
                    i as nat,
                ),
            decreases function.body.len() - i,
        {
            assert(function@.body[i as int] == function.body@[i as int]@);
            self.collect_instruction(&function.body[i]);
            i += 1;
        }
    }
}


/// Tests whether every variable that storage is found for in `function` has
/// a type in `table`.
pub fn is_typed(function: &Function, table: &SymbolTable) -> (r: bool)
    ensures
        r == body_typed(function@.body, table@),
{
    let mut i: usize = 0;
    while i < function.body.len()
        invariant
            i <= function.body.len(),
            forall|j: int|
                0 <= j < i ==> all_typed(operands(#[trigger] function@.body[j]), table@),
        decreases function.body.len() - i,
    {
        assert(function@.body[i as int] == function.body@[i as int]@);
        let vals = operands_of(&function.body[i]);
        let mut k: usize = 0;
        while k < vals.len()
            invariant
                k <= vals.len(),
                i < function.body.len(),
                val_models(vals@) == operands(function@.body[i as int]),
                forall|j: int|
                    0 <= j < k ==> (#[trigger] val_models(vals@)[j] matches SpecVal::Var(name)
                        ==> table@.contains_key(name)),
            decreases vals.len() - k,
        {
            assert(val_models(vals@)[k as int] == vals@[k as int]@);
            if let Val::Var(name) = &vals[k] {
                if table.get(name.as_str()).is_none() {
                    return false;
                }
            }
            k += 1;
        }
        i += 1;
    }
    true
}

} // verus!
