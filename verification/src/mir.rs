//! The function bodies that the analysis reads: declared storage locations,
//! and basic blocks of statements that end in a terminator.

use vstd::prelude::*;

verus! {

/// An access path: a storage location, reached either by its name or
/// through a pointer or reference that it holds.
#[derive(Clone, Copy, Debug, PartialEq, Eq)]
pub struct Place {
    pub local: u32,
    pub indirect: bool,
}

impl Place {
    pub open spec fn spec_is_indirect(&self) -> bool {
        self.indirect
    }

    /// Whether the access goes through a pointer or reference.
    #[verifier::when_used_as_spec(spec_is_indirect)]
    pub fn is_indirect(&self) -> (indirect: bool)
        ensures
            indirect == self.indirect,
    {
        self.indirect
    }

    /// The location is one of the first `locals` locations.
    pub open spec fn spec_in_range(&self, locals: usize) -> bool {
        self.local < locals
    }

    #[verifier::when_used_as_spec(spec_in_range)]
    pub fn in_range(&self, locals: usize) -> (ok: bool)
        ensures
            ok == self.spec_in_range(locals),
    {
        (self.local as usize) < locals
    }
}

/// A value that a statement or terminator reads.
#[derive(Clone, Copy, Debug, PartialEq, Eq)]
pub enum Operand {
    Move(Place),
    Copy(Place),
    Constant,
}

impl Operand {
    pub open spec fn spec_in_range(&self, locals: usize) -> bool {
        match *self {
            Operand::Move(place) => place.in_range(locals),
            Operand::Copy(place) => place.in_range(locals),
            Operand::Constant => true,
        }
    }

    /// Whether the operand names no location beyond the first `locals`.
    #[verifier::when_used_as_spec(spec_in_range)]
    pub fn in_range(&self, locals: usize) -> (ok: bool)
        ensures
            ok == self.spec_in_range(locals),
    {
        match self {
            Operand::Move(place) => place.in_range(locals),
            Operand::Copy(place) => place.in_range(locals),
            Operand::Constant => true,
        }
    }
}

/// Every operand of the sequence names declared locations only.
pub open spec fn operands_in_range(operands: Seq<Operand>, locals: usize) -> bool {
    forall|i: int| 0 <= i < operands.len() ==> (#[trigger] operands[i]).in_range(locals)
}

/// Whether every operand names declared locations only.
pub fn check_operands(operands: &Vec<Operand>, locals: usize) -> (ok: bool)
    ensures
        ok == operands_in_range(operands@, locals),
{
    let mut i: usize = 0;
    while i < operands.len()
        invariant
            i <= operands.len(),
            forall|j: int| 0 <= j < i ==> (#[trigger] operands@[j]).in_range(locals),
        decreases operands.len() - i,
    {
        if !operands[i].in_range(locals) {
            return false;
        }
        i += 1;
    }
    true
}

/// The kind of a reference.
#[derive(Clone, Copy, Debug, PartialEq, Eq)]
pub enum BorrowKind {
    Shared,
    Mut,
}

/// The right-hand side of an assignment.
#[derive(Debug)]
pub enum Rvalue {
    /// The value of an operand.
    Use(Operand),
    /// A reference to a place.
    Ref(BorrowKind, Place),
    /// A raw pointer to a place.
    AddressOf(Place),
    /// A tuple, struct or other aggregate built from operands.
    Aggregate(Vec<Operand>),
    Cast(Operand),
    BinaryOp(Operand, Operand),
    UnaryOp(Operand),
    /// An operator without operands, such as the size of a type.
    NullaryOp,
    /// A box around the pointer that an operand holds.
    ShallowInitBox(Operand),
    /// The discriminant of a place.
    Discriminant(Place),
    /// Any construct that the analysis does not model.
    Other,
}

impl Rvalue {
    pub open spec fn spec_in_range(&self, locals: usize) -> bool {
        match *self {
            Rvalue::Use(operand) => operand.in_range(locals),
            Rvalue::Ref(_, place) => place.in_range(locals),
            Rvalue::AddressOf(place) => place.in_range(locals),
            Rvalue::Aggregate(operands) => operands_in_range(operands@, locals),
            Rvalue::Cast(operand) => operand.in_range(locals),
            Rvalue::BinaryOp(left, right) => left.in_range(locals) && right.in_range(locals),
            Rvalue::UnaryOp(operand) => operand.in_range(locals),
            Rvalue::NullaryOp => true,
            Rvalue::ShallowInitBox(operand) => operand.in_range(locals),
            Rvalue::Discriminant(place) => place.in_range(locals),
            Rvalue::Other => true,
        }
    }

    /// Whether the value names no location beyond the first `locals`.
    #[verifier::when_used_as_spec(spec_in_range)]
    pub fn in_range(&self, locals: usize) -> (ok: bool)
        ensures
            ok == self.spec_in_range(locals),
    {
        match self {
            Rvalue::Use(operand) => operand.in_range(locals),
            Rvalue::Ref(_, place) => place.in_range(locals),
            Rvalue::AddressOf(place) => place.in_range(locals),
            Rvalue::Aggregate(operands) => check_operands(operands, locals),
            Rvalue::Cast(operand) => operand.in_range(locals),
            Rvalue::BinaryOp(left, right) => left.in_range(locals) && right.in_range(locals),
            Rvalue::UnaryOp(operand) => operand.in_range(locals),
            Rvalue::NullaryOp => true,
            Rvalue::ShallowInitBox(operand) => operand.in_range(locals),
            Rvalue::Discriminant(place) => place.in_range(locals),
            Rvalue::Other => true,
        }
    }
}

/// One step of a basic block.
#[derive(Debug)]
pub enum Statement {
    Assign(Place, Rvalue),
    SetDiscriminant(Place),
    StorageLive(u32),
    StorageDead(u32),
    /// Any construct that the analysis does not model.
    Other,
}

impl Statement {
    pub open spec fn spec_in_range(&self, locals: usize) -> bool {
        match *self {
            Statement::Assign(place, rvalue) => place.in_range(locals) && rvalue.in_range(locals),
            Statement::SetDiscriminant(place) => place.in_range(locals),
            Statement::StorageLive(local) => local < locals,
            Statement::StorageDead(local) => local < locals,
            Statement::Other => true,
        }
    }

    /// Whether the statement names no location beyond the first `locals`.
    #[verifier::when_used_as_spec(spec_in_range)]
    pub fn in_range(&self, locals: usize) -> (ok: bool)
        ensures
            ok == self.spec_in_range(locals),
    {
        match self {
            Statement::Assign(place, rvalue) => place.in_range(locals) && rvalue.in_range(locals),
            Statement::SetDiscriminant(place) => place.in_range(locals),
            Statement::StorageLive(local) => (*local as usize) < locals,
            Statement::StorageDead(local) => (*local as usize) < locals,
            Statement::Other => true,
        }
    }
}

/// What a call calls.
#[derive(Clone, Copy, Debug, PartialEq, Eq)]
pub enum CallTarget {
    /// A function that is known where the call stands, by its index in the
    /// program.
    Resolved(usize),
    /// A computed or indirect target.
    Unresolved,
}

/// The end of a basic block.
#[derive(Debug)]
pub enum Terminator {
    Call { target: CallTarget, args: Vec<Operand>, destination: Place },
    Assert { cond: Operand },
    Return,
    /// Any construct that the analysis does not model.
    Other,
}

impl Terminator {
    pub open spec fn spec_in_range(&self, locals: usize, functions: usize) -> bool {
        match *self {
            Terminator::Call { target, args, destination } => {
                &&& target matches CallTarget::Resolved(function) ==> function < functions
                &&& operands_in_range(args@, locals)
                &&& destination.in_range(locals)
            },
            Terminator::Assert { cond } => cond.in_range(locals),
            Terminator::Return => true,
            Terminator::Other => true,
        }
    }

    /// Whether the terminator names no location beyond the first `locals`
    /// and no function beyond the first `functions`.
    #[verifier::when_used_as_spec(spec_in_range)]
    pub fn in_range(&self, locals: usize, functions: usize) -> (ok: bool)
        ensures
            ok == self.spec_in_range(locals, functions),
    {
        match self {
            Terminator::Call { target, args, destination } => {
                let known = match target {
                    CallTarget::Resolved(function) => *function < functions,
                    CallTarget::Unresolved => true,
                };
                known && check_operands(args, locals) && destination.in_range(locals)
            },
            Terminator::Assert { cond } => cond.in_range(locals),
            Terminator::Return => true,
            Terminator::Other => true,
        }
    }
}

/// The declaration of a storage location.
#[derive(Clone, Copy, Debug, PartialEq, Eq)]
pub struct LocalDecl {
    pub mutable: bool,
}

/// A basic block: statements in sequence, then at most one terminator.
#[derive(Debug)]
pub struct BasicBlockData {
    pub statements: Vec<Statement>,
    pub terminator: Option<Terminator>,
}

impl BasicBlockData {
    pub open spec fn spec_in_range(&self, locals: usize, functions: usize) -> bool {
        &&& forall|i: int|
            0 <= i < self.statements@.len() ==> (#[trigger] self.statements@[i]).in_range(locals)
        &&& self.terminator matches Some(terminator) ==> terminator.in_range(locals, functions)
    }

    /// Whether the block names no location beyond the first `locals` and
    /// no function beyond the first `functions`.
    #[verifier::when_used_as_spec(spec_in_range)]
    pub fn in_range(&self, locals: usize, functions: usize) -> (ok: bool)
        ensures
            ok == self.spec_in_range(locals, functions),
    {
        let mut i: usize = 0;
        while i < self.statements.len()
            invariant
                i <= self.statements.len(),
                forall|j: int| 0 <= j < i ==> (#[trigger] self.statements@[j]).in_range(locals),
            decreases self.statements.len() - i,
        {
            if !self.statements[i].in_range(locals) {
                return false;
            }
            i += 1;
        }
        match &self.terminator {
            Some(terminator) => terminator.in_range(locals, functions),
            None => true,
        }
    }
}

/// The body of one function. Location 0 is the return slot, the parameters
/// follow, then variables and temporaries.
#[derive(Debug)]
pub struct Body {
    pub local_decls: Vec<LocalDecl>,
    pub basic_blocks: Vec<BasicBlockData>,
}

impl Body {
    /// The body is well formed in a program of `functions` functions: its
    /// locations can be numbered by `u32`, and it names declared locations
    /// and functions of the program only.
    pub open spec fn spec_is_well_formed(&self, functions: usize) -> bool {
        &&& self.local_decls@.len() <= u32::MAX as int + 1
        &&& forall|i: int|
            0 <= i < self.basic_blocks@.len() ==> (#[trigger] self.basic_blocks@[i]).in_range(
                self.local_decls.len(),
                functions,
            )
    }

    /// Whether the body is well formed in a program of `functions`
    /// functions.
    #[verifier::when_used_as_spec(spec_is_well_formed)]
    pub fn is_well_formed(&self, functions: usize) -> (ok: bool)
        ensures
            ok == self.spec_is_well_formed(functions),
    {
        let locals = self.local_decls.len();
        if locals > 0 && locals - 1 > u32::MAX as usize {
            return false;
        }
        let mut i: usize = 0;
        while i < self.basic_blocks.len()
            invariant
                i <= self.basic_blocks.len(),
                locals == self.local_decls.len(),
                forall|j: int|
                    0 <= j < i ==> (#[trigger] self.basic_blocks@[j]).in_range(locals, functions),
            decreases self.basic_blocks.len() - i,
        {
            if !self.basic_blocks[i].in_range(locals, functions) {
                return false;
            }
            i += 1;
        }
        true
    }
}

/// The functions that calls can be resolved to, each by its index.
#[derive(Debug)]
pub struct Program {
    pub bodies: Vec<Body>,
}

} // verus!
