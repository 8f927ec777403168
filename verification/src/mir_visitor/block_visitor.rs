//! The walk over the statements of a basic block.

use crate::analysis::tag_of;
use crate::analysis::Analysis;
use crate::findings::Detail;
use crate::findings::FindingKind;
use crate::findings::Location;
use crate::findings::Malformed;
use crate::mir::BasicBlockData;
use crate::mir::BorrowKind;
use crate::mir::Operand;
use crate::mir::Place;
use crate::mir::Rvalue;
use crate::mir::Statement;
use crate::mir_visitor::MirVisitor;
use crate::stacked_borrows::Permission;
use vstd::prelude::*;

verus! {

broadcast use vstd::std_specs::hash::group_hash_axioms;

impl<'a> MirVisitor<'a> {
    /// Walks one basic block: its statements in sequence, each at its
    /// index, then its terminator, if it has one, at the index that
    /// follows. Fails where a call of the terminator enters a frame that
    /// fails.
    pub fn visit_basic_block_data(&mut self, block: usize, data: &BasicBlockData) -> (r: Result<
        (),
        Malformed,
    >)
        requires
            old(self).wf(),
        ensures
            final(self).wf(),
            final(self).scope() == old(self).scope(),
            old(self)@.findings.is_prefix_of(final(self)@.findings),
            match r {
                Ok(()) => old(self)@.block(old(self).scope(), block, *data) == Ok::<
                    Analysis,
                    Malformed,
                >(final(self)@),
                Err(e) => old(self)@.block(old(self).scope(), block, *data) == Err::<
                    Analysis,
                    Malformed,
                >(e),
            },
        decreases old(self).scope().depth, 2nat,
    {
        let mut location = Location { function: self.function, block, statement_index: 0 };
        // Visit each statement of the basic block
        while location.statement_index < data.statements.len()
            invariant
                self.wf(),
                self.scope() == old(self).scope(),
                old(self)@.findings.is_prefix_of(self@.findings),
                self.depth == old(self).depth,
                location.function == self.function,
                location.block == block,
                location.statement_index <= data.statements.len(),
                self@ == old(self)@.statements(
                    data.statements@,
                    self.function,
                    block,
                    location.statement_index as nat,
                ),
            decreases data.statements.len() - location.statement_index,
        {
            self.visit_statement(&data.statements[location.statement_index], location);
            location.statement_index += 1;
        }

        // Visit the basic block terminator if there is one
        match &data.terminator {
            Some(terminator) => self.visit_terminator(terminator, location),
            None => Ok(()),
        }
    }

    /// Walks one statement.
    pub fn visit_statement(&mut self, statement: &Statement, location: Location)
        requires
            old(self).wf(),
        ensures
            final(self).wf(),
            final(self).scope() == old(self).scope(),
            old(self)@.findings.is_prefix_of(final(self)@.findings),
            final(self)@ == old(self)@.statement(*statement, location),
    {
        match statement {
            Statement::Assign(place, rvalue) => {
                self.visit_assign(place, rvalue, location);
            },
            Statement::SetDiscriminant(place) => self.visit_set_discriminant(place, location),
            Statement::StorageDead(local) | Statement::StorageLive(local) => self.visit_storage(
                *local,
            ),
            Statement::Other => self.report(
                FindingKind::UnsupportedConstruct,
                location,
                Detail::Statement,
            ),
        }
    }

    /// The start or the end of the storage of `local`: nothing changes, so
    /// the stack of a location outlives its storage.
    pub fn visit_storage(&mut self, local: u32)
        ensures
            *final(self) == *old(self),
    {
        let _variable = local;
    }

    /// The discriminant of `place` is written: the place receives a value
    /// that derives from nothing.
    pub fn visit_set_discriminant(&mut self, place: &Place, location: Location)
        requires
            old(self).wf(),
        ensures
            final(self).wf(),
            final(self).scope() == old(self).scope(),
            old(self)@.findings.is_prefix_of(final(self)@.findings),
            final(self)@ == old(self)@.destination(*place, tag_of(*place), location).fresh(
                place.local,
            ),
    {
        let tag = self.place_to_tag(place);
        self.add_to_stack(place, tag, location);
        self.alias_graph.constant(place.local);
    }

    /// A reference or raw pointer to `source` is stored in `place`.
    fn visit_borrow(
        &mut self,
        place: &Place,
        source: &Place,
        permission: Permission,
        location: Location,
    )
        requires
            old(self).wf(),
        ensures
            final(self).wf(),
            final(self).scope() == old(self).scope(),
            old(self)@.findings.is_prefix_of(final(self)@.findings),
            final(self)@ == old(self)@.borrow(*place, *source, permission, location),
    {
        let tag = self.place_to_tag(place);
        let source_tag = self.place_to_tag(source);
        match permission {
            Permission::SharedReadOnly => self.read_through(source_tag, location),
            _ => self.write_through(source_tag, location),
        }
        let home = self.stacked_borrows.location_of(source_tag);
        self.stacked_borrows.new_ref(home, tag, permission);
        self.alias_graph.points_to(place.local, source.local);
    }

    /// Walks the assignment of `rvalue` to `place`. The operands are read
    /// before the destination is updated.
    pub fn visit_assign(&mut self, place: &Place, rvalue: &Rvalue, location: Location)
        requires
            old(self).wf(),
        ensures
            final(self).wf(),
            final(self).scope() == old(self).scope(),
            old(self)@.findings.is_prefix_of(final(self)@.findings),
            final(self)@ == old(self)@.assign(*place, *rvalue, location),
    {
        let variable = place.local;
        let tag = self.place_to_tag(place);

        match rvalue {
            // Create or mutate variable (x or *x)
            Rvalue::Use(operand) => {
                self.visit_operand(operand, location);
                self.add_to_stack(place, tag, location);
                if !place.is_indirect() {
                    self.alias_graph.constant(variable);
                }
                if let Operand::Move(_) = operand {
                    let source = self.operand_as_u32(operand);
                    self.alias_graph.points_to(variable, source);
                }
            },
            // Reference (&x or &mut x)
            Rvalue::Ref(borrow_kind, source) => {
                match borrow_kind {
                    BorrowKind::Shared => self.visit_borrow(
                        place,
                        source,
                        Permission::SharedReadOnly,
                        location,
                    ),
                    BorrowKind::Mut => self.visit_borrow(
                        place,
                        source,
                        Permission::Unique,
                        location,
                    ),
                }
            },
            // Raw pointer (&raw const x)
            Rvalue::AddressOf(source) => {
                self.visit_borrow(place, source, Permission::SharedReadWrite, location);
            },
            // Aggregate value, like a tuple or struct
            Rvalue::Aggregate(operands) => {
                let mut i: usize = 0;
                while i < operands.len()
                    invariant
                        self.wf(),
                        self.scope() == old(self).scope(),
                        old(self)@.findings.is_prefix_of(self@.findings),
                old(self)@.findings.is_prefix_of(self@.findings),
                        i <= operands.len(),
                        self@ == old(self)@.operands(operands@, location, i as nat),
                    decreases operands.len() - i,
                {
                    self.visit_operand(&operands[i], location);
                    i += 1;
                }
                self.add_to_stack(place, tag, location);
                self.alias_graph.constant(variable);
            },
            Rvalue::Cast(operand) => {
                self.visit_operand(operand, location);
                self.add_to_stack(place, tag, location);
                self.alias_graph.constant(variable);
            },
            Rvalue::BinaryOp(operand1, operand2) => {
                self.visit_operand(operand1, location);
                self.visit_operand(operand2, location);
                self.add_to_stack(place, tag, location);
                self.alias_graph.constant(variable);
            },
            Rvalue::UnaryOp(operand) => {
                self.visit_operand(operand, location);
                self.add_to_stack(place, tag, location);
                self.alias_graph.constant(variable);
            },
            Rvalue::NullaryOp => {
                self.add_to_stack(place, tag, location);
                self.alias_graph.constant(variable);
            },
            Rvalue::ShallowInitBox(operand) => {
                let source = self.operand_as_u32(operand);
                self.alias_graph.points_to(variable, source);
            },
            Rvalue::Discriminant(_place) => {
                self.add_to_stack(place, tag, location);
                self.alias_graph.constant(variable);
            },
            Rvalue::Other => {
                self.report(FindingKind::UnsupportedConstruct, location, Detail::Rvalue);
            },
        }
    }

    /// Reads one operand: an indirect access is a write through the tag of
    /// its place; a direct access and a constant do nothing.
    pub fn visit_operand(&mut self, operand: &Operand, location: Location)
        requires
            old(self).wf(),
        ensures
            final(self).wf(),
            final(self).scope() == old(self).scope(),
            old(self)@.findings.is_prefix_of(final(self)@.findings),
            final(self)@ == old(self)@.operand(*operand, location),
    {
        match operand {
            Operand::Move(place) | Operand::Copy(place) => {
                if place.is_indirect() {
                    let tag = self.place_to_tag(place);
                    self.write_through(tag, location);
                }
            },
            Operand::Constant => {},
        }
    }
}

} // verus!
