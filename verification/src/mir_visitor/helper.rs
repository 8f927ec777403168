//! The steps that the walk is made of.

use crate::analysis::local_of;
use crate::analysis::seeded;
use crate::analysis::tag_of;
use crate::findings::Detail;
use crate::findings::FindingKind;
use crate::findings::Location;
use crate::mir::Operand;
use crate::mir::Place;
use crate::mir_visitor::MirVisitor;
use crate::stacked_borrows::Permission;
use crate::stacked_borrows::Tag;
use vstd::prelude::*;

verus! {

broadcast use vstd::std_specs::hash::group_hash_axioms;

impl<'a> MirVisitor<'a> {
    /// The tag of the alias that `place` names.
    pub fn place_to_tag(&self, place: &Place) -> (tag: Tag)
        ensures
            tag == tag_of(*place),
    {
        Tag::Tagged(place.local)
    }

    /// A write through `tag` at `location`; reports `TagNotFound` where the
    /// automaton does not find the tag.
    pub fn write_through(&mut self, tag: Tag, location: Location)
        requires
            old(self).wf(),
        ensures
            final(self).wf(),
            final(self).scope() == old(self).scope(),
            old(self)@.findings.is_prefix_of(final(self)@.findings),
            final(self)@ == old(self)@.write_through(tag, location),
    {
        if !self.stacked_borrows.use_value(tag) {
            self.report(FindingKind::TagNotFound, location, Detail::Tag(tag));
        }
    }

    /// A read through `tag` at `location`; reports `TagNotFound` where the
    /// automaton does not find the tag.
    pub fn read_through(&mut self, tag: Tag, location: Location)
        requires
            old(self).wf(),
        ensures
            final(self).wf(),
            final(self).scope() == old(self).scope(),
            old(self)@.findings.is_prefix_of(final(self)@.findings),
            final(self)@ == old(self)@.read_through(tag, location),
    {
        if !self.stacked_borrows.read_value(tag) {
            self.report(FindingKind::TagNotFound, location, Detail::Tag(tag));
        }
    }

    /// The destination `place` receives a value at `location`: a direct
    /// destination gets a fresh `Unique` frame on its own stack; then the
    /// destination is written through `tag`.
    pub fn add_to_stack(&mut self, place: &Place, tag: Tag, location: Location)
        requires
            old(self).wf(),
        ensures
            final(self).wf(),
            final(self).scope() == old(self).scope(),
            old(self)@.findings.is_prefix_of(final(self)@.findings),
            final(self)@ == old(self)@.destination(*place, tag, location),
    {
        if !place.is_indirect() {
            self.stacked_borrows.new_ref(place.local, tag, Permission::Unique);
        }
        self.write_through(tag, location);
    }

    /// Seeds the parameters of the frame: parameter `i`, counted from 1,
    /// is location `i`, which gets a `Unique` frame on its own stack and a
    /// node without edges in the graph.
    pub fn push_args(&mut self)
        requires
            old(self).wf(),
        ensures
            final(self).wf(),
            final(self).scope() == old(self).scope(),
            old(self)@.findings.is_prefix_of(final(self)@.findings),
            final(self)@ == old(self)@.parameters(seeded(old(self).scope().args.len())),
    {
        let mut index: u32 = 0;
        while (index as usize) < self.args.len() && index < u32::MAX
            invariant
                self.wf(),
                self.scope() == old(self).scope(),
                old(self)@.findings.is_prefix_of(self@.findings),
                index <= self.args.len(),
                self@ == old(self)@.parameters(index as nat),
            decreases u32::MAX - index,
        {
            index += 1;
            self.stacked_borrows.new_ref(index, Tag::Tagged(index), Permission::Unique);
            self.alias_graph.constant(index);
        }
    }

    /// Whether `operand` is a direct access to a location that is declared
    /// mutable. A location without a declaration is not.
    pub fn is_mutable(&self, operand: &Operand) -> (mutable: bool)
        ensures
            mutable == self@.mutable(*operand),
    {
        match operand {
            Operand::Move(place) | Operand::Copy(place) => {
                if place.is_indirect() {
                    false
                } else {
                    match self.local_declarations.get(&place.local) {
                        Some(local_decl) => local_decl.mutable,
                        None => false,
                    }
                }
            },
            Operand::Constant => false,
        }
    }

    /// The location that `operand` names; 0 for a constant.
    pub fn operand_as_u32(&self, operand: &Operand) -> (local: u32)
        ensures
            local == local_of(*operand),
    {
        match operand {
            Operand::Move(place) | Operand::Copy(place) => place.local,
            Operand::Constant => 0,
        }
    }
}

} // verus!
