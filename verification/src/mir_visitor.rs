//! The walk over a function body: each construct becomes operations on the
//! borrow stacks and the points-to graph of the frame, and findings.

use crate::analysis::Analysis;
use crate::analysis::frame;
use crate::analysis::Scope;
use crate::findings::Detail;
use crate::findings::Finding;
use crate::findings::FindingKind;
use crate::findings::Location;
use crate::findings::Malformed;
use crate::mir::BasicBlockData;
use crate::mir::CallTarget;
use crate::mir::LocalDecl;
use crate::mir::Operand;
use crate::mir::Place;
use crate::mir::Program;
use crate::mir::Terminator;
use crate::points_to::PointsToGraph;
use crate::stacked_borrows::BorrowStacks;
use crate::stacked_borrows::Permission;
use std::collections::HashMap;
use vstd::prelude::*;

pub mod block_visitor;
pub mod helper;

verus! {

broadcast use vstd::std_specs::hash::group_hash_axioms;

/// How many calls deep a visitor made by `MirVisitor::new` enters.
pub const CALL_DEPTH: usize = 8;

/// The analysis of one frame: it owns the borrow stacks and the points-to
/// graph of the frame and collects the findings.
pub struct MirVisitor<'a> {
    program: &'a Program,
    args: Vec<Operand>,
    function: usize,
    depth: usize,
    local_declarations: HashMap<u32, LocalDecl>,
    stacked_borrows: BorrowStacks,
    pub alias_graph: PointsToGraph,
    findings: Vec<Finding>,
}

impl<'a> View for MirVisitor<'a> {
    type V = Analysis;

    closed spec fn view(&self) -> Analysis {
        Analysis {
            locals: self.local_declarations@,
            borrows: self.stacked_borrows@,
            aliases: self.alias_graph@,
            findings: self.findings@,
        }
    }
}

/// Once a block has failed, the walk over more blocks fails in the same way.
proof fn lemma_blocks_fail(
    start: Analysis,
    scope: Scope,
    blocks: Seq<BasicBlockData>,
    failed: nat,
    n: nat,
)
    requires
        failed <= n,
        start.blocks(scope, blocks, failed) is Err,
    ensures
        start.blocks(scope, blocks, n) == start.blocks(scope, blocks, failed),
    decreases n,
{
    if failed < n {
        lemma_blocks_fail(start, scope, blocks, failed, (n - 1) as nat);
    }
}

/// Analyses `function` in a frame of its own, opened with `args`, entering
/// calls `depth` deep, and hands back the findings of that frame and of the
/// frames of the callees, in the order in which the walk made them. Fails,
/// naming the function, where a frame is entered whose function the program
/// does not hold or whose body is not well formed.
pub fn analyze(program: &Program, function: usize, args: Vec<Operand>, depth: usize) -> (r: Result<
    Vec<Finding>,
    Malformed,
>)
    ensures
        match r {
            Ok(findings) => frame(*program, function, args@, depth) == Ok::<
                Seq<Finding>,
                Malformed,
            >(findings@),
            Err(e) => frame(*program, function, args@, depth) == Err::<Seq<Finding>, Malformed>(e),
        },
{
    let mut visitor = MirVisitor::with_depth(program, args, depth);
    match visitor.visit_body(function) {
        Ok(()) => Ok(visitor.findings),
        Err(e) => Err(e),
    }
}

/// A copy of the operands.
pub fn copy_operands(operands: &Vec<Operand>) -> (copy: Vec<Operand>)
    ensures
        copy@ == operands@,
{
    let mut copy: Vec<Operand> = Vec::new();
    let mut i: usize = 0;
    while i < operands.len()
        invariant
            i <= operands.len(),
            copy@ == operands@.take(i as int),
        decreases operands.len() - i,
    {
        copy.push(operands[i]);
        assert(operands@.take(i + 1) =~= operands@.take(i as int).push(operands@[i as int]));
        i += 1;
    }
    assert(operands@.take(operands.len() as int) =~= operands@);
    copy
}

impl<'a> MirVisitor<'a> {
    /// The points-to graph is well formed.
    pub closed spec fn wf(&self) -> bool {
        self.alias_graph.wf()
    }

    /// What the frame was given.
    pub closed spec fn scope(&self) -> Scope {
        Scope {
            program: *self.program,
            function: self.function,
            depth: self.depth,
            args: self.args@,
        }
    }

    /// A visitor for a frame that was opened with `args`. It resolves calls
    /// in `program` and enters them `CALL_DEPTH` deep.
    pub fn new(program: &'a Program, args: Vec<Operand>) -> (visitor: Self)
        ensures
            visitor.wf(),
            visitor@ == Analysis::empty(),
            visitor.scope() == (Scope { program: *program, function: 0, depth: CALL_DEPTH, args: args@ }),
    {
        Self::with_depth(program, args, CALL_DEPTH)
    }

    /// A visitor that enters calls `depth` deep: with depth 0 it treats every
    /// call as one whose target is not known.
    pub fn with_depth(program: &'a Program, args: Vec<Operand>, depth: usize) -> (visitor: Self)
        ensures
            visitor.wf(),
            visitor@ == Analysis::empty(),
            visitor.scope() == (Scope { program: *program, function: 0, depth, args: args@ }),
    {
        MirVisitor {
            program,
            args,
            function: 0,
            depth,
            local_declarations: HashMap::new(),
            stacked_borrows: BorrowStacks::new(),
            alias_graph: PointsToGraph::new(),
            findings: Vec::new(),
        }
    }

    /// The findings so far, oldest first.
    pub fn findings(&self) -> (findings: Vec<Finding>)
        ensures
            findings@ == self@.findings,
    {
        let mut copy: Vec<Finding> = Vec::new();
        let mut i: usize = 0;
        while i < self.findings.len()
            invariant
                i <= self.findings.len(),
                copy@ == self.findings@.take(i as int),
            decreases self.findings.len() - i,
        {
            copy.push(self.findings[i]);
            assert(self.findings@.take(i + 1) =~= self.findings@.take(i as int).push(
                self.findings@[i as int],
            ));
            i += 1;
        }
        assert(self.findings@.take(self.findings.len() as int) =~= self.findings@);
        copy
    }

    /// Walks the body of `function`: declares its locations in place of
    /// those that were declared, seeds the parameters, and walks the
    /// blocks in the order of their layout, each once. Fails, naming the
    /// function, where the program does not hold it or its body is not
    /// well formed, and where a call enters a frame that fails.
    pub fn visit_body(&mut self, function: usize) -> (r: Result<(), Malformed>)
        requires
            old(self).wf(),
        ensures
            final(self).wf(),
            final(self).scope() == (Scope { function, ..old(self).scope() }),
            old(self)@.findings.is_prefix_of(final(self)@.findings),
            match r {
                Ok(()) => old(self)@.body(final(self).scope()) == Ok::<Analysis, Malformed>(
                    final(self)@,
                ),
                Err(e) => old(self)@.body(final(self).scope()) == Err::<Analysis, Malformed>(e),
            },
        decreases old(self).scope().depth, 3nat,
    {
        self.function = function;
        let program = self.program;
        if function >= program.bodies.len() {
            return Err(Malformed { function });
        }
        let body = &program.bodies[function];
        if !body.is_well_formed(program.bodies.len()) {
            return Err(Malformed { function });
        }
        // Visit local declarations
        self.local_declarations.clear();
        let ghost cleared = self@;
        assert(cleared == (Analysis { locals: Map::empty(), ..old(self)@ }));
        let mut local: usize = 0;
        while local < body.local_decls.len()
            invariant
                self.wf(),
                self.scope() == (Scope { function, ..old(self).scope() }),
                old(self)@.findings.is_prefix_of(self@.findings),
                self.depth == old(self).depth,
                local <= body.local_decls.len() <= u32::MAX as int + 1,
                self@ == cleared.declarations(body.local_decls@, local as nat),
            decreases body.local_decls.len() - local,
        {
            self.visit_local_decl(local as u32, &body.local_decls[local]);
            local += 1;
        }

        self.push_args();

        // Visit function basic blocks
        let ghost ready = self@;
        let mut block: usize = 0;
        while block < body.basic_blocks.len()
            invariant
                self.wf(),
                self.scope() == (Scope { function, ..old(self).scope() }),
                old(self)@.findings.is_prefix_of(self@.findings),
                self.depth == old(self).depth,
                block <= body.basic_blocks.len(),
                old(self)@.body(self.scope()) == ready.blocks(
                    self.scope(),
                    body.basic_blocks@,
                    body.basic_blocks@.len(),
                ),
                ready.blocks(self.scope(), body.basic_blocks@, block as nat) == Ok::<
                    Analysis,
                    Malformed,
                >(self@),
            decreases body.basic_blocks.len() - block,
        {
            let ghost before = self@;
            match self.visit_basic_block_data(block, &body.basic_blocks[block]) {
                Ok(()) => {},
                Err(e) => {
                    proof {
                        assert(before.block(self.scope(), block, body.basic_blocks@[block as int])
                            == Err::<Analysis, Malformed>(e));
                        assert(ready.blocks(self.scope(), body.basic_blocks@, block as nat + 1)
                            == Err::<Analysis, Malformed>(e));
                        lemma_blocks_fail(
                            ready,
                            self.scope(),
                            body.basic_blocks@,
                            block as nat + 1,
                            body.basic_blocks@.len(),
                        );
                    }
                    return Err(e);
                },
            }
            block += 1;
        }
        Ok(())
    }

    /// Declares location `local`: forms its stack and keeps its
    /// declaration.
    pub fn visit_local_decl(&mut self, local: u32, local_decl: &LocalDecl)
        requires
            old(self).wf(),
        ensures
            final(self).wf(),
            final(self).scope() == old(self).scope(),
            old(self)@.findings.is_prefix_of(final(self)@.findings),
            final(self)@ == old(self)@.declare(local, *local_decl),
    {
        self.stacked_borrows.register(local);
        self.local_declarations.insert(local, *local_decl);
    }

    /// The locations of the mutable operands among `args`, in the order of
    /// the arguments.
    pub fn mutable_arguments(&self, args: &Vec<Operand>) -> (mutable: Vec<u32>)
        ensures
            mutable@ == self@.mutable_locals(args@, args@.len()),
    {
        let mut mutable: Vec<u32> = Vec::new();
        let mut i: usize = 0;
        while i < args.len()
            invariant
                i <= args.len(),
                mutable@ == self@.mutable_locals(args@, i as nat),
            decreases args.len() - i,
        {
            if self.is_mutable(&args[i]) {
                mutable.push(self.operand_as_u32(&args[i]));
            }
            i += 1;
        }
        mutable
    }

    /// Reads the operands in order.
    pub fn visit_operands(&mut self, operands: &Vec<Operand>, location: Location)
        requires
            old(self).wf(),
        ensures
            final(self).wf(),
            final(self).scope() == old(self).scope(),
            old(self)@.findings.is_prefix_of(final(self)@.findings),
            final(self)@ == old(self)@.operands(operands@, location, operands@.len()),
    {
        let mut i: usize = 0;
        while i < operands.len()
            invariant
                self.wf(),
                self.scope() == old(self).scope(),
                old(self)@.findings.is_prefix_of(self@.findings),
                i <= operands.len(),
                self@ == old(self)@.operands(operands@, location, i as nat),
            decreases operands.len() - i,
        {
            self.visit_operand(&operands[i], location);
            i += 1;
        }
    }

    /// Checks the arguments of a call. Where two or more of them are
    /// mutable, registers the first two of these in the points-to graph,
    /// if they were not, and reports `AliasedMutableArguments` where they
    /// may alias.
    pub fn check_arguments(&mut self, args: &Vec<Operand>, location: Location)
        requires
            old(self).wf(),
        ensures
            final(self).wf(),
            final(self).scope() == old(self).scope(),
            old(self)@.findings.is_prefix_of(final(self)@.findings),
            final(self)@ == old(self)@.alias_check(args@, location),
    {
        let mutable_args = self.mutable_arguments(args);
        if mutable_args.len() >= 2 {
            let (a, b) = (mutable_args[0], mutable_args[1]);
            self.alias_graph.ensure(a);
            self.alias_graph.ensure(b);
            match self.alias_graph.are_alias(a, b) {
                Ok(true) => self.report(
                    FindingKind::AliasedMutableArguments,
                    location,
                    Detail::Locals(a, b),
                ),
                _ => {},
            }
        }
    }

    /// Stores the result of a call in `destination`: a direct destination
    /// gets a fresh `Unique` frame and a fresh value in the graph; then
    /// the destination is written through its tag.
    pub fn visit_destination(&mut self, destination: &Place, location: Location)
        requires
            old(self).wf(),
        ensures
            final(self).wf(),
            final(self).scope() == old(self).scope(),
            old(self)@.findings.is_prefix_of(final(self)@.findings),
            final(self)@ == old(self)@.returned(*destination, location),
    {
        let tag = self.place_to_tag(destination);
        if !destination.is_indirect() {
            self.stacked_borrows.new_ref(destination.local, tag, Permission::Unique);
            self.alias_graph.constant(destination.local);
        }
        self.write_through(tag, location);
    }

    /// Walks one terminator. A call reads its arguments; reports
    /// `AliasedMutableArguments` where the first two mutable ones may
    /// alias; enters the callee in a frame of its own where the target is
    /// known and the depth is not used up, and takes over its findings;
    /// and then stores the result in the destination. An assertion reads
    /// its condition, a return does nothing, and any other terminator is
    /// reported as `UnsupportedConstruct`. Fails where the frame of the
    /// callee fails.
    pub fn visit_terminator(&mut self, terminator: &Terminator, location: Location) -> (r: Result<
        (),
        Malformed,
    >)
        requires
            old(self).wf(),
        ensures
            final(self).wf(),
            final(self).scope() == old(self).scope(),
            old(self)@.findings.is_prefix_of(final(self)@.findings),
            match r {
                Ok(()) => old(self)@.terminator(old(self).scope(), *terminator, location) == Ok::<
                    Analysis,
                    Malformed,
                >(final(self)@),
                Err(e) => old(self)@.terminator(old(self).scope(), *terminator, location) == Err::<
                    Analysis,
                    Malformed,
                >(e),
            },
        decreases old(self).scope().depth, 1nat,
    {
        match terminator {
            Terminator::Call { target, args, destination } => {
                self.visit_operands(args, location);
                self.check_arguments(args, location);

                // Visit inside function
                match target {
                    CallTarget::Resolved(function) => {
                        if self.depth > 0 {
                            let mut visitor = MirVisitor::with_depth(
                                self.program,
                                copy_operands(args),
                                self.depth - 1,
                            );
                            match visitor.visit_body(*function) {
                                Ok(()) => {
                                    let mut found = visitor.findings;
                                    self.findings.append(&mut found);
                                },
                                Err(e) => {
                                    return Err(e);
                                },
                            }
                        }
                    },
                    CallTarget::Unresolved => {},
                }

                // Add result variable to stack
                self.visit_destination(destination, location);
                Ok(())
            },
            Terminator::Assert { cond } => {
                self.visit_operand(cond, location);
                Ok(())
            },
            Terminator::Return => Ok(()),
            Terminator::Other => {
                self.report(FindingKind::UnsupportedConstruct, location, Detail::Terminator);
                Ok(())
            },
        }
    }

    /// Adds a finding.
    pub(crate) fn report(&mut self, kind: FindingKind, location: Location, detail: Detail)
        requires
            old(self).wf(),
        ensures
            final(self).wf(),
            final(self).scope() == old(self).scope(),
            old(self)@.findings.is_prefix_of(final(self)@.findings),
            final(self)@ == old(self)@.report(kind, location, detail),
    {
        self.findings.push(Finding { kind, location, detail });
    }
}

} // verus!
