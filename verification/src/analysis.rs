//! What the walk over a function body computes, as mathematics: the state of
//! one frame, and for each construct the state that follows from it.

use crate::findings::Detail;
use crate::findings::Finding;
use crate::findings::FindingKind;
use crate::findings::Location;
use crate::findings::Malformed;
use crate::mir::BasicBlockData;
use crate::mir::BorrowKind;
use crate::mir::CallTarget;
use crate::mir::LocalDecl;
use crate::mir::Operand;
use crate::mir::Place;
use crate::mir::Program;
use crate::mir::Rvalue;
use crate::mir::Statement;
use crate::mir::Terminator;
use crate::points_to::lemma_common_target;
use crate::points_to::AliasGraph;
use crate::stacked_borrows::BorrowState;
use crate::stacked_borrows::Permission;
use crate::stacked_borrows::Tag;
use vstd::prelude::*;

verus! {

/// What a frame is given and does not change: the program in which calls
/// are resolved, the function that the frame analyses, how many calls deep
/// the analysis may still enter, and the arguments of the call that
/// opened the frame.
pub struct Scope {
    pub program: Program,
    pub function: usize,
    pub depth: usize,
    pub args: Seq<Operand>,
}

/// The state of one frame: the declared locations, the borrow stacks, the
/// points-to graph, and the findings so far, oldest first.
pub struct Analysis {
    pub locals: Map<u32, LocalDecl>,
    pub borrows: BorrowState,
    pub aliases: AliasGraph,
    pub findings: Seq<Finding>,
}

/// The tag of the alias that a place names.
pub open spec fn tag_of(place: Place) -> Tag {
    Tag::Tagged(place.local)
}

/// The location that an operand names; 0 for a constant.
pub open spec fn local_of(operand: Operand) -> u32 {
    match operand {
        Operand::Move(place) => place.local,
        Operand::Copy(place) => place.local,
        Operand::Constant => 0,
    }
}

/// The largest number of parameters that a frame seeds: parameter `i` is
/// location `i`, and locations are numbered by `u32`.
pub open spec fn seeded(args: nat) -> nat {
    if args <= u32::MAX {
        args
    } else {
        u32::MAX as nat
    }
}

impl Analysis {
    /// The state of a frame before anything was declared.
    pub open spec fn empty() -> Analysis {
        Analysis {
            locals: Map::empty(),
            borrows: BorrowState::empty(),
            aliases: AliasGraph::empty(),
            findings: Seq::empty(),
        }
    }

    /// The state with one more finding.
    pub open spec fn report(self, kind: FindingKind, location: Location, detail: Detail) -> Analysis {
        Analysis { findings: self.findings.push(Finding { kind, location, detail }), ..self }
    }

    /// A write through `tag` at `location`: the automaton pops what the
    /// write invalidates; where it does not find the tag, `TagNotFound` is
    /// reported.
    pub open spec fn write_through(self, tag: Tag, location: Location) -> Analysis {
        let next = Analysis { borrows: self.borrows.used(tag), ..self };
        if self.borrows.grants(tag) {
            next
        } else {
            next.report(FindingKind::TagNotFound, location, Detail::Tag(tag))
        }
    }

    /// A read through `tag` at `location`, in the same way.
    pub open spec fn read_through(self, tag: Tag, location: Location) -> Analysis {
        let next = Analysis { borrows: self.borrows.read(tag), ..self };
        if self.borrows.grants(tag) {
            next
        } else {
            next.report(FindingKind::TagNotFound, location, Detail::Tag(tag))
        }
    }

    /// A new reference `(tag, permission)` on the stack of `location`.
    pub open spec fn new_ref(self, location: u32, tag: Tag, permission: Permission) -> Analysis {
        Analysis { borrows: self.borrows.pushed(location, tag, permission), ..self }
    }

    /// `local` holds a fresh value that derives from nothing.
    pub open spec fn fresh(self, local: u32) -> Analysis {
        Analysis { aliases: self.aliases.with_fresh(local), ..self }
    }

    /// `local` may alias or derive from `target`.
    pub open spec fn points_to(self, local: u32, target: u32) -> Analysis {
        Analysis { aliases: self.aliases.with_edge(local, target), ..self }
    }

    /// An operand is read: an indirect access is a write through the tag of
    /// its place; a direct access and a constant do nothing.
    pub open spec fn operand(self, operand: Operand, location: Location) -> Analysis {
        match operand {
            Operand::Move(place) => if place.indirect {
                self.write_through(tag_of(place), location)
            } else {
                self
            },
            Operand::Copy(place) => if place.indirect {
                self.write_through(tag_of(place), location)
            } else {
                self
            },
            Operand::Constant => self,
        }
    }

    /// The first `n` operands are read, in order.
    pub open spec fn operands(self, operands: Seq<Operand>, location: Location, n: nat) -> Analysis
        decreases n,
    {
        if n == 0 {
            self
        } else {
            self.operands(operands, location, (n - 1) as nat).operand(operands[n - 1], location)
        }
    }

    /// A destination receives a value: a direct destination gets a fresh
    /// `Unique` frame on its own stack; then, direct or not, the
    /// destination is written through `tag`.
    pub open spec fn destination(self, place: Place, tag: Tag, location: Location) -> Analysis {
        let pushed = if place.indirect {
            self
        } else {
            self.new_ref(place.local, tag, Permission::Unique)
        };
        pushed.write_through(tag, location)
    }

    /// A reference or raw pointer to `source` is stored in `place`: the
    /// source is accessed, by a read for a shared reference and by a write
    /// otherwise; the new frame goes on the stack of the location that the
    /// tag of the source refers to; and `place` points to `source`.
    pub open spec fn borrow(
        self,
        place: Place,
        source: Place,
        permission: Permission,
        location: Location,
    ) -> Analysis {
        let accessed = if permission is SharedReadOnly {
            self.read_through(tag_of(source), location)
        } else {
            self.write_through(tag_of(source), location)
        };
        accessed.new_ref(
            accessed.borrows.location_of(tag_of(source)),
            tag_of(place),
            permission,
        ).points_to(place.local, source.local)
    }

    /// An assignment of `rvalue` to `place`.
    pub open spec fn assign(self, place: Place, rvalue: Rvalue, location: Location) -> Analysis {
        let tag = tag_of(place);
        match rvalue {
            Rvalue::Use(operand) => {
                let stored = self.operand(operand, location).destination(place, tag, location);
                let severed = if place.indirect {
                    stored
                } else {
                    stored.fresh(place.local)
                };
                if operand is Move {
                    severed.points_to(place.local, local_of(operand))
                } else {
                    severed
                }
            },
            Rvalue::Ref(kind, source) => match kind {
                BorrowKind::Shared => self.borrow(place, source, Permission::SharedReadOnly, location),
                BorrowKind::Mut => self.borrow(place, source, Permission::Unique, location),
            },
            Rvalue::AddressOf(source) => self.borrow(
                place,
                source,
                Permission::SharedReadWrite,
                location,
            ),
            Rvalue::Aggregate(operands) => self.operands(
                operands@,
                location,
                operands@.len(),
            ).destination(place, tag, location).fresh(place.local),
            Rvalue::Cast(operand) => self.operand(operand, location).destination(
                place,
                tag,
                location,
            ).fresh(place.local),
            Rvalue::BinaryOp(left, right) => self.operand(left, location).operand(
                right,
                location,
            ).destination(place, tag, location).fresh(place.local),
            Rvalue::UnaryOp(operand) => self.operand(operand, location).destination(
                place,
                tag,
                location,
            ).fresh(place.local),
            Rvalue::NullaryOp => self.destination(place, tag, location).fresh(place.local),
            Rvalue::ShallowInitBox(operand) => self.points_to(place.local, local_of(operand)),
            Rvalue::Discriminant(_) => self.destination(place, tag, location).fresh(place.local),
            Rvalue::Other => self.report(
                FindingKind::UnsupportedConstruct,
                location,
                Detail::Rvalue,
            ),
        }
    }

    /// One statement. The start and the end of a location's storage change
    /// nothing.
    pub open spec fn statement(self, statement: Statement, location: Location) -> Analysis {
        match statement {
            Statement::Assign(place, rvalue) => self.assign(place, rvalue, location),
            Statement::SetDiscriminant(place) => self.destination(
                place,
                tag_of(place),
                location,
            ).fresh(place.local),
            Statement::StorageLive(_) => self,
            Statement::StorageDead(_) => self,
            Statement::Other => self.report(
                FindingKind::UnsupportedConstruct,
                location,
                Detail::Statement,
            ),
        }
    }

    /// The first `n` statements of a block, in order; statement `i` stands
    /// at index `i` of the block.
    pub open spec fn statements(
        self,
        statements: Seq<Statement>,
        function: usize,
        block: usize,
        n: nat,
    ) -> Analysis
        decreases n,
    {
        if n == 0 {
            self
        } else {
            self.statements(statements, function, block, (n - 1) as nat).statement(
                statements[n - 1],
                Location { function, block, statement_index: (n - 1) as usize },
            )
        }
    }

    /// The operand is a direct access to a location that is declared
    /// mutable.
    pub open spec fn mutable(self, operand: Operand) -> bool {
        match operand {
            Operand::Move(place) => !place.indirect && self.locals.contains_key(place.local)
                && self.locals[place.local].mutable,
            Operand::Copy(place) => !place.indirect && self.locals.contains_key(place.local)
                && self.locals[place.local].mutable,
            Operand::Constant => false,
        }
    }

    /// The locations of the mutable operands among the first `n` arguments,
    /// in the order of the arguments.
    pub open spec fn mutable_locals(self, args: Seq<Operand>, n: nat) -> Seq<u32>
        decreases n,
    {
        if n == 0 {
            Seq::empty()
        } else if self.mutable(args[n - 1]) {
            self.mutable_locals(args, (n - 1) as nat).push(local_of(args[n - 1]))
        } else {
            self.mutable_locals(args, (n - 1) as nat)
        }
    }

    /// The check of a call's arguments. Where fewer than two of them are
    /// mutable, nothing happens. Otherwise the first two mutable locations
    /// are registered in the points-to graph, if they were not, and where
    /// they may alias, `AliasedMutableArguments` is reported.
    pub open spec fn alias_check(self, args: Seq<Operand>, location: Location) -> Analysis {
        let mutable = self.mutable_locals(args, args.len());
        if mutable.len() >= 2 {
            let registered = Analysis {
                aliases: self.aliases.with_node(mutable[0]).with_node(mutable[1]),
                ..self
            };
            if registered.aliases.may_alias(mutable[0], mutable[1]) {
                registered.report(
                    FindingKind::AliasedMutableArguments,
                    location,
                    Detail::Locals(mutable[0], mutable[1]),
                )
            } else {
                registered
            }
        } else {
            self
        }
    }

    /// The findings of a callee's frame are taken over, behind those that
    /// are there.
    pub open spec fn merged(self, findings: Seq<Finding>) -> Analysis {
        Analysis { findings: self.findings + findings, ..self }
    }

    /// The destination of a call receives the result: a direct destination
    /// gets a fresh `Unique` frame and a fresh value in the graph; then,
    /// direct or not, the destination is written through its tag.
    pub open spec fn returned(self, destination: Place, location: Location) -> Analysis {
        let tag = tag_of(destination);
        let stored = if destination.indirect {
            self
        } else {
            self.new_ref(destination.local, tag, Permission::Unique).fresh(destination.local)
        };
        stored.write_through(tag, location)
    }

    /// One terminator. A call reads its arguments, checks them for mutable
    /// aliases, enters the callee where the target is known and the depth
    /// allows it, and then stores the result. It fails where the frame of
    /// the callee fails.
    pub open spec fn terminator(
        self,
        scope: Scope,
        terminator: Terminator,
        location: Location,
    ) -> Result<Analysis, Malformed>
        decreases scope.depth, 1nat, 0nat,
    {
        match terminator {
            Terminator::Call { target, args, destination } => {
                let checked = self.operands(args@, location, args@.len()).alias_check(
                    args@,
                    location,
                );
                match target {
                    CallTarget::Resolved(function) => if scope.depth > 0 {
                        match frame(
                            scope.program,
                            function,
                            args@,
                            (scope.depth - 1) as usize,
                        ) {
                            Ok(findings) => Ok(
                                checked.merged(findings).returned(destination, location),
                            ),
                            Err(e) => Err(e),
                        }
                    } else {
                        Ok(checked.returned(destination, location))
                    },
                    CallTarget::Unresolved => Ok(checked.returned(destination, location)),
                }
            },
            Terminator::Assert { cond } => Ok(self.operand(cond, location)),
            Terminator::Return => Ok(self),
            Terminator::Other => Ok(
                self.report(FindingKind::UnsupportedConstruct, location, Detail::Terminator),
            ),
        }
    }

    /// One basic block: its statements in sequence, then its terminator,
    /// if it has one.
    pub open spec fn block(self, scope: Scope, block: usize, data: BasicBlockData) -> Result<
        Analysis,
        Malformed,
    >
        decreases scope.depth, 2nat, 0nat,
    {
        let done = self.statements(
            data.statements@,
            scope.function,
            block,
            data.statements@.len(),
        );
        match data.terminator {
            Some(terminator) => done.terminator(
                scope,
                terminator,
                Location {
                    function: scope.function,
                    block,
                    statement_index: data.statements@.len() as usize,
                },
            ),
            None => Ok(done),
        }
    }

    /// The first `n` blocks of a body, in the order of their layout, each
    /// once; the walk ends with the first block that fails.
    pub open spec fn blocks(self, scope: Scope, blocks: Seq<BasicBlockData>, n: nat) -> Result<
        Analysis,
        Malformed,
    >
        decreases scope.depth, 3nat, n,
    {
        if n == 0 {
            Ok(self)
        } else {
            match self.blocks(scope, blocks, (n - 1) as nat) {
                Ok(before) => before.block(scope, (n - 1) as usize, blocks[n - 1]),
                Err(e) => Err(e),
            }
        }
    }

    /// One location is declared: it has a stack, and its declaration is
    /// known.
    pub open spec fn declare(self, local: u32, decl: LocalDecl) -> Analysis {
        Analysis {
            locals: self.locals.insert(local, decl),
            borrows: self.borrows.registered(local),
            ..self
        }
    }

    /// The first `n` declarations of a body: declaration `i` is that of
    /// location `i`.
    pub open spec fn declarations(self, decls: Seq<LocalDecl>, n: nat) -> Analysis
        decreases n,
    {
        if n == 0 {
            self
        } else {
            self.declarations(decls, (n - 1) as nat).declare((n - 1) as u32, decls[n - 1])
        }
    }

    /// The parameters 1 to `n` are seeded: each has a `Unique` frame on its
    /// own stack and a node without edges in the graph.
    pub open spec fn parameters(self, n: nat) -> Analysis
        decreases n,
    {
        if n == 0 {
            self
        } else {
            self.parameters((n - 1) as nat).new_ref(
                n as u32,
                Tag::Tagged(n as u32),
                Permission::Unique,
            ).fresh(n as u32)
        }
    }

    /// The walk over the body of the scope's function: the declarations
    /// replace those that were known, the parameters are seeded, and the
    /// blocks are walked. It fails, naming the function, where the program
    /// does not hold the function or its body is not well formed.
    pub open spec fn body(self, scope: Scope) -> Result<Analysis, Malformed>
        decreases scope.depth, 4nat, 0nat,
    {
        if scope.function < scope.program.bodies@.len() && scope.program.bodies@[scope.function as int].is_well_formed(
        scope.program.bodies.len()) {
            let body = scope.program.bodies@[scope.function as int];
            (Analysis { locals: Map::empty(), ..self }).declarations(
                body.local_decls@,
                body.local_decls@.len(),
            ).parameters(seeded(scope.args.len())).blocks(
                scope,
                body.basic_blocks@,
                body.basic_blocks@.len(),
            )
        } else {
            Err(Malformed { function: scope.function })
        }
    }
}

/// A call whose first two mutable arguments point to one location is
/// reported, once: the check adds exactly one finding, which names the two
/// arguments.
pub proof fn lemma_common_target_reported(
    state: Analysis,
    args: Seq<Operand>,
    location: Location,
    target: u32,
)
    requires
        state.mutable_locals(args, args.len()).len() >= 2,
        state.aliases.edges.contains((state.mutable_locals(args, args.len())[0], target)),
        state.aliases.edges.contains((state.mutable_locals(args, args.len())[1], target)),
    ensures
        state.alias_check(args, location).findings == state.findings.push(
            Finding {
                kind: FindingKind::AliasedMutableArguments,
                location,
                detail: Detail::Locals(
                    state.mutable_locals(args, args.len())[0],
                    state.mutable_locals(args, args.len())[1],
                ),
            },
        ),
{
    let mutable = state.mutable_locals(args, args.len());
    let registered = state.aliases.with_node(mutable[0]).with_node(mutable[1]);
    lemma_common_target(registered, mutable[0], mutable[1], target);
}

/// The findings of a frame of its own for `function`, opened by a call with
/// `args`, that may enter calls `depth` deep; or the function whose frame
/// failed.
pub open spec fn frame(program: Program, function: usize, args: Seq<Operand>, depth: usize) -> Result<
    Seq<Finding>,
    Malformed,
>
    decreases depth, 5nat, 0nat,
{
    match Analysis::empty().body(Scope { program, function, depth, args }) {
        Ok(end) => Ok(end.findings),
        Err(e) => Err(e),
    }
}

} // verus!
