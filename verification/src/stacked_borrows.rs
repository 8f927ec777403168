//! The borrow-stack automaton: for each storage location a stack of the
//! rights under which it may be accessed.

use std::collections::HashMap;
use vstd::prelude::*;

verus! {

broadcast use vstd::std_specs::hash::group_hash_axioms;

/// The right to access a storage location through one particular alias. A
/// tag is named after the location of the variable that holds the alias.
#[derive(Clone, Copy, Debug, PartialEq, Eq, Hash)]
pub enum Tag {
    Tagged(u32),
}

impl Tag {
    pub open spec fn spec_id(&self) -> u32 {
        match *self {
            Tag::Tagged(id) => id,
        }
    }

    /// The location that the tag is named after.
    #[verifier::when_used_as_spec(spec_id)]
    pub fn id(&self) -> (id: u32)
        ensures
            id == self.spec_id(),
    {
        match self {
            Tag::Tagged(id) => *id,
        }
    }
}

/// The class of access that a tag grants.
#[derive(Clone, Copy, Debug, PartialEq, Eq, Hash)]
pub enum Permission {
    /// Exclusive read and write.
    Unique,
    /// Read only, beside other readers.
    SharedReadOnly,
    /// Read and write in the manner of a raw pointer, beside its like.
    SharedReadWrite,
}

impl Permission {
    pub open spec fn spec_is_unique(&self) -> bool {
        *self is Unique
    }

    #[verifier::when_used_as_spec(spec_is_unique)]
    pub fn is_unique(&self) -> (unique: bool)
        ensures
            unique == self.spec_is_unique(),
    {
        match self {
            Permission::Unique => true,
            _ => false,
        }
    }
}

/// One entry of a borrow stack.
#[derive(Clone, Copy, Debug, PartialEq, Eq, Hash)]
pub struct Frame {
    pub tag: Tag,
    pub permission: Permission,
}

/// Some frame of the stack carries `tag`.
pub open spec fn has_tag(stack: Seq<Frame>, tag: Tag) -> bool {
    exists|i: int| 0 <= i < stack.len() && (#[trigger] stack[i]).tag == tag
}

/// The index of the topmost frame that carries `tag`, or -1 when no frame
/// does. The bottom of the stack has index 0.
pub open spec fn top_of(stack: Seq<Frame>, tag: Tag) -> int
    decreases stack.len(),
{
    if stack.len() == 0 {
        -1
    } else if stack.last().tag == tag {
        stack.len() - 1
    } else {
        top_of(stack.drop_last(), tag)
    }
}

/// A frame that a read leaves in place above the frame that was read through.
pub open spec fn survives_read() -> spec_fn(Frame) -> bool {
    |frame: Frame| !frame.permission.is_unique()
}

/// The stack after a write through `tag`: every frame above the topmost
/// frame of `tag` is gone. A stack without `tag` stays as it is.
pub open spec fn after_use(stack: Seq<Frame>, tag: Tag) -> Seq<Frame> {
    if has_tag(stack, tag) {
        stack.take(top_of(stack, tag) + 1)
    } else {
        stack
    }
}

/// The stack after a read through `tag`: of the frames above the topmost
/// frame of `tag`, the `Unique` ones are gone and the others stay in their
/// order. A stack without `tag` stays as it is.
pub open spec fn after_read(stack: Seq<Frame>, tag: Tag) -> Seq<Frame> {
    if has_tag(stack, tag) {
        stack.take(top_of(stack, tag) + 1) + stack.skip(top_of(stack, tag) + 1).filter(
            survives_read(),
        )
    } else {
        stack
    }
}

/// What `top_of` finds: a frame of `tag` with no frame of `tag` above it.
pub proof fn lemma_top_of(stack: Seq<Frame>, tag: Tag)
    ensures
        -1 <= top_of(stack, tag) < stack.len(),
        has_tag(stack, tag) <==> top_of(stack, tag) >= 0,
        top_of(stack, tag) >= 0 ==> stack[top_of(stack, tag)].tag == tag,
        forall|i: int| top_of(stack, tag) < i < stack.len() ==> (#[trigger] stack[i]).tag != tag,
    decreases stack.len(),
{
    if stack.len() == 0 {
    } else if stack.last().tag == tag {
        assert(stack[stack.len() - 1].tag == tag);
    } else {
        let rest = stack.drop_last();
        lemma_top_of(rest, tag);
        if top_of(rest, tag) >= 0 {
            assert(stack[top_of(rest, tag)] == rest[top_of(rest, tag)]);
        }
        if has_tag(stack, tag) {
            let i = choose|i: int| 0 <= i < stack.len() && (#[trigger] stack[i]).tag == tag;
            assert(rest[i].tag == tag);
        }
        assert forall|i: int| top_of(stack, tag) < i < stack.len() implies (
        #[trigger] stack[i]).tag != tag by {
            if i < rest.len() {
                assert(rest[i] == stack[i]);
            }
        }
    }
}

/// The state of the automaton: the stack of each location that has one, and
/// for each tag that was ever pushed the location it was last pushed on.
pub struct BorrowState {
    pub stacks: Map<u32, Seq<Frame>>,
    pub homes: Map<u32, u32>,
}

impl BorrowState {
    /// The state without stacks.
    pub open spec fn empty() -> BorrowState {
        BorrowState { stacks: Map::empty(), homes: Map::empty() }
    }

    /// The stack of `location`, bottom first; empty where none was formed.
    pub open spec fn stack_of(self, location: u32) -> Seq<Frame> {
        if self.stacks.contains_key(location) {
            self.stacks[location]
        } else {
            Seq::empty()
        }
    }

    /// The location that `tag` refers to: the one it was last pushed on, or,
    /// for a tag that was never pushed, the location it is named after.
    pub open spec fn location_of(self, tag: Tag) -> u32 {
        if self.homes.contains_key(tag.id()) {
            self.homes[tag.id()]
        } else {
            tag.id()
        }
    }

    /// The state after `location` was declared: it has a stack, an empty
    /// one unless it had one before.
    pub open spec fn registered(self, location: u32) -> BorrowState {
        BorrowState {
            stacks: self.stacks.insert(location, self.stack_of(location)),
            homes: self.homes,
        }
    }

    /// The state after a new reference: the frame is on top of the stack of
    /// `location`, and `tag` refers to `location`.
    pub open spec fn pushed(self, location: u32, tag: Tag, permission: Permission) -> BorrowState {
        BorrowState {
            stacks: self.stacks.insert(
                location,
                self.stack_of(location).push(Frame { tag, permission }),
            ),
            homes: self.homes.insert(tag.id(), location),
        }
    }

    /// `tag` is on the stack of the location that it refers to: an access
    /// through it is in order.
    pub open spec fn grants(self, tag: Tag) -> bool {
        has_tag(self.stack_of(self.location_of(tag)), tag)
    }

    /// The state after a write through `tag`.
    pub open spec fn used(self, tag: Tag) -> BorrowState {
        if self.grants(tag) {
            BorrowState {
                stacks: self.stacks.insert(
                    self.location_of(tag),
                    after_use(self.stack_of(self.location_of(tag)), tag),
                ),
                homes: self.homes,
            }
        } else {
            self
        }
    }

    /// The state after a read through `tag`.
    pub open spec fn read(self, tag: Tag) -> BorrowState {
        if self.grants(tag) {
            BorrowState {
                stacks: self.stacks.insert(
                    self.location_of(tag),
                    after_read(self.stack_of(self.location_of(tag)), tag),
                ),
                homes: self.homes,
            }
        } else {
            self
        }
    }
}

/// A tag that was just pushed grants access: a write or a read through it
/// finds it on top and changes nothing.
pub proof fn lemma_new_ref_grants(state: BorrowState, location: u32, tag: Tag, permission: Permission)
    ensures
        state.pushed(location, tag, permission).grants(tag),
        state.pushed(location, tag, permission).used(tag) == state.pushed(location, tag, permission),
        state.pushed(location, tag, permission).read(tag) == state.pushed(location, tag, permission),
{
    let next = state.pushed(location, tag, permission);
    let stack = next.stack_of(location);
    assert(next.location_of(tag) == location);
    assert(stack.last().tag == tag);
    assert(stack[stack.len() - 1].tag == tag);
    assert(top_of(stack, tag) == stack.len() - 1);
    assert(stack.take(stack.len() as int) =~= stack);
    assert(stack.skip(stack.len() as int) =~= Seq::<Frame>::empty());
    assert(Seq::<Frame>::empty().filter(survives_read()) =~= Seq::<Frame>::empty()) by {
        reveal(Seq::filter);
    }
    assert(after_use(stack, tag) =~= stack);
    assert(after_read(stack, tag) =~= stack);
    assert(next.used(tag).stacks =~= next.stacks);
    assert(next.read(tag).stacks =~= next.stacks);
}

/// A new reference, whatever its tag, invalidates nothing.
pub proof fn lemma_new_ref_keeps(
    state: BorrowState,
    location: u32,
    other: Tag,
    permission: Permission,
    tag: Tag,
)
    requires
        state.grants(tag),
    ensures
        state.pushed(location, other, permission).grants(tag),
{
    let next = state.pushed(location, other, permission);
    if other == tag {
        lemma_new_ref_grants(state, location, tag, permission);
    } else {
        let home = state.location_of(tag);
        assert(next.location_of(tag) == home);
        let stack = state.stack_of(home);
        let i = choose|i: int| 0 <= i < stack.len() && (#[trigger] stack[i]).tag == tag;
        assert(next.stack_of(home)[i].tag == tag);
    }
}

/// An access through `other` leaves the stacks of the other locations as
/// they are: it invalidates no tag that refers to another location.
pub proof fn lemma_access_elsewhere(state: BorrowState, other: Tag, tag: Tag)
    requires
        state.location_of(other) != state.location_of(tag),
    ensures
        state.used(other).grants(tag) == state.grants(tag),
        state.read(other).grants(tag) == state.grants(tag),
{
}

/// A write through `other` keeps each frame at or below the topmost frame
/// of `other`: a tag with such a frame still grants access.
pub proof fn lemma_use_keeps_below(state: BorrowState, other: Tag, tag: Tag, depth: int)
    requires
        state.location_of(other) == state.location_of(tag),
        0 <= depth <= top_of(state.stack_of(state.location_of(other)), other),
        state.stack_of(state.location_of(other))[depth].tag == tag,
    ensures
        state.used(other).grants(tag),
{
    let stack = state.stack_of(state.location_of(other));
    lemma_top_of(stack, other);
    assert(after_use(stack, other)[depth].tag == tag);
}

/// A write through `other` pops each frame above the topmost frame of
/// `other`: a tag whose frames all lie there is invalidated.
pub proof fn lemma_use_evicts_above(state: BorrowState, other: Tag, tag: Tag)
    requires
        state.location_of(other) == state.location_of(tag),
        state.grants(other),
        forall|i: int|
            0 <= i <= top_of(state.stack_of(state.location_of(other)), other) ==> (
            #[trigger] state.stack_of(state.location_of(other))[i]).tag != tag,
    ensures
        !state.used(other).grants(tag),
{
    let stack = state.stack_of(state.location_of(other));
    lemma_top_of(stack, other);
    let kept = after_use(stack, other);
    if has_tag(kept, tag) {
        let i = choose|i: int| 0 <= i < kept.len() && (#[trigger] kept[i]).tag == tag;
        assert(stack[i].tag == tag);
    }
}

/// A read through `other` keeps each frame at or below the topmost frame of
/// `other`, and each frame above it that is not `Unique`: a tag with such a
/// frame still grants access.
pub proof fn lemma_read_keeps(state: BorrowState, other: Tag, tag: Tag, depth: int)
    requires
        state.location_of(other) == state.location_of(tag),
        state.grants(other),
        0 <= depth < state.stack_of(state.location_of(other)).len(),
        state.stack_of(state.location_of(other))[depth].tag == tag,
        depth <= top_of(state.stack_of(state.location_of(other)), other) || !state.stack_of(
            state.location_of(other),
        )[depth].permission.is_unique(),
    ensures
        state.read(other).grants(tag),
{
    let stack = state.stack_of(state.location_of(other));
    lemma_top_of(stack, other);
    let top = top_of(stack, other);
    let below = stack.take(top + 1);
    let above = stack.skip(top + 1);
    let kept = after_read(stack, other);
    if depth <= top {
        assert(kept[depth] == stack[depth]);
    } else {
        assert(above[depth - top - 1] == stack[depth]);
        above.lemma_filter_contains(survives_read(), depth - top - 1);
        let shared = above.filter(survives_read());
        let j = choose|j: int| 0 <= j < shared.len() && shared[j] == stack[depth];
        assert(kept[below.len() + j] == stack[depth]);
    }
}

/// A read through `other` pops the `Unique` frames above the topmost frame
/// of `other`: a tag whose frames all lie there and are all `Unique` is
/// invalidated.
pub proof fn lemma_read_evicts_unique(state: BorrowState, other: Tag, tag: Tag)
    requires
        state.location_of(other) == state.location_of(tag),
        state.grants(other),
        forall|i: int|
            0 <= i < state.stack_of(state.location_of(other)).len() && (
            #[trigger] state.stack_of(state.location_of(other))[i]).tag == tag ==> top_of(
                state.stack_of(state.location_of(other)),
                other,
            ) < i && state.stack_of(state.location_of(other))[i].permission.is_unique(),
    ensures
        !state.read(other).grants(tag),
{
    let stack = state.stack_of(state.location_of(other));
    lemma_top_of(stack, other);
    let top = top_of(stack, other);
    let below = stack.take(top + 1);
    let above = stack.skip(top + 1);
    let shared = above.filter(survives_read());
    let kept = after_read(stack, other);
    if has_tag(kept, tag) {
        let i = choose|i: int| 0 <= i < kept.len() && (#[trigger] kept[i]).tag == tag;
        if i < below.len() {
            assert(stack[i].tag == tag);
        } else {
            let j = i - below.len();
            assert(kept[i] == shared[j]);
            above.lemma_filter_pred(survives_read(), j);
            assert(shared.contains(shared[j]));
            assert(above.contains(shared[j])) by {
                lemma_filter_subset(above, shared[j]);
            }
            let k = choose|k: int| 0 <= k < above.len() && above[k] == shared[j];
            assert(stack[top + 1 + k] == above[k]);
        }
    }
}

/// What a filtered stack holds, the stack held.
proof fn lemma_filter_subset(stack: Seq<Frame>, frame: Frame)
    requires
        stack.filter(survives_read()).contains(frame),
    ensures
        stack.contains(frame),
    decreases stack.len(),
{
    reveal(Seq::filter);
    if stack.len() > 0 {
        let rest = stack.drop_last();
        if rest.filter(survives_read()).contains(frame) {
            lemma_filter_subset(rest, frame);
            let k = choose|k: int| 0 <= k < rest.len() && rest[k] == frame;
            assert(stack[k] == frame);
        } else {
            let kept = stack.filter(survives_read());
            let i = choose|i: int| 0 <= i < kept.len() && kept[i] == frame;
            if survives_read()(stack.last()) {
                if i < kept.len() - 1 {
                    assert(rest.filter(survives_read())[i] == frame);
                }
                assert(stack[stack.len() - 1] == frame);
            }
        }
    }
}

/// No operation empties a stack: once a location has a frame, it keeps
/// one. No operation forgets a tag either: a tag that was ever pushed keeps
/// a location that it refers to.
pub proof fn lemma_never_emptied(
    state: BorrowState,
    location: u32,
    other: u32,
    tag: Tag,
    permission: Permission,
)
    requires
        state.stack_of(location).len() > 0,
    ensures
        state.registered(other).stack_of(location).len() > 0,
        state.pushed(other, tag, permission).stack_of(location).len() > 0,
        state.used(tag).stack_of(location).len() > 0,
        state.read(tag).stack_of(location).len() > 0,
        state.homes.dom().subset_of(state.registered(other).homes.dom()),
        state.homes.dom().subset_of(state.pushed(other, tag, permission).homes.dom()),
        state.homes.dom().subset_of(state.used(tag).homes.dom()),
        state.homes.dom().subset_of(state.read(tag).homes.dom()),
{
    let stack = state.stack_of(state.location_of(tag));
    lemma_top_of(stack, tag);
}

/// Shared readers coexist. Let `first` and then `second` be pushed as
/// `SharedReadOnly` on one location. A read through either finds its frame
/// and pops nothing, so any number of reads through the two, in any order,
/// find their frames.
pub proof fn lemma_shared_reads_coexist(state: BorrowState, location: u32, first: Tag, second: Tag)
    ensures
        ({
            let both = state.pushed(location, first, Permission::SharedReadOnly).pushed(
                location,
                second,
                Permission::SharedReadOnly,
            );
            &&& both.grants(first)
            &&& both.grants(second)
            &&& both.read(first) == both
            &&& both.read(second) == both
        }),
{
    let one = state.pushed(location, first, Permission::SharedReadOnly);
    let both = one.pushed(location, second, Permission::SharedReadOnly);
    let stack = both.stack_of(location);
    let lower = one.stack_of(location);
    let top_frame = Frame { tag: second, permission: Permission::SharedReadOnly };
    lemma_new_ref_grants(one, location, second, Permission::SharedReadOnly);
    lemma_new_ref_grants(state, location, first, Permission::SharedReadOnly);
    lemma_new_ref_keeps(one, location, second, Permission::SharedReadOnly, first);
    assert(both.location_of(first) == location);
    assert(stack.drop_last() =~= lower);
    assert(lower.last().tag == first);
    assert(stack.last() == top_frame);
    if first != second {
        assert(top_of(lower, first) == lower.len() - 1);
        assert(top_of(stack, first) == top_of(stack.drop_last(), first));
        assert(stack.skip(stack.len() - 1) =~= Seq::<Frame>::empty().push(top_frame));
        lemma_filter_push(Seq::<Frame>::empty(), top_frame);
        assert(Seq::<Frame>::empty().filter(survives_read()) =~= Seq::<Frame>::empty()) by {
            reveal(Seq::filter);
        }
        assert(after_read(stack, first) =~= stack);
        assert(both.read(first).stacks =~= both.stacks);
    }
}

/// The order of invalidation. Let `first` and then `second`, two different
/// tags, be pushed as `Unique` on one location whose stack did not hold
/// `second` before. A write through `first` then pops the frame of
/// `second`, and a write through `second` after that finds no frame and
/// changes nothing.
pub proof fn lemma_invalidation_order(state: BorrowState, location: u32, first: Tag, second: Tag)
    requires
        first != second,
        !has_tag(state.stack_of(location), second),
    ensures
        ({
            let both = state.pushed(location, first, Permission::Unique).pushed(
                location,
                second,
                Permission::Unique,
            );
            &&& both.grants(first)
            &&& both.grants(second)
            &&& both.used(first).stack_of(location) == state.stack_of(location).push(
                Frame { tag: first, permission: Permission::Unique },
            )
            &&& !both.used(first).grants(second)
            &&& both.used(first).used(second) == both.used(first)
        }),
{
    let one = state.pushed(location, first, Permission::Unique);
    let both = one.pushed(location, second, Permission::Unique);
    let stack = both.stack_of(location);
    let base = state.stack_of(location);
    assert(both.location_of(first) == location);
    assert(both.location_of(second) == location);
    assert(stack[stack.len() - 1].tag == second);
    assert(stack[stack.len() - 2].tag == first);
    let lower = one.stack_of(location);
    assert(stack.drop_last() =~= lower);
    assert(lower.last().tag == first);
    assert(top_of(lower, first) == lower.len() - 1);
    assert(top_of(stack, first) == top_of(stack.drop_last(), first));
    assert(top_of(stack, first) == stack.len() - 2);
    assert(after_use(stack, first) =~= base.push(
        Frame { tag: first, permission: Permission::Unique },
    ));
    let kept = after_use(stack, first);
    if has_tag(kept, second) {
        let i = choose|i: int| 0 <= i < kept.len() && (#[trigger] kept[i]).tag == second;
        assert(base[i].tag == second);
    }
}

/// The index of the topmost frame of `tag` in `stack`.
fn find_top(stack: &Vec<Frame>, tag: Tag) -> (top: Option<usize>)
    ensures
        match top {
            Some(i) => has_tag(stack@, tag) && i == top_of(stack@, tag) && i < stack.len(),
            None => !has_tag(stack@, tag),
        },
{
    let mut i: usize = stack.len();
    assert(stack@.take(i as int) =~= stack@);
    while i > 0
        invariant
            i <= stack.len(),
            top_of(stack@, tag) == top_of(stack@.take(i as int), tag),
        decreases i,
    {
        assert(stack@.take(i as int).last() == stack@[i - 1]);
        assert(stack@.take(i as int).drop_last() =~= stack@.take(i - 1));
        if stack[i - 1].tag.id() == tag.id() {
            proof {
                lemma_top_of(stack@, tag);
            }
            return Some(i - 1);
        }
        i -= 1;
    }
    proof {
        lemma_top_of(stack@, tag);
    }
    None
}

/// The frames of `stack` below index `len`.
fn bottom(stack: &Vec<Frame>, len: usize) -> (kept: Vec<Frame>)
    requires
        len <= stack.len(),
    ensures
        kept@ == stack@.take(len as int),
{
    let mut kept: Vec<Frame> = Vec::new();
    let mut i: usize = 0;
    while i < len
        invariant
            i <= len <= stack.len(),
            kept@ == stack@.take(i as int),
        decreases len - i,
    {
        kept.push(stack[i]);
        assert(stack@.take(i + 1) =~= stack@.take(i as int).push(stack@[i as int]));
        i += 1;
    }
    kept
}

/// Filtering a stack that grew by one frame.
proof fn lemma_filter_push(stack: Seq<Frame>, frame: Frame)
    ensures
        stack.push(frame).filter(survives_read()) == if survives_read()(frame) {
            stack.filter(survives_read()).push(frame)
        } else {
            stack.filter(survives_read())
        },
{
    reveal(Seq::filter);
    assert(stack.push(frame).drop_last() =~= stack);
}

/// The automaton: one borrow stack for each storage location.
pub struct BorrowStacks {
    stacks: HashMap<u32, Vec<Frame>>,
    homes: HashMap<u32, u32>,
}

impl View for BorrowStacks {
    type V = BorrowState;

    closed spec fn view(&self) -> BorrowState {
        BorrowState {
            stacks: Map::new(
                |location: u32| self.stacks@.contains_key(location),
                |location: u32| self.stacks@[location]@,
            ),
            homes: self.homes@,
        }
    }
}

impl BorrowStacks {
    pub fn new() -> (stacks: BorrowStacks)
        ensures
            stacks@ == BorrowState::empty(),
    {
        let stacks = BorrowStacks { stacks: HashMap::new(), homes: HashMap::new() };
        assert(stacks@.stacks =~= Map::empty());
        stacks
    }

    /// Declares `location`: forms an empty stack for it unless it has
    /// a stack already.
    pub fn register(&mut self, location: u32)
        ensures
            final(self)@ == old(self)@.registered(location),
    {
        if !self.stacks.contains_key(&location) {
            self.stacks.insert(location, Vec::new());
        }
        assert(self@.stacks =~= old(self)@.registered(location).stacks);
    }

    /// The location that `tag` refers to.
    pub fn location_of(&self, tag: Tag) -> (location: u32)
        ensures
            location == self@.location_of(tag),
    {
        match self.homes.get(&tag.id()) {
            Some(location) => *location,
            None => tag.id(),
        }
    }

    /// A copy of the stack of `location`, bottom first.
    pub fn stack_of(&self, location: u32) -> (stack: Vec<Frame>)
        ensures
            stack@ == self@.stack_of(location),
    {
        match self.stacks.get(&location) {
            Some(stack) => bottom(stack, stack.len()),
            None => Vec::new(),
        }
    }

    /// A new reference: pushes `(tag, permission)` onto the stack of
    /// `location`, to which `tag` refers from now on.
    pub fn new_ref(&mut self, location: u32, tag: Tag, permission: Permission)
        ensures
            final(self)@ == old(self)@.pushed(location, tag, permission),
    {
        let mut stack = self.stack_of(location);
        stack.push(Frame { tag, permission });
        self.stacks.insert(location, stack);
        self.homes.insert(tag.id(), location);
        assert(self@.stacks =~= old(self)@.pushed(location, tag, permission).stacks);
    }

    /// A write, or another exclusive access, through `tag`. Where the stack
    /// of the location that `tag` refers to holds `tag`, every frame above
    /// its topmost frame is popped and the result is `true`. Where it does
    /// not, the access is through a right that was invalidated or never
    /// given: nothing changes and the result is `false`.
    pub fn use_value(&mut self, tag: Tag) -> (found: bool)
        ensures
            found == old(self)@.grants(tag),
            final(self)@ == old(self)@.used(tag),
    {
        let location = self.location_of(tag);
        let kept = match self.stacks.get(&location) {
            Some(stack) => {
                match find_top(stack, tag) {
                    Some(top) => Some(bottom(stack, top + 1)),
                    None => None,
                }
            },
            None => None,
        };
        match kept {
            Some(kept) => {
                self.stacks.insert(location, kept);
                assert(self@.stacks =~= old(self)@.used(tag).stacks);
                true
            },
            None => false,
        }
    }

    /// A read, or another shared access, through `tag`. Where the stack of
    /// the location that `tag` refers to holds `tag`, the `Unique` frames
    /// above its topmost frame are popped, the other frames stay, and the
    /// result is `true`. Where it does not, nothing changes and the result
    /// is `false`.
    pub fn read_value(&mut self, tag: Tag) -> (found: bool)
        ensures
            found == old(self)@.grants(tag),
            final(self)@ == old(self)@.read(tag),
    {
        let location = self.location_of(tag);
        let kept = match self.stacks.get(&location) {
            Some(stack) => {
                match find_top(stack, tag) {
                    Some(top) => {
                        let mut kept = bottom(stack, top + 1);
                        let ghost below = kept@;
                        let mut i: usize = top + 1;
                        while i < stack.len()
                            invariant
                                top < i <= stack.len(),
                                kept@ == below + stack@.subrange(top + 1, i as int).filter(
                                    survives_read(),
                                ),
                            decreases stack.len() - i,
                        {
                            proof {
                                lemma_filter_push(
                                    stack@.subrange(top + 1, i as int),
                                    stack@[i as int],
                                );
                                assert(stack@.subrange(top + 1, i + 1) =~= stack@.subrange(
                                    top + 1,
                                    i as int,
                                ).push(stack@[i as int]));
                            }
                            if !stack[i].permission.is_unique() {
                                kept.push(stack[i]);
                            }
                            i += 1;
                        }
                        assert(stack@.subrange(top + 1, stack.len() as int) =~= stack@.skip(
                            top + 1,
                        ));
                        Some(kept)
                    },
                    None => None,
                }
            },
            None => None,
        };
        match kept {
            Some(kept) => {
                self.stacks.insert(location, kept);
                assert(self@.stacks =~= old(self)@.read(tag).stacks);
                true
            },
            None => false,
        }
    }
}

} // verus!
