//! Vetting an exported value before it is converted to JSON.
//!
//! The conversion recurses one native frame per nesting level, allocates an array's
//! whole `length` up front and expands a shared object once per reference. So a
//! value is walked first, without recursion, and refused where the conversion
//! could not bear it. A [`Walk`] keeps the bookkeeping of that walk: it says which
//! property to look at next and is told what was found there. Nothing is read
//! before the walk asks for it, and only stored data values are reported to it, so
//! no code of the value's own ever runs.

use vstd::prelude::*;

use crate::json::{self, Json};
use crate::text;
use crate::types::{ExecError, Fault};

verus! {

/// What the walk is told of an object that it enters.
#[derive(Debug, Clone, Copy)]
pub struct Shape {
    /// The stored `length`, where the object is an array.
    pub length: Option<u64>,
    /// How many own keys it has. A proxy has none.
    pub keys: usize,
}

/// What the walk wants next.
#[derive(Debug, Clone, Copy)]
pub enum Next {
    /// Report on the `key`-th own key of the object entered `frame` levels below the
    /// exported value; everything entered deeper than that is done with.
    Inspect { frame: usize, key: usize },
    /// Every property has been looked at and nothing was refused.
    Done,
}

/// An object on the current path of the walk.
#[derive(Debug, Clone, Copy)]
pub struct Frame {
    /// How many own keys it has.
    pub keys: usize,
    /// The key to look at next.
    pub next: usize,
}

/// A depth-first walk over the properties of a value. The stack holds the current
/// path only, one frame per level.
#[derive(Debug)]
pub struct Walk {
    stack: Vec<Frame>,
    visited: usize,
    max_depth: usize,
    max_array_len: usize,
}

/// The path that is left once the frames at its end with no more keys are dropped.
pub open spec fn trimmed(stack: Seq<Frame>) -> Seq<Frame>
    decreases stack.len(),
{
    if stack.len() > 0 && stack.last().next >= stack.last().keys {
        trimmed(stack.drop_last())
    } else {
        stack
    }
}

/// The fault for an array that is too long.
pub open spec fn too_wide(max_array_len: nat) -> Fault {
    Fault::Limit(
        "exported array is longer than "@ + text::decimal(max_array_len) + " elements"@,
    )
}

/// The fault for a value that nests too deeply.
pub open spec fn too_deep(max_depth: nat) -> Fault {
    Fault::Limit("exported value nests deeper than "@ + text::decimal(max_depth) + " levels"@)
}

/// An array whose length is over the bound.
pub open spec fn too_long(length: Option<u64>, max_array_len: nat) -> bool {
    length matches Some(n) && n > max_array_len
}

fn too_wide_error(max_array_len: usize) -> (error: ExecError)
    ensures
        error@ == too_wide(max_array_len as nat),
{
    let mut what: String = String::new();
    what.push_str("exported array is longer than ");
    text::push_decimal(&mut what, max_array_len as u64);
    what.push_str(" elements");
    assert(what@ =~= "exported array is longer than "@ + text::decimal(max_array_len as nat)
        + " elements"@);
    ExecError::Limit { what }
}

fn too_deep_error(max_depth: usize) -> (error: ExecError)
    ensures
        error@ == too_deep(max_depth as nat),
{
    let mut what: String = String::new();
    what.push_str("exported value nests deeper than ");
    text::push_decimal(&mut what, max_depth as u64);
    what.push_str(" levels");
    assert(what@ =~= "exported value nests deeper than "@ + text::decimal(max_depth as nat)
        + " levels"@);
    ExecError::Limit { what }
}

/// The state of a [`Walk`].
#[verifier::ext_equal]
pub struct WalkState {
    /// The current path.
    pub stack: Seq<Frame>,
    /// How many properties have been looked at.
    pub visited: nat,
    /// The deepest level at which a property may stand.
    pub max_depth: nat,
    /// The bound on an array's length and on the number of properties.
    pub max_array_len: nat,
}

/// A walk that has not entered anything.
pub open spec fn walk_start(max_depth: nat, max_array_len: nat) -> WalkState {
    WalkState { stack: Seq::empty(), visited: 0, max_depth, max_array_len }
}

/// The walk after it entered an object. An array that is too long is refused.
pub open spec fn walk_enter(walk: WalkState, shape: Shape) -> Result<WalkState, Fault> {
    if too_long(shape.length, walk.max_array_len) {
        Err(too_wide(walk.max_array_len))
    } else {
        Ok(WalkState { stack: walk.stack.push(Frame { keys: shape.keys, next: 0 }), ..walk })
    }
}

/// The walk after it moved on to its next property. Refused once more properties
/// were looked at than the output could hold, or where the next one lies too deep.
pub open spec fn walk_advance(walk: WalkState) -> Result<(WalkState, Next), Fault> {
    let path = trimmed(walk.stack);
    if path.len() == 0 {
        Ok((WalkState { stack: path, ..walk }, Next::Done))
    } else if walk.visited + 1 > walk.max_array_len {
        Err(Fault::OutputTooLarge)
    } else if path.len() > walk.max_depth {
        Err(too_deep(walk.max_depth))
    } else {
        let moved = Frame { keys: path.last().keys, next: (path.last().next + 1) as usize };
        Ok(
            (
                WalkState {
                    stack: path.drop_last().push(moved),
                    visited: walk.visited + 1,
                    ..walk
                },
                Next::Inspect { frame: (path.len() - 1) as usize, key: path.last().next },
            ),
        )
    }
}

impl View for Walk {
    type V = WalkState;

    closed spec fn view(&self) -> WalkState {
        WalkState {
            stack: self.stack@,
            visited: self.visited as nat,
            max_depth: self.max_depth as nat,
            max_array_len: self.max_array_len as nat,
        }
    }
}

impl Walk {
    /// A walk that has not entered anything.
    pub fn new(max_depth: usize, max_array_len: usize) -> (walk: Walk)
        ensures
            walk@ == walk_start(max_depth as nat, max_array_len as nat),
    {
        Walk { stack: Vec::new(), visited: 0, max_depth, max_array_len }
    }

    /// Enters an object: the exported value itself, or the value of the property
    /// that was asked for last.
    pub fn enter(&mut self, shape: Shape) -> (entered: Result<(), ExecError>)
        ensures
            match walk_enter(old(self)@, shape) {
                Ok(walk) => entered is Ok && final(self)@ == walk,
                Err(fault) => entered is Err && entered->Err_0@ == fault && final(self)@ == old(
                    self,
                )@,
            },
    {
        if let Some(length) = shape.length {
            if length > self.max_array_len as u64 {
                return Err(too_wide_error(self.max_array_len));
            }
        }
        self.stack.push(Frame { keys: shape.keys, next: 0 });
        Ok(())
    }

    /// Moves on to the next property.
    pub fn advance(&mut self) -> (next: Result<Next, ExecError>)
        ensures
            match walk_advance(old(self)@) {
                Ok((walk, step)) => {
                    &&& next == Ok::<Next, ExecError>(step)
                    &&& final(self)@ == walk
                    &&& walk.stack.len() <= usize::MAX
                },
                Err(fault) => next is Err && next->Err_0@ == fault,
            },
    {
        proof {
            lemma_trimmed_last(self.stack@);
        }
        while self.stack.len() > 0 && self.stack[self.stack.len() - 1].next >= self.stack[self.stack.len()
            - 1].keys
            invariant
                trimmed(self.stack@) == trimmed(old(self).stack@),
                self.visited == old(self).visited,
                self.max_depth == old(self).max_depth,
                self.max_array_len == old(self).max_array_len,
            decreases self.stack@.len(),
        {
            let _ = self.stack.pop();
        }
        let n: usize = self.stack.len();
        if n == 0 {
            return Ok(Next::Done);
        }
        if self.visited >= self.max_array_len {
            return Err(ExecError::OutputTooLarge);
        }
        self.visited = self.visited + 1;
        if n > self.max_depth {
            return Err(too_deep_error(self.max_depth));
        }
        let top: Frame = self.stack[n - 1];
        let ghost path = self.stack@;
        self.stack.set(n - 1, Frame { keys: top.keys, next: top.next + 1 });
        assert(self.stack@ =~= path.drop_last().push(
            Frame { keys: top.keys, next: (top.next + 1) as usize },
        ));
        Ok(Next::Inspect { frame: n - 1, key: top.next })
    }
}

/// An object of a value: the `length` of an array, and for each own key the object
/// that is stored under it, by its place in the heap. A key that stores no object
/// (a primitive, or an accessor) holds nothing to enter.
#[derive(Debug, Clone)]
pub struct Node {
    pub length: Option<u64>,
    pub slots: Vec<Option<usize>>,
}

/// Every object that a slot names is there.
pub open spec fn closed_heap(heap: Seq<Node>) -> bool {
    forall|i: int, k: int|
        0 <= i < heap.len() && 0 <= k < heap[i].slots@.len() ==> match #[trigger] heap[i].slots@[k] {
            Some(child) => child < heap.len(),
            None => true,
        }
}

/// What the walk is told of an object that it enters.
pub open spec fn shape_of(node: Node) -> Shape {
    Shape { length: node.length, keys: node.slots.len() }
}

/// The bounds of a walk.
pub struct Bounds {
    pub max_depth: nat,
    pub max_array_len: nat,
}

/// What the walk comes to over the slots of object `id` from `k` on, where that
/// object stands `height` levels down and `visited` properties were looked at: the
/// new number of properties looked at, or the fault that ended the walk.
pub open spec fn walk_from(
    heap: Seq<Node>,
    id: int,
    k: int,
    height: nat,
    visited: nat,
    bounds: Bounds,
) -> Result<nat, Fault>
    decreases bounds.max_depth + 1 - height, heap[id].slots@.len() - k,
{
    if k >= heap[id].slots@.len() {
        Ok(visited)
    } else if visited + 1 > bounds.max_array_len {
        Err(Fault::OutputTooLarge)
    } else if height > bounds.max_depth {
        Err(too_deep(bounds.max_depth))
    } else {
        match heap[id].slots@[k] {
            None => walk_from(heap, id, k + 1, height, visited + 1, bounds),
            Some(child) => {
                if too_long(heap[child as int].length, bounds.max_array_len) {
                    Err(too_wide(bounds.max_array_len))
                } else {
                    match walk_from(heap, child as int, 0, height + 1, visited + 1, bounds) {
                        Err(fault) => Err(fault),
                        Ok(seen) => walk_from(heap, id, k + 1, height, seen, bounds),
                    }
                }
            },
        }
    }
}

/// What the walk over a whole value comes to. A primitive has nothing to walk.
pub open spec fn walk_all(heap: Seq<Node>, root: Option<usize>, bounds: Bounds) -> Result<
    nat,
    Fault,
> {
    match root {
        None => Ok(0),
        Some(id) => if too_long(heap[id as int].length, bounds.max_array_len) {
            Err(too_wide(bounds.max_array_len))
        } else {
            walk_from(heap, id as int, 0, 1, 0, bounds)
        },
    }
}

/// What is left of a walk whose path is `ids`, with `stack` saying how far along each
/// object of it is.
pub(crate) open spec fn resume(
    heap: Seq<Node>,
    ids: Seq<usize>,
    stack: Seq<Frame>,
    visited: nat,
    bounds: Bounds,
) -> Result<nat, Fault>
    decreases ids.len(),
{
    if ids.len() == 0 {
        Ok(visited)
    } else {
        match walk_from(
            heap,
            ids.last() as int,
            stack.last().next as int,
            ids.len(),
            visited,
            bounds,
        ) {
            Err(fault) => Err(fault),
            Ok(seen) => resume(heap, ids.drop_last(), stack.drop_last(), seen, bounds),
        }
    }
}

/// The path `ids` and the frames of the walk belong together.
pub(crate) open spec fn in_step(heap: Seq<Node>, ids: Seq<usize>, stack: Seq<Frame>) -> bool {
    &&& ids.len() == stack.len()
    &&& forall|i: int|
        0 <= i < ids.len() ==> #[trigger] ids[i] < heap.len() && stack[i].keys
            == heap[ids[i] as int].slots@.len()
}

proof fn lemma_trimmed(
    heap: Seq<Node>,
    ids: Seq<usize>,
    stack: Seq<Frame>,
    visited: nat,
    bounds: Bounds,
)
    requires
        in_step(heap, ids, stack),
    ensures
        trimmed(stack).len() <= stack.len(),
        in_step(heap, ids.take(trimmed(stack).len() as int), trimmed(stack)),
        resume(heap, ids, stack, visited, bounds) == resume(
            heap,
            ids.take(trimmed(stack).len() as int),
            trimmed(stack),
            visited,
            bounds,
        ),
    decreases stack.len(),
{
    if stack.len() > 0 && stack.last().next >= stack.last().keys {
        assert(ids.last() < heap.len() && stack.last().keys == heap[ids.last() as int].slots@.len());
        lemma_trimmed(heap, ids.drop_last(), stack.drop_last(), visited, bounds);
        assert(ids.drop_last().take(trimmed(stack).len() as int) =~= ids.take(
            trimmed(stack).len() as int,
        ));
    } else {
        assert(ids.take(stack.len() as int) =~= ids);
    }
}

/// One step of a walk that is told what the heap holds: it leaves as much to do as
/// [`resume`] says.
pub(crate) proof fn lemma_walk_step(
    heap: Seq<Node>,
    ids: Seq<usize>,
    walk: WalkState,
    bounds: Bounds,
)
    requires
        closed_heap(heap),
        in_step(heap, ids, walk.stack),
        walk.max_depth == bounds.max_depth,
        walk.max_array_len == bounds.max_array_len,
        bounds.max_depth <= usize::MAX,
    ensures
        ({
            let left = resume(heap, ids, walk.stack, walk.visited, bounds);
            match walk_advance(walk) {
                Err(fault) => left == Err::<nat, Fault>(fault),
                Ok((_, Next::Done)) => left is Ok,
                Ok((moved, Next::Inspect { frame, key })) => {
                    let path = ids.take(frame + 1);
                    let id = ids[frame as int];
                    &&& frame < ids.len()
                    &&& id < heap.len()
                    &&& key < heap[id as int].slots@.len()
                    &&& in_step(heap, path, moved.stack)
                    &&& match heap[id as int].slots@[key as int] {
                        None => left == resume(heap, path, moved.stack, moved.visited, bounds),
                        Some(child) => child < heap.len() && match walk_enter(
                            moved,
                            shape_of(heap[child as int]),
                        ) {
                            Err(fault) => left == Err::<nat, Fault>(fault),
                            Ok(inside) => {
                                &&& in_step(heap, path.push(child), inside.stack)
                                &&& left == resume(
                                    heap,
                                    path.push(child),
                                    inside.stack,
                                    inside.visited,
                                    bounds,
                                )
                            },
                        },
                    }
                },
            }
        }),
{
    reveal_with_fuel(resume, 3);
    lemma_trimmed(heap, ids, walk.stack, walk.visited, bounds);
    lemma_trimmed_last(walk.stack);
    let path = trimmed(walk.stack);
    let kept = ids.take(path.len() as int);
    match walk_advance(walk) {
        Ok((moved, Next::Inspect { frame, key })) => {
            assert(kept.last() == ids[frame as int]);
            assert(moved.stack.drop_last() =~= path.drop_last());
            match heap[kept.last() as int].slots@[key as int] {
                Some(child) => {
                    assert(kept.push(child).drop_last() =~= kept);
                    match walk_enter(moved, shape_of(heap[child as int])) {
                        Ok(inside) => {
                            assert(inside.stack.drop_last() =~= moved.stack);
                        },
                        Err(_) => {},
                    }
                },
                None => {},
            }
        },
        _ => {},
    }
}

/// A walk that has just entered object `id` has all of it left to do.
pub(crate) proof fn lemma_walk_entered(heap: Seq<Node>, id: usize, walk: WalkState, bounds: Bounds)
    requires
        id < heap.len(),
        walk == walk_start(bounds.max_depth, bounds.max_array_len),
    ensures
        match walk_enter(walk, shape_of(heap[id as int])) {
            Err(fault) => walk_all(heap, Some(id), bounds) == Err::<nat, Fault>(fault),
            Ok(inside) => in_step(heap, seq![id], inside.stack) && walk_all(heap, Some(id), bounds)
                == resume(heap, seq![id], inside.stack, inside.visited, bounds),
        },
{
    reveal_with_fuel(resume, 2);
    let ids = seq![id];
    assert(ids.drop_last() =~= Seq::<usize>::empty());
    match walk_enter(walk, shape_of(heap[id as int])) {
        Ok(inside) => {
            assert(inside.stack.drop_last() =~= Seq::<Frame>::empty());
        },
        Err(_) => {},
    }
}

/// Vets a value whose objects are all at hand: whether it may be converted, and
/// which fault stops it where it may not.
pub fn result_convertible(
    heap: &Vec<Node>,
    root: Option<usize>,
    max_depth: usize,
    max_array_len: usize,
) -> (vetted: Result<(), ExecError>)
    requires
        closed_heap(heap@),
        root matches Some(id) ==> id < heap@.len(),
    ensures
        match walk_all(
            heap@,
            root,
            (Bounds { max_depth: max_depth as nat, max_array_len: max_array_len as nat }),
        ) {
            Ok(_) => vetted is Ok,
            Err(fault) => vetted is Err && vetted->Err_0@ == fault,
        },
{
    let ghost bounds = Bounds {
        max_depth: max_depth as nat,
        max_array_len: max_array_len as nat,
    };
    let start: usize = match root {
        Some(id) => id,
        None => {
            return Ok(());
        },
    };
    let mut walk: Walk = Walk::new(max_depth, max_array_len);
    walk.enter(Shape { length: heap[start].length, keys: heap[start].slots.len() })?;
    let mut ids: Vec<usize> = Vec::new();
    ids.push(start);
    proof {
        lemma_walk_entered(
            heap@,
            start,
            walk_start(max_depth as nat, max_array_len as nat),
            bounds,
        );
        assert(ids@ =~= seq![start]);
    }
    loop
        invariant
            closed_heap(heap@),
            in_step(heap@, ids@, walk@.stack),
            walk@.max_depth == max_depth,
            walk@.max_array_len == max_array_len,
            walk@.visited <= max_array_len,
            bounds == (Bounds {
                max_depth: max_depth as nat,
                max_array_len: max_array_len as nat,
            }),
            resume(heap@, ids@, walk@.stack, walk@.visited, bounds) == walk_all(
                heap@,
                root,
                bounds,
            ),
        decreases max_array_len - walk@.visited,
    {
        proof {
            lemma_walk_step(heap@, ids@, walk@, bounds);
        }
        let ghost path = ids@;
        let next: Next = walk.advance()?;
        match next {
            Next::Done => {
                return Ok(());
            },
            Next::Inspect { frame, key } => {
                ids.truncate(frame + 1);
                assert(ids@ =~= path.take(frame + 1));
                let id: usize = ids[frame];
                let slot: Option<usize> = heap[id].slots[key];
                if let Some(child) = slot {
                    let shape: Shape = Shape {
                        length: heap[child].length,
                        keys: heap[child].slots.len(),
                    };
                    walk.enter(shape)?;
                    ids.push(child);
                }
            },
        }
    }
}

proof fn lemma_trimmed_last(stack: Seq<Frame>)
    ensures
        trimmed(stack).len() > 0 ==> trimmed(stack).last().next < trimmed(stack).last().keys,
    decreases stack.len(),
{
    if stack.len() > 0 && stack.last().next >= stack.last().keys {
        lemma_trimmed_last(stack.drop_last());
    }
}

/// No property lies deeper than `depth` levels below object `id`, and no array below
/// it is too long.
pub open spec fn fits(heap: Seq<Node>, id: int, depth: nat, max_array_len: nat) -> bool
    decreases depth,
{
    heap[id].slots@.len() == 0 || (depth > 0 && forall|k: int|
        0 <= k < heap[id].slots@.len() ==> match #[trigger] heap[id].slots@[k] {
            Some(child) => !too_long(heap[child as int].length, max_array_len) && fits(
                heap,
                child as int,
                (depth - 1) as nat,
                max_array_len,
            ),
            None => true,
        })
}

/// How many properties object `id` unfolds to from slot `k` on, down to `depth`
/// levels: a shared object counts once for every reference to it.
pub open spec fn unfolded(heap: Seq<Node>, id: int, k: int, depth: nat) -> nat
    decreases depth, heap[id].slots@.len() - k,
{
    if depth == 0 || k < 0 || k >= heap[id].slots@.len() {
        0
    } else {
        1 + unfolded(heap, id, k + 1, depth) + match heap[id].slots@[k] {
            Some(child) => unfolded(heap, child as int, 0, (depth - 1) as nat),
            None => 0,
        }
    }
}

/// The slots of `id` from `k` on fit.
spec fn fits_from(heap: Seq<Node>, id: int, k: int, depth: nat, max_array_len: nat) -> bool {
    k >= heap[id].slots@.len() || (depth > 0 && forall|j: int|
        k <= j < heap[id].slots@.len() ==> match #[trigger] heap[id].slots@[j] {
            Some(child) => !too_long(heap[child as int].length, max_array_len) && fits(
                heap,
                child as int,
                (depth - 1) as nat,
                max_array_len,
            ),
            None => true,
        })
}

proof fn lemma_walk_from(
    heap: Seq<Node>,
    id: int,
    k: int,
    height: nat,
    visited: nat,
    bounds: Bounds,
)
    requires
        0 <= k,
        height <= bounds.max_depth + 1,
        visited <= bounds.max_array_len,
    ensures
        ({
            let depth = (bounds.max_depth + 1 - height) as nat;
            let total = visited + unfolded(heap, id, k, depth);
            let walked = walk_from(heap, id, k, height, visited, bounds);
            &&& walked is Ok <==> fits_from(heap, id, k, depth, bounds.max_array_len) && total
                <= bounds.max_array_len
            &&& walked is Ok ==> walked->Ok_0 == total
        }),
    decreases bounds.max_depth + 1 - height, heap[id].slots@.len() - k,
{
    let depth = (bounds.max_depth + 1 - height) as nat;
    let slots = heap[id].slots@;
    if k < slots.len() && visited + 1 <= bounds.max_array_len && depth > 0 {
        match slots[k] {
            None => {
                lemma_walk_from(heap, id, k + 1, height, visited + 1, bounds);
                assert(fits_from(heap, id, k, depth, bounds.max_array_len) <==> fits_from(
                    heap,
                    id,
                    k + 1,
                    depth,
                    bounds.max_array_len,
                ));
            },
            Some(child) => {
                if !too_long(heap[child as int].length, bounds.max_array_len) {
                    lemma_walk_from(heap, child as int, 0, height + 1, visited + 1, bounds);
                    let below = walk_from(heap, child as int, 0, height + 1, visited + 1, bounds);
                    assert(fits_from(heap, child as int, 0, (depth - 1) as nat, bounds.max_array_len)
                        <==> fits(heap, child as int, (depth - 1) as nat, bounds.max_array_len));
                    if below is Ok {
                        lemma_walk_from(heap, id, k + 1, height, below->Ok_0, bounds);
                        assert(fits_from(heap, id, k, depth, bounds.max_array_len) <==> fits_from(
                            heap,
                            id,
                            k + 1,
                            depth,
                            bounds.max_array_len,
                        ));
                    }
                }
            },
        }
    }
}

/// A value passes the walk exactly when no array in it is longer than the bound, no
/// property of it lies deeper than the bound, and it unfolds to no more properties
/// than the output could hold: nothing that passes can drive the conversion past
/// its depth, its allocation or its size, and nothing that would fit is refused.
pub proof fn law_walk_accepts_exactly_what_fits(heap: Seq<Node>, id: usize, bounds: Bounds)
    ensures
        walk_all(heap, Some(id), bounds) is Ok <==> {
            &&& !too_long(heap[id as int].length, bounds.max_array_len)
            &&& fits(heap, id as int, bounds.max_depth, bounds.max_array_len)
            &&& unfolded(heap, id as int, 0, bounds.max_depth) <= bounds.max_array_len
        },
{
    lemma_walk_from(heap, id as int, 0, 1, 0, bounds);
    assert(fits_from(heap, id as int, 0, bounds.max_depth, bounds.max_array_len) <==> fits(
        heap,
        id as int,
        bounds.max_depth,
        bounds.max_array_len,
    ));
}

/// What a property that stores no object is written as: anything but an array or an
/// object. An accessor is written as null.
pub open spec fn is_leaf(json: Json) -> bool {
    match json {
        Json::Array(_) | Json::Object(_) => false,
        Json::Number(text) => text.len() > 0,
        _ => true,
    }
}

/// What a slot holds is written as `json`.
pub open spec fn holds(heap: Seq<Node>, slot: Option<usize>, json: Json) -> bool
    decreases json, 1nat,
{
    match slot {
        Some(child) => stands_for(heap, child as int, json),
        None => is_leaf(json),
    }
}

/// Object `id` is written as `json`: an array as its elements, any other object as its
/// members.
pub open spec fn stands_for(heap: Seq<Node>, id: int, json: Json) -> bool
    decreases json, 0nat,
{
    match json {
        Json::Array(items) => {
            &&& heap[id].length matches Some(n) && n == items.len()
            &&& elements_from(heap, id, 0, items)
        },
        Json::Object(members) => heap[id].length is None && members_from(heap, id, 0, members),
        _ => false,
    }
}

/// The slots of array `id` from `k` on hold `items`, and last the stored length. A hole
/// has no slot and is written as null.
pub open spec fn elements_from(heap: Seq<Node>, id: int, k: int, items: Seq<Json>) -> bool
    decreases items, 0nat,
{
    if items.len() == 0 {
        k + 1 == heap[id].slots@.len() && heap[id].slots@[k] is None
    } else {
        ||| items[0] is Null && elements_from(heap, id, k, items.skip(1))
        ||| k < heap[id].slots@.len() && holds(heap, heap[id].slots@[k], items[0])
            && elements_from(heap, id, k + 1, items.skip(1))
    }
}

/// The slots of object `id` from `k` on hold `members`.
pub open spec fn members_from(
    heap: Seq<Node>,
    id: int,
    k: int,
    members: Seq<(Seq<char>, Json)>,
) -> bool
    decreases members, 0nat,
{
    if members.len() == 0 {
        k == heap[id].slots@.len()
    } else {
        &&& k < heap[id].slots@.len()
        &&& holds(heap, heap[id].slots@[k], members[0].1)
        &&& members_from(heap, id, k + 1, members.skip(1))
    }
}

proof fn lemma_leaf_bytes(json: Json)
    requires
        is_leaf(json),
    ensures
        text::byte_len(json::json_text(json)) >= 1,
{
    text::lemma_byte_len_zero(json::json_text(json));
}

proof fn lemma_elements_bytes(heap: Seq<Node>, id: int, k: int, items: Seq<Json>)
    requires
        elements_from(heap, id, k, items),
    ensures
        items.len() <= text::byte_len(json::items_text(items)),
    decreases items.len(),
{
    if items.len() > 0 {
        let rest = items.skip(1);
        json::lemma_items_bytes(items);
        json::lemma_container_bytes(items[0]);
        if is_leaf(items[0]) {
            lemma_leaf_bytes(items[0]);
        }
        if items[0] is Null && elements_from(heap, id, k, rest) {
            lemma_elements_bytes(heap, id, k, rest);
        } else {
            assert(holds(heap, heap[id].slots@[k], items[0]));
            lemma_elements_bytes(heap, id, k + 1, rest);
        }
    }
}

proof fn lemma_walk_held(
    heap: Seq<Node>,
    slot: Option<usize>,
    json: Json,
    height: nat,
    visited: nat,
    bounds: Bounds,
)
    requires
        holds(heap, slot, json),
        0 < height <= bounds.max_depth,
        visited + text::byte_len(json::json_text(json)) <= bounds.max_array_len,
    ensures
        text::byte_len(json::json_text(json)) >= 1,
        slot matches Some(child) ==> {
            &&& !too_long(heap[child as int].length, bounds.max_array_len)
            &&& match walk_from(heap, child as int, 0, height + 1, visited + 1, bounds) {
                Ok(seen) => seen <= visited + text::byte_len(json::json_text(json)),
                Err(fault) => fault == too_deep(bounds.max_depth) && !json::nests_within(
                    json,
                    (bounds.max_depth - height) as nat,
                ),
            }
        },
    decreases json, 1nat,
{
    match slot {
        Some(child) => lemma_walk_written(heap, child as int, json, height + 1, visited + 1, bounds),
        None => lemma_leaf_bytes(json),
    }
}

proof fn lemma_walk_written(
    heap: Seq<Node>,
    id: int,
    json: Json,
    height: nat,
    visited: nat,
    bounds: Bounds,
)
    requires
        stands_for(heap, id, json),
        0 < height <= bounds.max_depth + 1,
        visited + text::byte_len(json::json_text(json)) <= bounds.max_array_len + 1,
    ensures
        text::byte_len(json::json_text(json)) >= 2,
        !too_long(heap[id].length, bounds.max_array_len),
        match walk_from(heap, id, 0, height, visited, bounds) {
            Ok(seen) => seen < visited + text::byte_len(json::json_text(json)),
            Err(fault) => fault == too_deep(bounds.max_depth) && !json::nests_within(
                json,
                (bounds.max_depth + 1 - height) as nat,
            ),
        },
    decreases json, 0nat,
{
    json::lemma_container_bytes(json);
    match json {
        Json::Array(items) => {
            lemma_elements_bytes(heap, id, 0, items);
            lemma_walk_elements(heap, id, 0, items, height, visited, bounds);
        },
        Json::Object(members) => lemma_walk_members(heap, id, 0, members, height, visited, bounds),
        _ => {},
    }
}

proof fn lemma_walk_elements(
    heap: Seq<Node>,
    id: int,
    k: int,
    items: Seq<Json>,
    height: nat,
    visited: nat,
    bounds: Bounds,
)
    requires
        elements_from(heap, id, k, items),
        0 <= k,
        0 < height <= bounds.max_depth + 1,
        visited + text::byte_len(json::items_text(items)) + 1 <= bounds.max_array_len,
    ensures
        match walk_from(heap, id, k, height, visited, bounds) {
            Ok(seen) => seen <= visited + text::byte_len(json::items_text(items)) + 1,
            Err(fault) => fault == too_deep(bounds.max_depth) && (height > bounds.max_depth
                || exists|i: int|
                0 <= i < items.len() && !json::nests_within(
                    #[trigger] items[i],
                    (bounds.max_depth - height) as nat,
                )),
        },
    decreases items, 0nat,
{
    if items.len() == 0 {
        reveal_with_fuel(walk_from, 2);
    } else {
        let rest = items.skip(1);
        json::lemma_items_bytes(items);
        assert(forall|i: int| 0 <= i < rest.len() ==> #[trigger] rest[i] == items[i + 1]);
        if items[0] is Null && elements_from(heap, id, k, rest) {
            lemma_leaf_bytes(items[0]);
            lemma_walk_elements(heap, id, k, rest, height, visited, bounds);
        } else if height <= bounds.max_depth {
            let slot = heap[id].slots@[k];
            lemma_walk_held(heap, slot, items[0], height, visited, bounds);
            let seen = match slot {
                Some(child) => walk_from(heap, child as int, 0, height + 1, visited + 1, bounds),
                None => Ok(visited + 1),
            };
            match seen {
                Ok(n) => lemma_walk_elements(heap, id, k + 1, rest, height, n, bounds),
                Err(_) => {},
            }
        }
    }
}

proof fn lemma_walk_members(
    heap: Seq<Node>,
    id: int,
    k: int,
    members: Seq<(Seq<char>, Json)>,
    height: nat,
    visited: nat,
    bounds: Bounds,
)
    requires
        members_from(heap, id, k, members),
        0 <= k,
        0 < height <= bounds.max_depth + 1,
        visited + text::byte_len(json::members_text(members)) <= bounds.max_array_len,
    ensures
        match walk_from(heap, id, k, height, visited, bounds) {
            Ok(seen) => seen <= visited + text::byte_len(json::members_text(members)),
            Err(fault) => fault == too_deep(bounds.max_depth) && (height > bounds.max_depth
                || exists|i: int|
                0 <= i < members.len() && !json::nests_within(
                    (#[trigger] members[i]).1,
                    (bounds.max_depth - height) as nat,
                )),
        },
    decreases members, 0nat,
{
    if members.len() > 0 {
        let rest = members.skip(1);
        json::lemma_members_bytes(members);
        assert(forall|i: int| 0 <= i < rest.len() ==> #[trigger] rest[i] == members[i + 1]);
        if height <= bounds.max_depth {
            let slot = heap[id].slots@[k];
            lemma_walk_held(heap, slot, members[0].1, height, visited, bounds);
            let seen = match slot {
                Some(child) => walk_from(heap, child as int, 0, height + 1, visited + 1, bounds),
                None => Ok(visited + 1),
            };
            match seen {
                Ok(n) => lemma_walk_members(heap, id, k + 1, rest, height, n, bounds),
                Err(_) => {},
            }
        }
    }
}

/// The walk never refuses what the size cap would accept. Where the text of a value
/// takes no more bytes than the bound on its arrays and properties, depth alone can
/// speak against it, and does so only where the text nests too deeply as well.
pub proof fn law_walk_accepts_what_the_size_cap_accepts(
    heap: Seq<Node>,
    id: usize,
    json: Json,
    bounds: Bounds,
)
    requires
        stands_for(heap, id as int, json),
        text::byte_len(json::json_text(json)) <= bounds.max_array_len,
    ensures
        match walk_all(heap, Some(id), bounds) {
            Ok(_) => true,
            Err(fault) => fault == too_deep(bounds.max_depth) && !json::nests_within(
                json,
                bounds.max_depth,
            ),
        },
{
    lemma_walk_written(heap, id as int, json, 1, 0, bounds);
}

/// The faults that a walk can find.
pub open spec fn is_walk_fault(fault: Fault, bounds: Bounds) -> bool {
    ||| fault == Fault::OutputTooLarge
    ||| fault == Fault::Limit(
        "exported array is longer than "@ + text::decimal(bounds.max_array_len) + " elements"@,
    )
    ||| fault == Fault::Limit(
        "exported value nests deeper than "@ + text::decimal(bounds.max_depth) + " levels"@,
    )
}

proof fn lemma_walk_from_faults(
    heap: Seq<Node>,
    id: int,
    k: int,
    height: nat,
    visited: nat,
    bounds: Bounds,
)
    ensures
        walk_from(heap, id, k, height, visited, bounds) matches Err(fault) ==> is_walk_fault(
            fault,
            bounds,
        ),
    decreases bounds.max_depth + 1 - height, heap[id].slots@.len() - k,
{
    if k < heap[id].slots@.len() && visited + 1 <= bounds.max_array_len && height
        <= bounds.max_depth {
        match heap[id].slots@[k] {
            None => lemma_walk_from_faults(heap, id, k + 1, height, visited + 1, bounds),
            Some(child) => {
                if !too_long(heap[child as int].length, bounds.max_array_len) {
                    lemma_walk_from_faults(heap, child as int, 0, height + 1, visited + 1, bounds);
                    let below = walk_from(heap, child as int, 0, height + 1, visited + 1, bounds);
                    if below is Ok {
                        lemma_walk_from_faults(heap, id, k + 1, height, below->Ok_0, bounds);
                    }
                }
            },
        }
    }
}

/// A value that is refused is told why: an array that is too long, a nesting that is too
/// deep, or an output that would be too large. An exported array that is too long itself is
/// told so, whatever else it holds; a primitive is never refused.
pub proof fn law_refused_values_are_told_why(heap: Seq<Node>, id: usize, bounds: Bounds)
    ensures
        walk_all(heap, Some(id), bounds) matches Err(fault) ==> is_walk_fault(fault, bounds),
        (heap[id as int].length matches Some(n) && n > bounds.max_array_len) ==> walk_all(
            heap,
            Some(id),
            bounds,
        ) == Err::<nat, Fault>(
            Fault::Limit(
                "exported array is longer than "@ + text::decimal(bounds.max_array_len)
                    + " elements"@,
            ),
        ),
        walk_all(heap, None, bounds) is Ok,
{
    lemma_walk_from_faults(heap, id as int, 0, 1, 0, bounds);
}

} // verus!
