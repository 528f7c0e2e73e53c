use vstd::prelude::*;

verus! {

/// One call of an execution: the calls that it made itself, as places in
/// the arena, in the order in which it made them.
pub struct DebugNode {
    pub children: Vec<usize>,
}

/// The calls of one execution. The call at place 0 is the root, under which
/// the others hang.
pub struct DebugArena {
    pub arena: Vec<DebugNode>,
}

impl View for DebugNode {
    type V = Seq<usize>;

    open spec fn view(&self) -> Seq<usize> {
        self.children@
    }
}

impl View for DebugArena {
    type V = Seq<Seq<usize>>;

    open spec fn view(&self) -> Seq<Seq<usize>> {
        self.arena@.map_values(|n: DebugNode| n@)
    }
}

/// An arena has a root, and every call was made by a call that stands
/// before it.
pub open spec fn well_formed(arena: Seq<Seq<usize>>) -> bool {
    &&& arena.len() > 0
    &&& forall|i: int, k: int|
        0 <= i < arena.len() && 0 <= k < arena[i].len() ==> i < #[trigger] arena[i][k]
            < arena.len()
}

/// The calls under and including `entry`, each before the calls that it
/// made, those in the order in which they were made.
pub open spec fn preorder(arena: Seq<Seq<usize>>, entry: int) -> Seq<usize>
    decreases arena.len() - entry, 1int, 0int,
{
    if 0 <= entry < arena.len() {
        seq![entry as usize] + preorder_from(arena, entry, 0)
    } else {
        Seq::empty()
    }
}

/// The calls under the children of `entry` from the `k`-th child on.
pub open spec fn preorder_from(arena: Seq<Seq<usize>>, entry: int, k: int) -> Seq<usize>
    decreases arena.len() - entry, 0int, arena[entry].len() - k,
{
    if 0 <= entry < arena.len() && 0 <= k < arena[entry].len() {
        let child = arena[entry][k] as int;
        if entry < child < arena.len() {
            preorder(arena, child) + preorder_from(arena, entry, k + 1)
        } else {
            preorder_from(arena, entry, k + 1)
        }
    } else {
        Seq::empty()
    }
}

/// The frames that the debugger steps through: every call under the root,
/// in the order of `preorder`, the root itself left out.
pub open spec fn frames(arena: Seq<Seq<usize>>) -> Seq<usize> {
    preorder(arena, 0).skip(1)
}

/// The arena to debug: the second where a set-up call ran before the script
/// and left an arena of its own, else the first.
pub open spec fn arena_to_debug(needs_setup: bool, arenas: int) -> int {
    if needs_setup && arenas > 1 {
        1
    } else {
        0
    }
}

/// The place of the arena to debug among `arenas` arenas.
pub fn select_arena(needs_setup: bool, arenas: usize) -> (place: usize)
    ensures
        place == arena_to_debug(needs_setup, arenas as int),
        arenas > 0 ==> place < arenas,
{
    if needs_setup && arenas > 1 {
        1
    } else {
        0
    }
}

impl DebugArena {
    /// Whether the arena has a root and every call stands behind the call
    /// that made it.
    pub fn is_well_formed(&self) -> (yes: bool)
        ensures
            yes == well_formed(self@),
    {
        if self.arena.len() == 0 {
            return false;
        }
        let mut i: usize = 0;
        while i < self.arena.len()
            invariant
                i <= self.arena.len(),
                self@.len() == self.arena@.len(),
                forall|a: int, k: int|
                    0 <= a < i && 0 <= k < self@[a].len() ==> a < #[trigger] self@[a][k]
                        < self@.len(),
            decreases self.arena.len() - i,
        {
            let node = &self.arena[i];
            assert(self@[i as int] == node@);
            let mut k: usize = 0;
            while k < node.children.len()
                invariant
                    k <= node.children.len(),
                    i < self.arena.len(),
                    self@.len() == self.arena@.len(),
                    self@[i as int] == node@,
                    forall|j: int| 0 <= j < k ==> i < #[trigger] node@[j] < self@.len(),
                decreases node.children.len() - k,
            {
                let child = node.children[k];
                if child <= i || child >= self.arena.len() {
                    assert(!(i < self@[i as int][k as int] < self@.len()));
                    return false;
                }
                k += 1;
            }
            i += 1;
        }
        true
    }

    /// Puts the calls under and including `entry` behind `flattened`, each
    /// before the calls that it made.
    pub fn flatten(&self, entry: usize, flattened: &mut Vec<usize>)
        requires
            well_formed(self@),
            entry < self@.len(),
        ensures
            final(flattened)@ == old(flattened)@ + preorder(self@, entry as int),
        decreases self@.len() - entry,
    {
        let ghost before = flattened@;
        flattened.push(entry);
        let node = &self.arena[entry];
        assert(self@[entry as int] == node@);
        let mut k: usize = 0;
        while k < node.children.len()
            invariant
                k <= node.children.len(),
                well_formed(self@),
                entry < self@.len(),
                self@[entry as int] == node@,
                flattened@ + preorder_from(self@, entry as int, k as int) == before + preorder(
                    self@,
                    entry as int,
                ),
            decreases node.children.len() - k,
        {
            let child = node.children[k];
            assert(entry < self@[entry as int][k as int] < self@.len());
            let ghost earlier = flattened@;
            self.flatten(child, flattened);
            assert(flattened@ + preorder_from(self@, entry as int, k + 1) =~= earlier
                + preorder_from(self@, entry as int, k as int));
            k += 1;
        }
        assert(flattened@ =~= flattened@ + preorder_from(self@, entry as int, k as int));
    }

    /// The frames that the debugger steps through: every call under the
    /// root, each before the calls that it made, the root itself left out.
    /// An arena that is not well formed has none to give.
    pub fn frames(&self) -> (flattened: Option<Vec<usize>>)
        ensures
            match flattened {
                Some(flattened) => well_formed(self@) && flattened@ == frames(self@),
                None => !well_formed(self@),
            },
    {
        if !self.is_well_formed() {
            return None;
        }
        let mut all: Vec<usize> = Vec::new();
        self.flatten(0, &mut all);
        assert(all@ =~= preorder(self@, 0));
        let mut flattened: Vec<usize> = Vec::new();
        let mut i: usize = 1;
        while i < all.len()
            invariant
                1 <= i <= all.len(),
                flattened@ == all@.subrange(1, i as int),
            decreases all.len() - i,
        {
            flattened.push(all[i]);
            assert(flattened@ =~= all@.subrange(1, i + 1));
            i += 1;
        }
        assert(flattened@ =~= all@.skip(1));
        Some(flattened)
    }
}

} // verus!
