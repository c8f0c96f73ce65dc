//! The sparse chunk registry: a mapping from signed chunk coordinates to
//! the handle of the chunk stored there, with at most one chunk per
//! coordinate. It is populated at world setup and read thereafter to
//! resolve neighbor lookups.

use vstd::prelude::*;

use crate::TerrainError;

verus! {

/// One registered chunk: its coordinate in the infinite tiling and the
/// owner's handle for it.
#[derive(Clone, Copy, PartialEq, Eq, Structural, Debug)]
pub struct ChunkEntry {
    pub cx: i32,
    pub cy: i32,
    pub handle: u64,
}

/// A sparse map from chunk coordinate to chunk handle. Registering a
/// coordinate twice is rejected as [`TerrainError::DuplicateChunk`] rather
/// than replacing or crashing, so setup can query before insert.
pub struct ChunkGrid {
    entries: Vec<ChunkEntry>,
}

impl ChunkGrid {
    /// No two entries share a coordinate.
    pub closed spec fn wf(&self) -> bool {
        forall|i: int, j: int|
            0 <= i < j < self.entries@.len() ==> !(self.entries@[i].cx == self.entries@[j].cx
                && self.entries@[i].cy == self.entries@[j].cy)
    }

    /// Some chunk is registered at `(cx, cy)`.
    pub closed spec fn has(&self, cx: int, cy: int) -> bool {
        exists|i: int|
            0 <= i < self.entries@.len() && self.entries@[i].cx == cx && self.entries@[i].cy == cy
    }

    /// The handle registered at `(cx, cy)`; meaningful only when
    /// `has(cx, cy)` holds (unique by `wf`).
    pub closed spec fn handle_at(&self, cx: int, cy: int) -> u64 {
        let i = choose|i: int|
            0 <= i < self.entries@.len() && self.entries@[i].cx == cx && self.entries@[i].cy
                == cy;
        self.entries@[i].handle
    }

    /// An empty registry.
    pub fn new() -> (r: ChunkGrid)
        ensures
            r.wf(),
            forall|cx: int, cy: int| !r.has(cx, cy),
    {
        ChunkGrid { entries: Vec::new() }
    }

    /// Looks up the chunk at `(cx, cy)`: its handle if one is registered
    /// there, `None` otherwise.
    pub fn get(&self, cx: i32, cy: i32) -> (r: Option<u64>)
        requires
            self.wf(),
        ensures
            self.has(cx as int, cy as int) ==> r == Some(self.handle_at(cx as int, cy as int)),
            !self.has(cx as int, cy as int) ==> r is None,
    {
        let n = self.entries.len();
        let mut i: usize = 0;
        while i < n
            invariant
                self.wf(),
                i <= n,
                n == self.entries@.len(),
                forall|k: int|
                    0 <= k < i ==> !(self.entries@[k].cx == cx && self.entries@[k].cy == cy),
            decreases n - i,
        {
            let e = self.entries[i];
            if e.cx == cx && e.cy == cy {
                return Some(e.handle);
            }
            i = i + 1;
        }
        None
    }

    /// Registers `handle` at `(cx, cy)`. Succeeds exactly when the
    /// coordinate is free; afterwards that coordinate resolves to `handle`
    /// and every other coordinate resolves as before. A duplicate
    /// registration is rejected and leaves the registry unchanged.
    pub fn set(&mut self, cx: i32, cy: i32, handle: u64) -> (r: Result<(), TerrainError>)
        requires
            old(self).wf(),
        ensures
            final(self).wf(),
            old(self).has(cx as int, cy as int) ==> {
                &&& r == Err::<(), TerrainError>(TerrainError::DuplicateChunk)
                &&& *final(self) == *old(self)
            },
            !old(self).has(cx as int, cy as int) ==> {
                &&& r == Ok::<(), TerrainError>(())
                &&& final(self).has(cx as int, cy as int)
                &&& final(self).handle_at(cx as int, cy as int) == handle
            },
            forall|ox: int, oy: int|
                !(ox == cx as int && oy == cy as int)
                    ==> final(self).has(ox, oy) == old(self).has(ox, oy),
            forall|ox: int, oy: int|
                !(ox == cx as int && oy == cy as int) && old(self).has(ox, oy)
                    ==> final(self).handle_at(ox, oy) == old(self).handle_at(ox, oy),
    {
        match self.get(cx, cy) {
            Some(_) => Err(TerrainError::DuplicateChunk),
            None => {
                self.entries.push(ChunkEntry { cx, cy, handle });
                proof {
                    let ghost pre = old(self).entries@;
                    let ghost post = self.entries@;
                    assert(post == pre.push(ChunkEntry { cx, cy, handle }));
                    assert forall|i: int, j: int| 0 <= i < j < post.len()
                        implies !(post[i].cx == post[j].cx && post[i].cy == post[j].cy) by {
                        if j == pre.len() && post[i].cx == cx && post[i].cy == cy {
                            assert(pre[i].cx == cx as int && pre[i].cy == cy as int);
                            assert(old(self).has(cx as int, cy as int));
                        }
                    }
                    assert(post[pre.len() as int].cx == cx && post[pre.len() as int].cy == cy);
                    assert(final(self).has(cx as int, cy as int));
                    let i0 = choose|i: int|
                        0 <= i < post.len() && post[i].cx == cx && post[i].cy == cy;
                    if i0 < pre.len() {
                        assert(pre[i0].cx == cx && pre[i0].cy == cy);
                        assert(old(self).has(cx as int, cy as int));
                    }
                    assert(final(self).handle_at(cx as int, cy as int) == handle);
                    assert forall|ox: int, oy: int|
                        !(ox == cx as int && oy == cy as int) implies final(self).has(ox, oy)
                        == old(self).has(ox, oy) by {
                        if old(self).has(ox, oy) {
                            let i = choose|i: int|
                                0 <= i < pre.len() && pre[i].cx == ox && pre[i].cy == oy;
                            assert(post[i].cx == ox && post[i].cy == oy);
                        }
                        if final(self).has(ox, oy) {
                            let i = choose|i: int|
                                0 <= i < post.len() && post[i].cx == ox && post[i].cy == oy;
                            assert(i < pre.len());
                            assert(pre[i].cx == ox && pre[i].cy == oy);
                        }
                    }
                    assert forall|ox: int, oy: int|
                        !(ox == cx as int && oy == cy as int) && old(self).has(ox, oy)
                        implies final(self).handle_at(ox, oy) == old(self).handle_at(ox, oy) by {
                        let i = choose|i: int|
                            0 <= i < post.len() && post[i].cx == ox && post[i].cy == oy;
                        let j = choose|j: int|
                            0 <= j < pre.len() && pre[j].cx == ox && pre[j].cy == oy;
                        assert(post[j].cx == ox && post[j].cy == oy);
                        assert(i < pre.len());
                        if i != j {
                            assert(!(pre[i].cx == pre[j].cx && pre[i].cy == pre[j].cy));
                        }
                    }
                }
                Ok(())
            },
        }
    }
}

} // verus!
