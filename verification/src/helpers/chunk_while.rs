//! An adapter that cuts a sequence of items into chunks, consulting a
//! predicate on the chunk collected so far: while the predicate holds the
//! chunk keeps growing; when it stops holding, the chunk is emitted and a
//! new one starts with the incoming item.
use vstd::prelude::*;

verus! {

/// The predicate accepted the first `k` items of `chunk` as a chunk still
/// worth extending: some call on exactly that prefix returned true.
pub open spec fn grew_past<T, F: Fn(&Vec<T>) -> bool>(f: F, chunk: Seq<T>, k: int) -> bool {
    exists|v: Vec<T>| v@ == chunk.take(k) && f.ensures((&v,), true)
}

/// The predicate refused to extend `chunk`: some call on exactly it
/// returned false.
pub open spec fn cut_at<T, F: Fn(&Vec<T>) -> bool>(f: F, chunk: Seq<T>) -> bool {
    exists|v: Vec<T>| v@ == chunk && f.ensures((&v,), false)
}

/// The chunking adapter: the not-yet-consumed items, and the chunk under
/// construction.
pub struct ChunkWhile<T, F: Fn(&Vec<T>) -> bool> {
    items: Vec<T>,
    position: usize,
    chunk_while: F,
    current_chunk: Vec<T>,
}

impl<T: Copy, F: Fn(&Vec<T>) -> bool> ChunkWhile<T, F> {
    /// All items not yet handed out, in order: the chunk under
    /// construction followed by the unread remainder.
    pub closed spec fn remaining(&self) -> Seq<T> {
        self.current_chunk@ + self.items@.skip(self.position as int)
    }

    /// The predicate the chunks are cut by.
    pub closed spec fn predicate(&self) -> F {
        self.chunk_while
    }

    pub closed spec fn wf(&self) -> bool {
        &&& self.position <= self.items@.len()
        &&& forall|v: &Vec<T>| (self.chunk_while).requires((v,))
        &&& forall|k: int|
            1 <= k < self.current_chunk@.len() ==> grew_past(
                self.chunk_while,
                self.current_chunk@,
                k,
            )
    }

    /// Start chunking `items` under the predicate `chunk_while`.
    pub fn new(items: Vec<T>, chunk_while: F) -> (r: Self)
        requires
            forall|v: &Vec<T>| chunk_while.requires((v,)),
        ensures
            r.wf(),
            r.remaining() == items@,
            r.predicate() == chunk_while,
    {
        let ghost snapshot = items@;
        let r = ChunkWhile { items, position: 0, chunk_while, current_chunk: Vec::new() };
        proof {
            assert(r.remaining() =~= snapshot);
        }
        r
    }

    /// The next chunk: `None` exactly when everything has been handed
    /// out; otherwise a non-empty chunk whose every proper prefix the
    /// predicate accepted, and which the predicate itself refused to
    /// extend whenever the cut fell before the end of the items (the
    /// refusing call saw the whole chunk; the item that triggered the cut
    /// opens the next chunk).
    pub fn next(&mut self) -> (r: Option<Vec<T>>)
        requires
            old(self).wf(),
        ensures
            final(self).wf(),
            final(self).predicate() == old(self).predicate(),
            match r {
                Some(chunk) => chunk@.len() > 0 && old(self).remaining() == chunk@
                    + final(self).remaining() && (forall|k: int|
                    1 <= k < chunk@.len() ==> grew_past(old(self).predicate(), chunk@, k)) && (
                final(self).remaining().len() > 0 ==> cut_at(old(self).predicate(), chunk@)),
                None => final(self).remaining() == old(self).remaining() && old(
                    self,
                ).remaining().len() == 0,
            },
    {
        if self.current_chunk.len() == 0 {
            if self.position < self.items.len() {
                let first = self.items[self.position];
                self.current_chunk.push(first);
                self.position = self.position + 1;
                proof {
                    assert(old(self).remaining() =~= self.remaining());
                }
            } else {
                proof {
                    assert(old(self).remaining() =~= self.remaining());
                    assert(old(self).remaining().len() == 0);
                }
                return None;
            }
        }
        let ghost entry = self.remaining();
        while self.position < self.items.len()
            invariant
                self.position <= self.items@.len(),
                forall|v: &Vec<T>| (self.chunk_while).requires((v,)),
                self.chunk_while == old(self).chunk_while,
                self.current_chunk@.len() > 0,
                entry == self.current_chunk@ + self.items@.skip(self.position as int),
                entry == old(self).remaining(),
                forall|k: int|
                    1 <= k < self.current_chunk@.len() ==> grew_past(
                        self.chunk_while,
                        self.current_chunk@,
                        k,
                    ),
            decreases self.items@.len() - self.position,
        {
            let keep = (self.chunk_while)(&self.current_chunk);
            let ghost tested = self.current_chunk;
            if !keep {
                let item = self.items[self.position];
                let mut finished: Vec<T> = Vec::new();
                core::mem::swap(&mut finished, &mut self.current_chunk);
                self.current_chunk.push(item);
                self.position = self.position + 1;
                proof {
                    assert(entry =~= finished@ + self.remaining());
                    assert(cut_at(self.chunk_while, finished@)) by {
                        assert(tested@ == finished@);
                        assert((self.chunk_while).ensures((&tested,), false));
                    }
                }
                return Some(finished);
            }
            let item = self.items[self.position];
            self.current_chunk.push(item);
            self.position = self.position + 1;
            proof {
                assert(entry =~= self.current_chunk@ + self.items@.skip(self.position as int));
                let grown = self.current_chunk@;
                assert forall|k: int|
                    1 <= k < grown.len() implies grew_past(self.chunk_while, grown, k) by {
                    if k < grown.len() - 1 {
                        assert(grown.take(k) =~= tested@.take(k));
                        assert(grew_past(self.chunk_while, tested@, k));
                        let w = choose|v: Vec<T>|
                            v@ == tested@.take(k) && (self.chunk_while).ensures((&v,), true);
                        assert(w@ == grown.take(k));
                    } else {
                        assert(grown.take(k) =~= tested@);
                        assert((self.chunk_while).ensures((&tested,), true));
                    }
                }
            }
        }
        let mut finished: Vec<T> = Vec::new();
        core::mem::swap(&mut finished, &mut self.current_chunk);
        proof {
            assert(entry =~= finished@ + self.remaining());
            assert(self.remaining().len() == 0);
        }
        Some(finished)
    }
}

} // verus!
