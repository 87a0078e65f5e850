use vstd::prelude::*;

use crate::btree::keys::bytes_to_vec;
use crate::btree::node::{leaf_readable, spec_decode_leaf, LeafEntry, LeafNode};
use crate::error::{BTreeError, StorageError};
use crate::storage::pager::Pager;

verus! {

/// Where following the leaf chain from a page on leads: loading each page and passing over
/// the leaves that hold no entries.
pub enum ChainEnd {
    /// At leaf page `leaf`, which holds entries.
    Loaded(u32),
    /// At the last leaf of the chain, which holds none.
    End,
    /// At a page number beyond the store.
    OutOfBounds(u32),
    /// Nowhere: a page that is no readable leaf, or a chain of empty leaves that loops.
    Stuck,
}

/// Following the leaf chain from page `n`, loading at most `fuel` further pages.
pub open spec fn follow(pages: Seq<Seq<u8>>, n: u32, fuel: nat) -> ChainEnd
    decreases fuel,
{
    if n >= pages.len() {
        ChainEnd::OutOfBounds(n)
    } else if !leaf_readable(pages[n as int]) {
        ChainEnd::Stuck
    } else {
        let node = spec_decode_leaf(pages[n as int]);
        if node.entries.len() > 0 {
            ChainEnd::Loaded(n)
        } else if node.next_leaf == 0 {
            ChainEnd::End
        } else if fuel == 0 {
            ChainEnd::Stuck
        } else {
            follow(pages, node.next_leaf, (fuel - 1) as nat)
        }
    }
}

/// The state of a cursor: the entries of the current leaf still to come, the leaf after it
/// (0 for none), and whether the scan is over.
pub struct CursorView {
    pub rest: Seq<(Seq<u8>, Seq<u8>)>,
    pub next_leaf: u32,
    pub finished: bool,
}

/// A forward scan over the entries of the leaves, in chain order.
#[derive(Debug)]
pub struct Cursor {
    index: usize,
    entries: Vec<LeafEntry>,
    next_leaf: u32,
    finished: bool,
}

impl View for Cursor {
    type V = CursorView;

    closed spec fn view(&self) -> CursorView {
        CursorView {
            rest: Seq::new(self.entries@.len(), |i: int| self.entries@[i]@).skip(self.index as int),
            next_leaf: self.next_leaf,
            finished: self.finished,
        }
    }
}

/// What one step of a cursor yields and leaves, given the pages.
pub open spec fn cursor_step(pages: Seq<Seq<u8>>, c: CursorView) -> (Option<Result<Option<(Seq<u8>, Seq<u8>)>, u32>>, CursorView) {
    if c.finished {
        (Some(Ok(None)), c)
    } else if c.rest.len() > 0 {
        (Some(Ok(Some(c.rest[0]))), CursorView { rest: c.rest.drop_first(), ..c })
    } else if c.next_leaf == 0 {
        (Some(Ok(None)), CursorView { rest: Seq::empty(), next_leaf: 0, finished: true })
    } else {
        match follow(pages, c.next_leaf, pages.len()) {
            ChainEnd::Loaded(l) => {
                let node = spec_decode_leaf(pages[l as int]);
                (
                    Some(Ok(Some(node.entries[0]))),
                    CursorView { rest: node.entries.drop_first(), next_leaf: node.next_leaf, finished: false },
                )
            },
            ChainEnd::End => (Some(Ok(None)), CursorView { rest: Seq::empty(), next_leaf: 0, finished: true }),
            ChainEnd::OutOfBounds(m) => (Some(Err(m)), CursorView { rest: Seq::empty(), next_leaf: m, finished: false }),
            ChainEnd::Stuck => (None, c),
        }
    }
}

impl Cursor {
    /// An index into the entries never passes their end.
    #[verifier::type_invariant]
    closed spec fn index_in_range(&self) -> bool {
        self.index <= self.entries@.len()
    }

    /// A cursor with nothing to yield.
    pub fn empty() -> (c: Self)
        ensures
            c@.finished,
            c@.rest.len() == 0,
            c@.next_leaf == 0,
    {
        Cursor { index: 0, entries: Vec::new(), next_leaf: 0, finished: true }
    }

    /// A cursor at entry `index` of a leaf's entries, with `next_leaf` after that leaf.
    pub(crate) fn from_leaf(entries: Vec<LeafEntry>, index: usize, next_leaf: u32) -> (c: Self)
        requires
            index <= entries@.len(),
        ensures
            c@ == (CursorView {
                rest: Seq::new(entries@.len(), |i: int| entries@[i]@).skip(index as int),
                next_leaf,
                finished: false,
            }),
    {
        Cursor { index, entries, next_leaf, finished: false }
    }

    /// The next entry, loading the following leaves as the current one runs out.
    pub fn next(&mut self, pager: &Pager) -> (r: Result<Option<(Vec<u8>, Vec<u8>)>, BTreeError>)
        requires
            pager.wf(),
            cursor_step(pager.images(), old(self)@).0 is Some,
        ensures
            final(self)@ == cursor_step(pager.images(), old(self)@).1,
            match cursor_step(pager.images(), old(self)@).0 {
                Some(Ok(Some(e))) => r matches Ok(Some((k, p))) && k@ == e.0 && p@ == e.1,
                Some(Ok(None)) => r matches Ok(None),
                Some(Err(m)) => r matches Err(BTreeError::Storage(StorageError::PageOutOfBounds(n))) && n == m,
                None => false,
            },
    {
        proof {
            use_type_invariant(&*self);
        }
        let ghost pages = pager.images();
        let ghost start = self@;
        if self.finished {
            return Ok(None);
        }
        if self.index < self.entries.len() {
            let e = &self.entries[self.index];
            let k = bytes_to_vec(e.key.as_slice());
            let p = bytes_to_vec(e.payload.as_slice());
            assert(start.rest[0] == self.entries@[self.index as int]@);
            self.index = self.index + 1;
            assert(self@.rest =~= start.rest.drop_first());
            return Ok(Some((k, p)));
        }
        if self.next_leaf == 0 {
            *self = Cursor { index: 0, entries: Vec::new(), next_leaf: 0, finished: true };
            assert(self@.rest =~= Seq::<(Seq<u8>, Seq<u8>)>::empty());
            return Ok(None);
        }
        let mut fuel = pager.page_count();
        loop
            invariant
                pager.wf(),
                pages == pager.images(),
                start == old(self)@,
                !start.finished,
                start.rest.len() == 0,
                start.next_leaf != 0,
                !self.finished,
                self.next_leaf != 0,
                self.index == self.entries@.len(),
                follow(pages, self.next_leaf, fuel as nat) == follow(pages, start.next_leaf, pages.len()),
                !(follow(pages, start.next_leaf, pages.len()) is Stuck),
                fuel <= pages.len(),
            decreases fuel,
        {
            let page = match pager.get_page(self.next_leaf) {
                Ok(p) => p,
                Err(e) => {
                    *self = Cursor { index: 0, entries: Vec::new(), next_leaf: self.next_leaf, finished: false };
                    assert(self@.rest =~= Seq::<(Seq<u8>, Seq<u8>)>::empty());
                    return Err(BTreeError::Storage(e));
                },
            };
            let ghost current = self.next_leaf;
            let node = LeafNode::decode(page);
            assert(node@ == spec_decode_leaf(pages[current as int]));
            if node.entries.len() > 0 {
                let e = &node.entries[0];
                let k = bytes_to_vec(e.key.as_slice());
                let p = bytes_to_vec(e.payload.as_slice());
                assert(node@.entries[0] == e@);
                let ghost nv = node@;
                *self = Cursor { index: 1, entries: node.entries, next_leaf: node.next_leaf, finished: false };
                assert(self@.rest =~= nv.entries.drop_first());
                return Ok(Some((k, p)));
            }
            if node.next_leaf == 0 {
                *self = Cursor { index: 0, entries: Vec::new(), next_leaf: 0, finished: true };
                assert(self@.rest =~= Seq::<(Seq<u8>, Seq<u8>)>::empty());
                return Ok(None);
            }
            self.next_leaf = node.next_leaf;
            fuel = fuel - 1;
        }
    }
}

} // verus!
