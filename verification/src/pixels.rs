//! The display buffer: a sparse set of lit pixel coordinates.
//!
//! The 64x32 monochrome screen is modelled as the set of coordinates of
//! the pixels that are currently on. Keeping the set sparse lets a
//! renderer diff two frames by set difference and repaint only the cells
//! that changed, and lets tests compare whole display states cheaply.

use vstd::prelude::*;

verus! {

/// The coordinates of a pixel as a pair of mathematical integers.
pub open spec fn pix(p: (i32, i32)) -> (int, int) {
    (p.0 as int, p.1 as int)
}

/// The set of coordinates held in the first `k` cells of `cells`.
pub open spec fn prefix_view(cells: Seq<(i32, i32)>, k: int) -> Set<(int, int)> {
    Set::new(|q: (int, int)| exists|j: int| 0 <= j < k && pix(cells[j]) == q)
}

/// A set of lit pixel coordinates, viewed as a `Set<(int, int)>`.
pub struct PixelSet {
    cells: Vec<(i32, i32)>,
}

impl View for PixelSet {
    type V = Set<(int, int)>;

    closed spec fn view(&self) -> Set<(int, int)> {
        prefix_view(self.cells@, self.cells@.len() as int)
    }
}

impl PixelSet {
    /// No coordinate is stored twice.
    #[verifier::type_invariant]
    spec fn distinct(self) -> bool {
        forall|j: int, k: int|
            0 <= j < k < self.cells@.len() ==> pix(self.cells@[j]) != pix(self.cells@[k])
    }

    /// An empty display: no pixel is lit.
    pub fn new() -> (s: PixelSet)
        ensures
            s@ == Set::<(int, int)>::empty(),
    {
        let s = PixelSet { cells: Vec::new() };
        proof {
            assert(s@ =~= Set::<(int, int)>::empty());
        }
        s
    }

    /// Whether the pixel at `p` is lit.
    pub fn contains(&self, p: (i32, i32)) -> (r: bool)
        ensures
            r == self@.contains(pix(p)),
    {
        let n = self.cells.len();
        let mut k: usize = 0;
        while k < n
            invariant
                n == self.cells@.len(),
                k <= n,
                forall|j: int| 0 <= j < k ==> pix(self.cells@[j]) != pix(p),
            decreases n - k,
        {
            let c = self.cells[k];
            if c.0 == p.0 && c.1 == p.1 {
                proof {
                    assert(pix(self.cells@[k as int]) == pix(p));
                }
                return true;
            }
            k = k + 1;
        }
        false
    }

    /// Light the pixel at `p`; reports whether it was previously dark.
    pub fn insert(&mut self, p: (i32, i32)) -> (inserted: bool)
        ensures
            final(self)@ == old(self)@.insert(pix(p)),
            inserted == !old(self)@.contains(pix(p)),
    {
        proof {
            use_type_invariant(&*self);
        }
        if self.contains(p) {
            proof {
                assert(self@ =~= self@.insert(pix(p)));
            }
            return false;
        }
        let ghost before = self.cells@;
        let mut cells: Vec<(i32, i32)> = Vec::new();
        core::mem::swap(&mut cells, &mut self.cells);
        cells.push(p);
        self.cells = cells;
        proof {
            assert(self.cells@[before.len() as int] == p);
            assert forall|j: int| 0 <= j < before.len() implies self.cells@[j] == before[j] by {}
            assert(self@ =~= prefix_view(before, before.len() as int).insert(pix(p)));
        }
        true
    }

    /// The index of the cell holding `p`, if one does.
    fn index_of(&self, p: (i32, i32)) -> (r: Option<usize>)
        ensures
            match r {
                Some(k) => k < self.cells@.len() && pix(self.cells@[k as int]) == pix(p),
                None => forall|j: int|
                    0 <= j < self.cells@.len() ==> pix(self.cells@[j]) != pix(p),
            },
    {
        let n = self.cells.len();
        let mut k: usize = 0;
        while k < n
            invariant
                n == self.cells@.len(),
                k <= n,
                forall|j: int| 0 <= j < k ==> pix(self.cells@[j]) != pix(p),
            decreases n - k,
        {
            let c = self.cells[k];
            if c.0 == p.0 && c.1 == p.1 {
                return Some(k);
            }
            k = k + 1;
        }
        None
    }

    /// Turn the pixel at `p` off; reports whether it was lit.
    pub fn remove(&mut self, p: (i32, i32)) -> (removed: bool)
        ensures
            final(self)@ == old(self)@.remove(pix(p)),
            removed == old(self)@.contains(pix(p)),
    {
        proof {
            use_type_invariant(&*self);
        }
        let ghost before = self.cells@;
        match self.index_of(p) {
            Some(k) => {
                proof {
                    assert(self@.contains(pix(p)));
                }
                let mut cells: Vec<(i32, i32)> = Vec::new();
                core::mem::swap(&mut cells, &mut self.cells);
                cells.remove(k);
                proof {
                    before.remove_ensures(k as int);
                    assert forall|a: int, b: int| 0 <= a < b < cells@.len() implies
                        pix(cells@[a]) != pix(cells@[b]) by {
                        let a0 = if a < k { a } else { a + 1 };
                        let b0 = if b < k { b } else { b + 1 };
                        assert(cells@[a] == before[a0]);
                        assert(cells@[b] == before[b0]);
                    }
                }
                self.cells = cells;
                proof {
                    assert forall|q: (int, int)| #[trigger] self@.contains(q) implies
                        prefix_view(before, before.len() as int).contains(q) && q != pix(p) by {
                        let j = choose|j: int|
                            0 <= j < self.cells@.len() && pix(self.cells@[j]) == q;
                        let j0 = if j < k { j } else { j + 1 };
                        assert(self.cells@[j] == before[j0]);
                        assert(pix(before[j0]) == q);
                    }
                    assert forall|q: (int, int)|
                        prefix_view(before, before.len() as int).contains(q) && q != pix(p)
                        implies #[trigger] self@.contains(q) by {
                        let j0 = choose|j0: int| 0 <= j0 < before.len() && pix(before[j0]) == q;
                        assert(j0 != k);
                        let j = if j0 < k { j0 } else { j0 - 1 };
                        assert(self.cells@[j] == before[j0]);
                        assert(pix(self.cells@[j]) == q);
                    }
                    assert(self@ =~= prefix_view(before, before.len() as int).remove(pix(p)));
                }
                true
            },
            None => {
                proof {
                    if self@.contains(pix(p)) {
                        let j = choose|j: int|
                            0 <= j < self.cells@.len() && pix(self.cells@[j]) == pix(p);
                        assert(false);
                    }
                    assert(self@ =~= self@.remove(pix(p)));
                }
                false
            },
        }
    }

    /// Turn every pixel off.
    pub fn clear(&mut self)
        ensures
            final(self)@ == Set::<(int, int)>::empty(),
    {
        self.cells = Vec::new();
        proof {
            assert(self@ =~= Set::<(int, int)>::empty());
        }
    }

    /// Whether no pixel is lit.
    pub fn is_empty(&self) -> (r: bool)
        ensures
            r == (self@ == Set::<(int, int)>::empty()),
    {
        let r = self.cells.len() == 0;
        proof {
            if self.cells@.len() == 0 {
                assert(self@ =~= Set::<(int, int)>::empty());
            } else {
                assert(self@.contains(pix(self.cells@[0])));
            }
        }
        r
    }

    /// An independent copy with the same lit pixels, for renderers that
    /// keep the previous frame to diff against.
    pub fn snapshot(&self) -> (s: PixelSet)
        ensures
            s@ == self@,
    {
        proof {
            use_type_invariant(&*self);
        }
        let n = self.cells.len();
        let mut out: Vec<(i32, i32)> = Vec::new();
        let mut k: usize = 0;
        while k < n
            invariant
                n == self.cells@.len(),
                k <= n,
                out@ == self.cells@.subrange(0, k as int),
            decreases n - k,
        {
            out.push(self.cells[k]);
            proof {
                assert(out@ =~= self.cells@.subrange(0, k + 1 as int));
            }
            k = k + 1;
        }
        proof {
            assert(out@ =~= self.cells@);
        }
        let s = PixelSet { cells: out };
        proof {
            assert(s@ =~= self@);
        }
        s
    }

    /// The lit pixels as a list of coordinates, each exactly once, for a
    /// renderer to walk.
    pub fn to_vec(&self) -> (v: Vec<(i32, i32)>)
        ensures
            forall|j: int| 0 <= j < v@.len() ==> self@.contains(pix(v@[j])),
            forall|q: (int, int)| self@.contains(q)
                ==> exists|j: int| 0 <= j < v@.len() && pix(v@[j]) == q,
            forall|j: int, k: int| 0 <= j < k < v@.len() ==> pix(v@[j]) != pix(v@[k]),
    {
        proof {
            use_type_invariant(&*self);
        }
        let s = self.snapshot();
        proof {
            use_type_invariant(&s);
            assert forall|j: int| 0 <= j < s.cells@.len() implies
                #[trigger] self@.contains(pix(s.cells@[j])) by {
                assert(s@.contains(pix(s.cells@[j])));
            }
            assert forall|q: (int, int)| #[trigger] self@.contains(q) implies
                exists|j: int| 0 <= j < s.cells@.len() && pix(s.cells@[j]) == q by {
                assert(s@.contains(q));
            }
        }
        s.cells
    }

    /// The pixels lit in `self` but not in `other`: the cells a renderer
    /// must repaint when going from frame `other` to frame `self`.
    pub fn difference(&self, other: &PixelSet) -> (d: PixelSet)
        ensures
            d@ == self@.difference(other@),
    {
        proof {
            use_type_invariant(&*self);
        }
        let n = self.cells.len();
        let mut d = PixelSet::new();
        let mut k: usize = 0;
        while k < n
            invariant
                n == self.cells@.len(),
                k <= n,
                d@ =~= prefix_view(self.cells@, k as int).difference(other@),
            decreases n - k,
        {
            let c = self.cells[k];
            if !other.contains(c) {
                d.insert(c);
            }
            proof {
                assert(prefix_view(self.cells@, k + 1 as int) =~=
                    prefix_view(self.cells@, k as int).insert(pix(self.cells@[k as int])));
            }
            k = k + 1;
        }
        proof {
            assert(d@ =~= self@.difference(other@));
        }
        d
    }

    /// Whether the same pixels are lit in both displays.
    pub fn equals(&self, other: &PixelSet) -> (r: bool)
        ensures
            r == (self@ == other@),
    {
        let fwd = self.subset_of(other);
        let bwd = other.subset_of(self);
        proof {
            if fwd && bwd {
                assert(self@ =~= other@);
            }
        }
        fwd && bwd
    }

    /// Whether every pixel lit in `self` is lit in `other`.
    fn subset_of(&self, other: &PixelSet) -> (r: bool)
        ensures
            r == self@.subset_of(other@),
    {
        proof {
            use_type_invariant(&*self);
        }
        let n = self.cells.len();
        let mut k: usize = 0;
        while k < n
            invariant
                n == self.cells@.len(),
                k <= n,
                forall|j: int| 0 <= j < k ==> other@.contains(pix(self.cells@[j])),
            decreases n - k,
        {
            let c = self.cells[k];
            if !other.contains(c) {
                proof {
                    assert(self@.contains(pix(self.cells@[k as int])));
                }
                return false;
            }
            k = k + 1;
        }
        proof {
            assert forall|q: (int, int)| #[trigger] self@.contains(q) implies
                other@.contains(q) by {
                let j = choose|j: int| 0 <= j < self.cells@.len() && pix(self.cells@[j]) == q;
                assert(other@.contains(pix(self.cells@[j])));
            }
        }
        true
    }
}

} // verus!
