//! A quad tree that spreads items over the quarters of a region, so that
//! each item gets a region of its own.
//!
//! A node does not hold coordinates: its place is the path of quarters
//! that leads to it from the root, one index from 0 to 3 per level
//! (0 and 1 the lower-left and lower-right quarter, 2 and 3 the upper-left
//! and upper-right one). The region of a node follows from the region of
//! the root by halving along that path.
use vstd::prelude::*;
use vstd::arithmetic::power::pow;

verus! {

/// What a node holds.
pub enum QuadLeaf<T> {
    /// One item, placed in the whole region of the node.
    Leaf(T),
    /// Nothing.
    Empty,
    /// Four children, one per quarter, in the order of their indices.
    Collapsed(Vec<QuadTree<T>>),
}

/// A node of the tree.
pub struct QuadTree<T> {
    pub leaf: QuadLeaf<T>,
    pub depth: usize,
    pub max_depth: usize,
    /// The quarters from the root to this node.
    pub quadrant: Vec<u8>,
}

/// The number of items among `n` that dealing in turn over `c` piles puts
/// on pile `k`.
pub open spec fn part_len(n: int, c: int, k: int) -> int {
    if n > k {
        (n - 1 - k) / c + 1
    } else {
        0
    }
}

/// Pile `k` of dealing `xs` in turn over `c` piles: the items at positions
/// `k`, `k + c`, `k + 2c`, ... in order.
pub open spec fn part<T>(xs: Seq<T>, c: int, k: int) -> Seq<T> {
    Seq::new(part_len(xs.len() as int, c, k) as nat, |j: int| xs[k + c * j])
}

/// Whether a node may still be split: it is above the deepest level and not
/// split yet.
pub open spec fn splittable<T>(t: QuadTree<T>) -> bool {
    t.depth < t.max_depth && !(t.leaf is Collapsed)
}

/// The items of a tree, each with the path of the node that holds it, in
/// the order of a walk that visits the quarters in the order of their
/// indices.
pub open spec fn items<T>(t: QuadTree<T>) -> Seq<(Seq<u8>, T)>
    decreases t,
{
    match t.leaf {
        QuadLeaf::Leaf(x) => seq![(t.quadrant@, x)],
        QuadLeaf::Empty => Seq::empty(),
        QuadLeaf::Collapsed(cs) => if cs@.len() == 4 {
            items(cs@[0]) + items(cs@[1]) + items(cs@[2]) + items(cs@[3])
        } else {
            Seq::empty()
        },
    }
}

/// The shape that every node keeps: it lies no deeper than its limit, and a
/// split node has four children one level deeper, with the same limit, each
/// at its quarter, each again of this shape.
pub open spec fn wf<T>(t: QuadTree<T>) -> bool
    decreases t,
{
    &&& t.depth <= t.max_depth
    &&& match t.leaf {
        QuadLeaf::Collapsed(cs) => {
            &&& cs@.len() == 4
            &&& t.depth < t.max_depth
            &&& forall|i: int|
                0 <= i < 4 ==> {
                    &&& (#[trigger] cs@[i]).depth == t.depth + 1
                    &&& cs@[i].max_depth == t.max_depth
                    &&& cs@[i].quadrant@ == t.quadrant@.push(i as u8)
                }
            &&& wf(cs@[0])
            &&& wf(cs@[1])
            &&& wf(cs@[2])
            &&& wf(cs@[3])
        },
        _ => true,
    }
}

/// The items that feeding `xs` to an empty node at `path`, of depth `d` and
/// limit `m`, places: none for no item; a single item at the node itself;
/// more items are dealt in turn over the four quarters and fed to them,
/// and are dropped at the deepest level.
pub open spec fn fed_items<T>(path: Seq<u8>, d: int, m: int, xs: Seq<T>) -> Seq<(Seq<u8>, T)>
    decreases m - d,
{
    if xs.len() == 0 {
        Seq::empty()
    } else if xs.len() == 1 {
        seq![(path, xs[0])]
    } else if d >= m {
        Seq::empty()
    } else {
        fed_items(path.push(0u8), d + 1, m, part(xs, 4, 0)) + fed_items(path.push(1u8), d + 1, m, part(xs, 4, 1))
            + fed_items(path.push(2u8), d + 1, m, part(xs, 4, 2)) + fed_items(
            path.push(3u8),
            d + 1,
            m,
            part(xs, 4, 3),
        )
    }
}

/// The node that feeding `xs` to an empty node gives: empty for no item;
/// a leaf holding the item for one; for more, empty at the deepest level,
/// and otherwise split into four quarters, each the node that feeding its
/// pile to it gives (so a quarter dealt nothing stays empty).
pub open spec fn fed_tree<T>(t: QuadTree<T>, xs: Seq<T>) -> bool
    decreases t,
{
    if xs.len() == 0 {
        t.leaf is Empty
    } else if xs.len() == 1 {
        t.leaf == QuadLeaf::Leaf(xs[0])
    } else if t.depth >= t.max_depth {
        t.leaf is Empty
    } else {
        match t.leaf {
            QuadLeaf::Collapsed(cs) => if cs@.len() == 4 {
                &&& fed_tree(cs@[0], part(xs, 4, 0))
                &&& fed_tree(cs@[1], part(xs, 4, 1))
                &&& fed_tree(cs@[2], part(xs, 4, 2))
                &&& fed_tree(cs@[3], part(xs, 4, 3))
            } else {
                false
            },
            _ => false,
        }
    }
}

impl<T> QuadTree<T> {
    /// An empty root whose items may lie up to `max_depth` levels deep.
    pub fn new(max_depth: usize) -> (t: Self)
        ensures
            wf(t),
            t.depth == 0,
            t.max_depth == max_depth,
            t.quadrant@ == Seq::<u8>::empty(),
            t.leaf is Empty,
            items(t) == Seq::<(Seq<u8>, T)>::empty(),
    {
        QuadTree { leaf: QuadLeaf::Empty, depth: 0, max_depth, quadrant: Vec::new() }
    }

    fn new_child(quadrant: Vec<u8>, max_depth: usize, depth: usize) -> (t: Self)
        requires
            depth <= max_depth,
        ensures
            wf(t),
            t.depth == depth,
            t.max_depth == max_depth,
            t.quadrant@ == quadrant@,
            t.leaf is Empty,
            items(t) == Seq::<(Seq<u8>, T)>::empty(),
    {
        QuadTree { quadrant, depth, max_depth, leaf: QuadLeaf::Empty }
    }

    /// Whether the node may still be split.
    pub fn can_collapse(&self) -> (b: bool)
        ensures
            b == splittable(*self),
    {
        if self.depth >= self.max_depth {
            return false;
        }
        if let QuadLeaf::Collapsed(_) = self.leaf {
            return false;
        }
        true
    }

    /// Splits the node into four empty quarters, when it may still be
    /// split; what it held before is dropped. Tells whether it split.
    pub fn collapse(&mut self) -> (split: bool)
        requires
            wf(*old(self)),
        ensures
            split == splittable(*old(self)),
            wf(*final(self)),
            final(self).depth == old(self).depth,
            final(self).max_depth == old(self).max_depth,
            final(self).quadrant@ == old(self).quadrant@,
            !split ==> *final(self) == *old(self),
            split ==> final(self).leaf is Collapsed && items(*final(self)) == Seq::<(Seq<u8>, T)>::empty(),
            split ==> (final(self).leaf matches QuadLeaf::Collapsed(cs) && forall|i: int|
                0 <= i < 4 ==> (#[trigger] cs@[i]).leaf is Empty),
    {
        if self.depth >= self.max_depth {
            return false;
        }
        if let QuadLeaf::Collapsed(_) = self.leaf {
            return false;
        }
        let mut children: Vec<QuadTree<T>> = Vec::new();
        let mut k: u8 = 0;
        while k < 4
            invariant
                k <= 4,
                self.depth < self.max_depth,
                children@.len() == k,
                forall|i: int|
                    0 <= i < k ==> {
                        &&& wf(#[trigger] children@[i])
                        &&& children@[i].depth == self.depth + 1
                        &&& children@[i].max_depth == self.max_depth
                        &&& children@[i].quadrant@ == self.quadrant@.push(i as u8)
                        &&& children@[i].leaf is Empty
                    },
            decreases 4 - k,
        {
            let mut path = self.quadrant.clone();
            path.push(k);
            proof {
                assert(path@ =~= self.quadrant@.push(k));
            }
            children.push(QuadTree::new_child(path, self.max_depth, self.depth + 1));
            k = k + 1;
        }
        let ghost cs = children@;
        proof {
            assert(items(cs[0]) =~= Seq::<(Seq<u8>, T)>::empty());
            assert(items(cs[1]) =~= Seq::<(Seq<u8>, T)>::empty());
            assert(items(cs[2]) =~= Seq::<(Seq<u8>, T)>::empty());
            assert(items(cs[3]) =~= Seq::<(Seq<u8>, T)>::empty());
        }
        self.leaf = QuadLeaf::Collapsed(children);
        proof {
            assert(items(*self) =~= Seq::<(Seq<u8>, T)>::empty());
        }
        true
    }
}


proof fn lemma_part_step<T>(xs: Seq<T>, i: int, k: int)
    requires
        0 <= i < xs.len(),
        0 <= k < 4,
    ensures
        part(xs.take(i + 1), 4, k) == if i % 4 == k {
            part(xs.take(i), 4, k).push(xs[i])
        } else {
            part(xs.take(i), 4, k)
        },
{
    let a = part(xs.take(i), 4, k);
    let b = part(xs.take(i + 1), 4, k);
    assert(xs.take(i).len() == i);
    assert(xs.take(i + 1).len() == i + 1);
    if i % 4 == k {
        assert(b.len() == a.len() + 1);
        assert(k + 4 * a.len() == i);
        assert(b =~= a.push(xs[i]));
    } else {
        assert(b.len() == a.len());
        assert(b =~= a);
    }
}

/// Deals `things` in turn over four piles, moving each item.
fn deal<T>(things: Vec<T>) -> (piles: (Vec<T>, Vec<T>, Vec<T>, Vec<T>))
    ensures
        piles.0@ == part(things@, 4, 0),
        piles.1@ == part(things@, 4, 1),
        piles.2@ == part(things@, 4, 2),
        piles.3@ == part(things@, 4, 3),
{
    let ghost xs = things@;
    let mut p0: Vec<T> = Vec::new();
    let mut p1: Vec<T> = Vec::new();
    let mut p2: Vec<T> = Vec::new();
    let mut p3: Vec<T> = Vec::new();
    let n = things.len();
    let mut i: usize = 0;
    assert(part(xs.take(0), 4, 0) =~= p0@);
    assert(part(xs.take(0), 4, 1) =~= p1@);
    assert(part(xs.take(0), 4, 2) =~= p2@);
    assert(part(xs.take(0), 4, 3) =~= p3@);
    for x in it: things.into_iter()
        invariant
            it.seq() == xs,
            xs.len() == n,
            i == it.index(),
            p0@ == part(xs.take(i as int), 4, 0),
            p1@ == part(xs.take(i as int), 4, 1),
            p2@ == part(xs.take(i as int), 4, 2),
            p3@ == part(xs.take(i as int), 4, 3),
    {
        proof {
            lemma_part_step(xs, i as int, 0);
            lemma_part_step(xs, i as int, 1);
            lemma_part_step(xs, i as int, 2);
            lemma_part_step(xs, i as int, 3);
        }
        assert(i < n);
        let r = i % 4;
        if r == 0 {
            p0.push(x);
        } else if r == 1 {
            p1.push(x);
        } else if r == 2 {
            p2.push(x);
        } else {
            p3.push(x);
        }
        i = i + 1;
    }
    assert(xs.take(xs.len() as int) =~= xs);
    (p0, p1, p2, p3)
}


proof fn lemma_child_fed<T>(before: QuadTree<T>, after: QuadTree<T>, p: Seq<T>)
    requires
        before.leaf is Empty,
        before.depth <= before.max_depth,
        if p.len() == 0 || (p.len() >= 2 && !splittable(before)) {
            after == before
        } else {
            fed_tree(after, p)
        },
        items(after) == if p.len() == 0 || (p.len() >= 2 && !splittable(before)) {
            items(before)
        } else {
            fed_items(before.quadrant@, before.depth as int, before.max_depth as int, p)
        },
    ensures
        items(after) == fed_items(before.quadrant@, before.depth as int, before.max_depth as int, p),
        fed_tree(after, p),
{
    assert(items(before) =~= Seq::<(Seq<u8>, T)>::empty());
}

impl<T> QuadTree<T> {
    /// Places `things` in the tree: a single item in this node; more items
    /// dealt in turn over the four quarters of this node, once it has been
    /// split, and fed to them. Items that reach the deepest level in
    /// company, or a node that cannot be split, are dropped.
    pub fn feed(&mut self, things: Vec<T>)
        requires
            wf(*old(self)),
        ensures
            wf(*final(self)),
            final(self).depth == old(self).depth,
            final(self).max_depth == old(self).max_depth,
            final(self).quadrant@ == old(self).quadrant@,
            items(*final(self)) == if things@.len() == 0 || (things@.len() >= 2 && !splittable(*old(self))) {
                items(*old(self))
            } else {
                fed_items(old(self).quadrant@, old(self).depth as int, old(self).max_depth as int, things@)
            },
            if things@.len() == 0 || (things@.len() >= 2 && !splittable(*old(self))) {
                *final(self) == *old(self)
            } else {
                fed_tree(*final(self), things@)
            },
        decreases old(self).max_depth - old(self).depth,
    {
        let ghost xs = things@;
        let mut things = things;
        if things.len() == 0 {
            return;
        }
        if things.len() == 1 {
            let x = things.pop().unwrap();
            self.leaf = QuadLeaf::Leaf(x);
            return;
        }
        if !self.collapse() {
            return;
        }
        let ghost split = *self;
        let mut leaf = QuadLeaf::Empty;
        std::mem::swap(&mut leaf, &mut self.leaf);
        match leaf {
            QuadLeaf::Collapsed(mut children) => {
                let ghost cs = children@;
                let (p0, p1, p2, p3) = deal(things);
                let mut c3 = children.pop().unwrap();
                let mut c2 = children.pop().unwrap();
                let mut c1 = children.pop().unwrap();
                let mut c0 = children.pop().unwrap();
                proof {
                    assert(c0 == cs[0] && c1 == cs[1] && c2 == cs[2] && c3 == cs[3]);
                    assert(items(c0) =~= Seq::<(Seq<u8>, T)>::empty());
                    assert(items(c1) =~= Seq::<(Seq<u8>, T)>::empty());
                    assert(items(c2) =~= Seq::<(Seq<u8>, T)>::empty());
                    assert(items(c3) =~= Seq::<(Seq<u8>, T)>::empty());
                }
                let ghost (b0, b1, b2, b3) = (c0, c1, c2, c3);
                let ghost (q0, q1, q2, q3) = (p0@, p1@, p2@, p3@);
                c0.feed(p0);
                c1.feed(p1);
                c2.feed(p2);
                c3.feed(p3);
                proof {
                    lemma_child_fed(b0, c0, q0);
                    lemma_child_fed(b1, c1, q1);
                    lemma_child_fed(b2, c2, q2);
                    lemma_child_fed(b3, c3, q3);
                }
                let mut fed: Vec<QuadTree<T>> = Vec::new();
                fed.push(c0);
                fed.push(c1);
                fed.push(c2);
                fed.push(c3);
                let ghost f = fed@;
                self.leaf = QuadLeaf::Collapsed(fed);
                proof {
                    assert(f[0] == c0 && f[1] == c1 && f[2] == c2 && f[3] == c3);
                    assert forall|i: int| 0 <= i < 4 implies {
                        &&& (#[trigger] f[i]).depth == self.depth + 1
                        &&& f[i].max_depth == self.max_depth
                        &&& f[i].quadrant@ == self.quadrant@.push(i as u8)
                    } by {
                        assert(cs[i].depth == split.depth + 1);
                    }
                    assert(wf(*self));
                    assert(items(*self) == items(f[0]) + items(f[1]) + items(f[2]) + items(f[3]));
                    assert(b0.quadrant@ == split.quadrant@.push(0u8));
                    assert(b1.quadrant@ == split.quadrant@.push(1u8));
                    assert(b2.quadrant@ == split.quadrant@.push(2u8));
                    assert(b3.quadrant@ == split.quadrant@.push(3u8));
                    assert(items(*self) == fed_items(split.quadrant@, split.depth as int, split.max_depth as int, xs));
                    assert(fed_tree(*self, xs));
                }
            },
            _ => {
                assert(false);
            },
        }
    }
}


impl<T: Clone> QuadTree<T> {
    /// Every item of the tree with the path of its node, in the order of a
    /// walk that visits the quarters in the order of their indices.
    pub fn iter(&self) -> (out: Vec<(Vec<u8>, T)>)
        requires
            wf(*self),
        ensures
            out@.len() == items(*self).len(),
            forall|i: int|
                0 <= i < out@.len() ==> (#[trigger] out@[i]).0@ == items(*self)[i].0 && cloned(
                    items(*self)[i].1,
                    out@[i].1,
                ),
        decreases *self,
    {
        match &self.leaf {
            QuadLeaf::Leaf(x) => {
                let mut out: Vec<(Vec<u8>, T)> = Vec::new();
                let path = self.quadrant.clone();
                let item = x.clone();
                assert(path@ =~= self.quadrant@);
                out.push((path, item));
                out
            },
            QuadLeaf::Empty => Vec::new(),
            QuadLeaf::Collapsed(cs) => {
                let mut out: Vec<(Vec<u8>, T)> = Vec::new();
                let mut k: usize = 0;
                while k < 4
                    invariant
                        k <= 4,
                        wf(*self),
                        self.leaf == QuadLeaf::Collapsed(*cs),
                        out@.len() == items_upto(cs@, k as int).len(),
                        forall|i: int|
                            0 <= i < out@.len() ==> (#[trigger] out@[i]).0@ == items_upto(cs@, k as int)[i].0
                                && cloned(items_upto(cs@, k as int)[i].1, out@[i].1),
                    decreases 4 - k,
                {
                    let ghost before = out@;
                    let mut sub = cs[k].iter();
                    let ghost got = sub@;
                    out.append(&mut sub);
                    proof {
                        assert(items_upto(cs@, k as int + 1) == items_upto(cs@, k as int) + items(cs@[k as int]));
                        assert forall|i: int| 0 <= i < out@.len() implies (#[trigger] out@[i]).0@ == items_upto(cs@, k as int + 1)[i].0
                            && cloned(items_upto(cs@, k as int + 1)[i].1, out@[i].1) by {
                            if i < before.len() {
                                assert(out@[i] == before[i]);
                            } else {
                                assert(out@[i] == got[i - before.len()]);
                            }
                        }
                    }
                    k = k + 1;
                }
                proof {
                    assert(items_upto(cs@, 0) =~= Seq::<(Seq<u8>, T)>::empty());
                    assert(items_upto(cs@, 1) == items_upto(cs@, 0) + items(cs@[0]));
                    assert(items_upto(cs@, 1) =~= items(cs@[0]));
                    assert(items_upto(cs@, 2) == items(cs@[0]) + items(cs@[1]));
                    assert(items_upto(cs@, 3) == items(cs@[0]) + items(cs@[1]) + items(cs@[2]));
                    assert(items(*self) == items_upto(cs@, 4));
                }
                out
            },
        }
    }
}

/// The items of the first `k` children, one child after another.
pub open spec fn items_upto<T>(cs: Seq<QuadTree<T>>, k: int) -> Seq<(Seq<u8>, T)>
    decreases k,
{
    if k <= 0 {
        Seq::empty()
    } else {
        items_upto(cs, k - 1) + items(cs[k - 1])
    }
}


proof fn lemma_position_in_range(n: int, c: int, k: int, j: int)
    requires
        c > 0,
        0 <= k < n,
        0 <= j < (n - 1 - k) / c + 1,
    ensures
        0 <= k + c * j < n,
{
    assert(j <= (n - 1 - k) / c);
    assert(c * j <= n - 1 - k) by (nonlinear_arith)
        requires
            c > 0,
            0 <= j <= (n - 1 - k) / c,
            n - 1 - k >= 0,
    {
        assert(c * ((n - 1 - k) / c) <= n - 1 - k);
        assert(c * j <= c * ((n - 1 - k) / c));
    }
    assert(c * j >= 0) by (nonlinear_arith)
        requires
            c > 0,
            j >= 0,
    ;
}

/// Deals `data` in turn over `channels` piles: pile `k` gets copies of the
/// items at positions `k`, `k + channels`, `k + 2 channels`, ... in order.
pub fn splice<T: Clone>(channels: usize, data: &[T]) -> (out: Vec<Vec<T>>)
    requires
        channels > 0,
    ensures
        out@.len() == channels,
        forall|k: int|
            0 <= k < channels ==> (#[trigger] out@[k])@.len() == part_len(data@.len() as int, channels as int, k),
        forall|k: int, j: int|
            0 <= k < channels && 0 <= j < out@[k]@.len() ==> cloned(
                data@[k + channels * j],
                #[trigger] out@[k]@[j],
            ),
{
    let n = data.len();
    let mut out: Vec<Vec<T>> = Vec::new();
    let mut k: usize = 0;
    while k < channels
        invariant
            n == data@.len(),
            k <= channels,
            out@.len() == k,
            forall|a: int| 0 <= a < k ==> (#[trigger] out@[a])@.len() == part_len(n as int, channels as int, a),
            forall|a: int, j: int|
                0 <= a < k && 0 <= j < out@[a]@.len() ==> cloned(
                    data@[a + channels * j],
                    #[trigger] out@[a]@[j],
                ),
        decreases channels - k,
    {
        let count = if n > k {
            (n - 1 - k) / channels + 1
        } else {
            0
        };
        let mut pile: Vec<T> = Vec::new();
        let mut j: usize = 0;
        while j < count
            invariant
                n == data@.len(),
                k < channels,
                count == part_len(n as int, channels as int, k as int),
                j <= count,
                pile@.len() == j,
                forall|i: int| 0 <= i < j ==> cloned(data@[k + channels * i], #[trigger] pile@[i]),
            decreases count - j,
        {
            proof {
                lemma_position_in_range(n as int, channels as int, k as int, j as int);
            }
            let idx = k + channels * j;
            pile.push(data[idx].clone());
            j = j + 1;
        }
        out.push(pile);
        k = k + 1;
    }
    out
}


/// Every path of `s` extends `p` by at most `extra` quarters.
pub open spec fn paths_under<T>(s: Seq<(Seq<u8>, T)>, p: Seq<u8>, extra: int) -> bool {
    forall|i: int|
        0 <= i < s.len() ==> {
            &&& p.len() <= (#[trigger] s[i]).0.len() <= p.len() + extra
            &&& s[i].0.subrange(0, p.len() as int) == p
        }
}

/// No two entries of `s` share a path.
pub open spec fn distinct_paths<T>(s: Seq<(Seq<u8>, T)>) -> bool {
    forall|i: int, j: int| 0 <= i < s.len() && 0 <= j < s.len() && i != j ==> #[trigger] s[i].0 != #[trigger] s[j].0
}

proof fn lemma_parts(n: int)
    requires
        n >= 2,
    ensures
        part_len(n, 4, 0) + part_len(n, 4, 1) + part_len(n, 4, 2) + part_len(n, 4, 3) == n,
        part_len(n, 4, 1) <= part_len(n, 4, 0),
        part_len(n, 4, 2) <= part_len(n, 4, 0),
        part_len(n, 4, 3) <= part_len(n, 4, 0),
        part_len(n, 4, 0) == (n - 1) / 4 + 1,
{
}

proof fn lemma_fed_len<T>(path: Seq<u8>, d: int, m: int, xs: Seq<T>)
    requires
        d <= m,
    ensures
        fed_items(path, d, m, xs).len() <= xs.len(),
        fed_items(path, d, m, xs).len() == xs.len() <==> xs.len() <= pow(4, (m - d) as nat),
    decreases m - d,
{
    vstd::arithmetic::power::lemma_pow_positive(4, (m - d) as nat);
    if xs.len() >= 2 && d < m {
        let n = xs.len() as int;
        let e = (m - d - 1) as nat;
        lemma_parts(n);
        lemma_fed_len(path.push(0u8), d + 1, m, part(xs, 4, 0));
        lemma_fed_len(path.push(1u8), d + 1, m, part(xs, 4, 1));
        lemma_fed_len(path.push(2u8), d + 1, m, part(xs, 4, 2));
        lemma_fed_len(path.push(3u8), d + 1, m, part(xs, 4, 3));
        assert(pow(4, (m - d) as nat) == 4 * pow(4, e)) by {
            reveal(pow);
        }
    } else if xs.len() >= 2 {
        vstd::arithmetic::power::lemma_pow0(4);
    }
}

proof fn lemma_fed_paths<T>(path: Seq<u8>, d: int, m: int, xs: Seq<T>)
    requires
        d <= m,
    ensures
        paths_under(fed_items(path, d, m, xs), path, m - d),
        distinct_paths(fed_items(path, d, m, xs)),
    decreases m - d,
{
    let f = fed_items(path, d, m, xs);
    if xs.len() >= 2 && d < m {
        let fs = Seq::new(4, |k: int| fed_items(path.push(k as u8), d + 1, m, part(xs, 4, k)));
        lemma_fed_paths(path.push(0u8), d + 1, m, part(xs, 4, 0));
        lemma_fed_paths(path.push(1u8), d + 1, m, part(xs, 4, 1));
        lemma_fed_paths(path.push(2u8), d + 1, m, part(xs, 4, 2));
        lemma_fed_paths(path.push(3u8), d + 1, m, part(xs, 4, 3));
        let a = fs[0];
        let b = fs[1];
        let c = fs[2];
        let e = fs[3];
        assert(f == a + b + c + e);
        let la = a.len() as int;
        let lb = la + b.len();
        let lc = lb + c.len();
        // The child that holds entry `i`, and its quarter index.
        assert forall|i: int| 0 <= i < f.len() implies {
            &&& path.len() + 1 <= (#[trigger] f[i]).0.len() <= path.len() + (m - d)
            &&& f[i].0.subrange(0, path.len() as int) == path
            &&& f[i].0[path.len() as int] == (if i < la { 0u8 } else if i < lb { 1u8 } else if i < lc { 2u8 } else { 3u8 })
        } by {
            let (k, s, off) = if i < la {
                (0u8, a, 0int)
            } else if i < lb {
                (1u8, b, la)
            } else if i < lc {
                (2u8, c, lb)
            } else {
                (3u8, e, lc)
            };
            assert(f[i] == s[i - off]);
            let q = path.push(k);
            assert(s[i - off].0.subrange(0, q.len() as int) == q);
            assert(f[i].0.subrange(0, path.len() as int) =~= q.subrange(0, path.len() as int));
            assert(q.subrange(0, path.len() as int) =~= path);
            assert(f[i].0[path.len() as int] == q[path.len() as int]);
        }
        assert forall|i: int, j: int| 0 <= i < f.len() && 0 <= j < f.len() && i != j implies #[trigger] f[i].0
            != #[trigger] f[j].0 by {
            if f[i].0[path.len() as int] == f[j].0[path.len() as int] {
                if i < la {
                    assert(j < la);
                    assert(f[i] == a[i] && f[j] == a[j]);
                } else if i < lb {
                    assert(la <= j < lb);
                    assert(f[i] == b[i - la] && f[j] == b[j - la]);
                } else if i < lc {
                    assert(lb <= j < lc);
                    assert(f[i] == c[i - lb] && f[j] == c[j - lb]);
                } else {
                    assert(lc <= j);
                    assert(f[i] == e[i - lc] && f[j] == e[j - lc]);
                }
            }
        }
    } else if xs.len() == 1 {
        assert(f[0].0.subrange(0, path.len() as int) =~= path);
    }
}

/// Feeding items to an empty node drops none of them exactly when there
/// are at most four to the power of the levels left below the node; it
/// never places more items than it was given.
pub proof fn law_feed_keeps_all_items_iff_they_fit<T>(path: Seq<u8>, d: int, m: int, xs: Seq<T>)
    requires
        d <= m,
    ensures
        fed_items(path, d, m, xs).len() <= xs.len(),
        fed_items(path, d, m, xs).len() == xs.len() <==> xs.len() <= pow(4, (m - d) as nat),
{
    lemma_fed_len(path, d, m, xs);
}

/// Feeding items to an empty node places each in a region of its own: no
/// two placed items share a node, and each lies at most `m - d` levels
/// below the node that was fed.
pub proof fn law_fed_items_get_regions_of_their_own<T>(path: Seq<u8>, d: int, m: int, xs: Seq<T>)
    requires
        d <= m,
    ensures
        distinct_paths(fed_items(path, d, m, xs)),
        paths_under(fed_items(path, d, m, xs), path, m - d),
{
    lemma_fed_paths(path, d, m, xs);
}

/// The items of placed entries, without their paths.
pub open spec fn placed<T>(s: Seq<(Seq<u8>, T)>) -> Seq<T> {
    s.map_values(|e: (Seq<u8>, T)| e.1)
}

/// Dealing over four piles neither loses nor copies an item: the four
/// piles of a prefix of `xs` hold together the items of that prefix.
proof fn lemma_parts_multiset<T>(xs: Seq<T>, i: int)
    requires
        0 <= i <= xs.len(),
    ensures
        part(xs.take(i), 4, 0).to_multiset().add(part(xs.take(i), 4, 1).to_multiset()).add(
            part(xs.take(i), 4, 2).to_multiset(),
        ).add(part(xs.take(i), 4, 3).to_multiset()) == xs.take(i).to_multiset(),
    decreases i,
{
    broadcast use {vstd::multiset::group_multiset_axioms, vstd::seq_lib::group_to_multiset_ensures};

    let t = xs.take(i);
    if i == 0 {
        assert(t =~= Seq::<T>::empty());
        assert(part(t, 4, 0) =~= Seq::<T>::empty());
        assert(part(t, 4, 1) =~= Seq::<T>::empty());
        assert(part(t, 4, 2) =~= Seq::<T>::empty());
        assert(part(t, 4, 3) =~= Seq::<T>::empty());
        assert(Seq::<T>::empty().to_multiset() =~= vstd::multiset::Multiset::<T>::empty());
        assert(t.to_multiset() =~= vstd::multiset::Multiset::<T>::empty());
        let e = vstd::multiset::Multiset::<T>::empty();
        assert(e.add(e).add(e).add(e) =~= e);
    } else {
        lemma_parts_multiset(xs, i - 1);
        lemma_part_step(xs, i - 1, 0);
        lemma_part_step(xs, i - 1, 1);
        lemma_part_step(xs, i - 1, 2);
        lemma_part_step(xs, i - 1, 3);
        let s = xs.take(i - 1);
        assert(t =~= s.push(xs[i - 1]));
        let x = xs[i - 1];
        let m0 = part(s, 4, 0).to_multiset();
        let m1 = part(s, 4, 1).to_multiset();
        let m2 = part(s, 4, 2).to_multiset();
        let m3 = part(s, 4, 3).to_multiset();
        let n0 = part(t, 4, 0).to_multiset();
        let n1 = part(t, 4, 1).to_multiset();
        let n2 = part(t, 4, 2).to_multiset();
        let n3 = part(t, 4, 3).to_multiset();
        assert(t.to_multiset() =~= s.to_multiset().insert(x));
        let k = (i - 1) % 4;
        if k == 0 {
            assert(n0 =~= m0.insert(x));
        } else if k == 1 {
            assert(n1 =~= m1.insert(x));
        } else if k == 2 {
            assert(n2 =~= m2.insert(x));
        } else {
            assert(n3 =~= m3.insert(x));
        }
        assert(n0.add(n1).add(n2).add(n3) =~= m0.add(m1).add(m2).add(m3).insert(x));
    }
}

/// Feeding items to an empty node places only items it was given, each at
/// most as often as it was given; when they fit (at most four to the power
/// of the levels left below the node), it places exactly the given items,
/// each as often as it was given.
pub proof fn law_fed_items_are_the_given_ones<T>(path: Seq<u8>, d: int, m: int, xs: Seq<T>)
    requires
        d <= m,
    ensures
        placed(fed_items(path, d, m, xs)).to_multiset().subset_of(xs.to_multiset()),
        xs.len() <= pow(4, (m - d) as nat) ==> placed(fed_items(path, d, m, xs)).to_multiset() == xs.to_multiset(),
    decreases m - d,
{
    broadcast use {vstd::multiset::group_multiset_axioms, vstd::seq_lib::group_to_multiset_ensures};

    vstd::arithmetic::power::lemma_pow_positive(4, (m - d) as nat);
    let f = fed_items(path, d, m, xs);
    if xs.len() == 0 {
        assert(placed(f) =~= Seq::<T>::empty());
        assert(xs =~= Seq::<T>::empty());
    } else if xs.len() == 1 {
        assert(placed(f) =~= xs);
    } else if d >= m {
        assert(placed(f) =~= Seq::<T>::empty());
        assert(placed(f).to_multiset() =~= vstd::multiset::Multiset::<T>::empty());
        vstd::arithmetic::power::lemma_pow0(4);
    } else {
        let n = xs.len() as int;
        let e = (m - d - 1) as nat;
        lemma_parts(n);
        let x0 = part(xs, 4, 0);
        let x1 = part(xs, 4, 1);
        let x2 = part(xs, 4, 2);
        let x3 = part(xs, 4, 3);
        law_fed_items_are_the_given_ones(path.push(0u8), d + 1, m, x0);
        law_fed_items_are_the_given_ones(path.push(1u8), d + 1, m, x1);
        law_fed_items_are_the_given_ones(path.push(2u8), d + 1, m, x2);
        law_fed_items_are_the_given_ones(path.push(3u8), d + 1, m, x3);
        let a = placed(fed_items(path.push(0u8), d + 1, m, x0));
        let b = placed(fed_items(path.push(1u8), d + 1, m, x1));
        let c = placed(fed_items(path.push(2u8), d + 1, m, x2));
        let g = placed(fed_items(path.push(3u8), d + 1, m, x3));
        assert(placed(f) =~= a + b + c + g);
        vstd::seq_lib::lemma_multiset_commutative(a + b + c, g);
        vstd::seq_lib::lemma_multiset_commutative(a + b, c);
        vstd::seq_lib::lemma_multiset_commutative(a, b);
        let pm = placed(f).to_multiset();
        assert(pm =~= a.to_multiset().add(b.to_multiset()).add(c.to_multiset()).add(g.to_multiset()));
        lemma_parts_multiset(xs, n);
        assert(xs.take(n) =~= xs);
        let xm = x0.to_multiset().add(x1.to_multiset()).add(x2.to_multiset()).add(x3.to_multiset());
        assert(xm == xs.to_multiset());
        assert forall|v: T| #[trigger] pm.count(v) <= xm.count(v) by {
            assert(a.to_multiset().count(v) <= x0.to_multiset().count(v));
            assert(b.to_multiset().count(v) <= x1.to_multiset().count(v));
            assert(c.to_multiset().count(v) <= x2.to_multiset().count(v));
            assert(g.to_multiset().count(v) <= x3.to_multiset().count(v));
        }
        if n <= pow(4, (m - d) as nat) {
            assert(pow(4, (m - d) as nat) == 4 * pow(4, e)) by {
                reveal(pow);
            }
            assert(x0.len() <= pow(4, e));
            assert(x1.len() <= pow(4, e));
            assert(x2.len() <= pow(4, e));
            assert(x3.len() <= pow(4, e));
            assert((m - (d + 1)) as nat == e);
        }
    }
}

} // verus!
