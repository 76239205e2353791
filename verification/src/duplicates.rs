//! Grouping near-identical photos by their perceptual hashes.
//!
//! Two photos whose hashes differ in at most [`DUPLICATE_THRESHOLD`] of their bits
//! are near-duplicates, and near-duplicates of near-duplicates end up together:
//! the groups are the connected pieces of the "near-duplicate" relation, found
//! with a union-find over every pair.
use vstd::prelude::*;

verus! {

/// Hamming-distance threshold (out of 64 bits) below which two images are
/// considered duplicates. The default 8x8 gradient hash tolerates minor
/// recompression and resizing up to roughly this distance while still telling
/// unrelated images apart.
pub const DUPLICATE_THRESHOLD: u32 = 8;

/// Disjoint sets over `0..n`, with path compression.
pub struct UnionFind {
    parent: Vec<usize>,
    /// The representative of each element's set.
    rep: Ghost<Seq<int>>,
    /// Strictly increases from a child to its parent; bounds the walk to a root.
    level: Ghost<Seq<nat>>,
}

impl View for UnionFind {
    type V = Seq<int>;

    /// The representative of each element: two elements are in the same set
    /// exactly when they have the same representative.
    closed spec fn view(&self) -> Seq<int> {
        self.rep@
    }
}

/// A forest whose roots stand for the sets: `rep` names each element's root and
/// `level` strictly increases from a child to its parent.
#[verifier::opaque]
pub open spec fn forest(p: Seq<usize>, rep: Seq<int>, level: Seq<nat>) -> bool {
    let n = p.len();
    &&& rep.len() == n
    &&& level.len() == n
    &&& forall|x: int| 0 <= x < n ==> #[trigger] p[x] < n
    &&& forall|x: int| 0 <= x < n ==> 0 <= #[trigger] rep[x] < n
    &&& forall|x: int| 0 <= x < n ==> p[#[trigger] rep[x]] == rep[x]
    &&& forall|x: int| 0 <= x < n ==> rep[p[x] as int] == #[trigger] rep[x]
    &&& forall|x: int| 0 <= x < n ==> (#[trigger] p[x] == x <==> rep[x] == x)
    &&& forall|x: int| 0 <= x < n && #[trigger] p[x] != x ==> level[x] < level[p[x] as int]
    &&& forall|x: int| 0 <= x < n && #[trigger] p[x] != x ==> level[x] < level[rep[x]]
}

proof fn lemma_forest_facts(p: Seq<usize>, rep: Seq<int>, level: Seq<nat>, x: int)
    requires
        forest(p, rep, level),
        0 <= x < p.len(),
    ensures
        rep.len() == p.len(),
        level.len() == p.len(),
        p[x] < p.len(),
        0 <= rep[x] < p.len(),
        p[rep[x]] == rep[x],
        rep[rep[x]] == rep[x],
        rep[p[x] as int] == rep[x],
        p[x] == x <==> rep[x] == x,
        p[x] != x ==> level[x] < level[p[x] as int],
        level[x] <= level[rep[x]],
{
    reveal(forest);
    let r = rep[x];
    assert(p[r] == r);
    assert(p[r] == r <==> rep[r] == r);
}

proof fn lemma_forest_compress(p: Seq<usize>, rep: Seq<int>, level: Seq<nat>, x: int)
    requires
        forest(p, rep, level),
        0 <= x < p.len(),
    ensures
        forest(p.update(x, rep[x] as usize), rep, level),
{
    reveal(forest);
    let n = p.len();
    let q = p.update(x, rep[x] as usize);
    assert(p[rep[x]] == rep[x]);
    assert forall|y: int| 0 <= y < n implies rep[q[y] as int] == #[trigger] rep[y] by {
        if y == x {
            assert(p[rep[x]] == rep[x] <==> rep[rep[x]] == rep[x]);
        }
    }
    assert forall|y: int| 0 <= y < n implies (#[trigger] q[y] == y <==> rep[y] == y) by {
        if y == x {
            assert(p[x] == x <==> rep[x] == x);
        }
    }
    assert forall|y: int| 0 <= y < n && #[trigger] q[y] != y implies level[y] < level[q[y] as int] by {
        if y == x {
            assert(p[x] != x);
        }
    }
    assert forall|y: int| 0 <= y < n implies q[#[trigger] rep[y]] == rep[y] by {
        if rep[y] == x {
            assert(p[rep[y]] == rep[y]);
        }
    }
    assert forall|y: int| 0 <= y < n && #[trigger] q[y] != y implies level[y] < level[rep[y]] by {
        if y == x {
            assert(p[x] != x);
        }
    }
}

pub open spec fn merged(rep: Seq<int>, ra: int, rb: int) -> Seq<int> {
    rep.map_values(|v: int| if v == ra { rb } else { v })
}

proof fn lemma_forest_link(p: Seq<usize>, rep: Seq<int>, level: Seq<nat>, ra: int, rb: int) -> (new_level: Seq<nat>)
    requires
        forest(p, rep, level),
        0 <= ra < p.len(),
        0 <= rb < p.len(),
        ra != rb,
        p[ra] == ra,
        p[rb] == rb,
    ensures
        new_level.len() == p.len(),
        forest(p.update(ra, rb as usize), merged(rep, ra, rb), new_level),
{
    reveal(forest);
    let n = p.len();
    let q = p.update(ra, rb as usize);
    let new_rep = merged(rep, ra, rb);
    let top = if level[ra] + 1 > level[rb] { level[ra] + 1 } else { level[rb] };
    let new_level = level.update(rb, top);
    assert(p[ra] == ra <==> rep[ra] == ra);
    assert(p[rb] == rb <==> rep[rb] == rb);
    assert forall|y: int| 0 <= y < n implies 0 <= #[trigger] new_rep[y] < n by {
        assert(new_rep[y] == if rep[y] == ra { rb } else { rep[y] });
    }
    assert forall|y: int| 0 <= y < n implies q[#[trigger] new_rep[y]] == new_rep[y] by {
        assert(new_rep[y] == if rep[y] == ra { rb } else { rep[y] });
        assert(p[rep[y]] == rep[y]);
    }
    assert forall|y: int| 0 <= y < n implies new_rep[q[y] as int] == #[trigger] new_rep[y] by {
        assert(new_rep[y] == if rep[y] == ra { rb } else { rep[y] });
        if y != ra {
            assert(rep[p[y] as int] == rep[y]);
            assert(p[y] < n);
            assert(new_rep[p[y] as int] == if rep[p[y] as int] == ra { rb } else { rep[p[y] as int] });
        } else {
            assert(new_rep[rb] == if rep[rb] == ra { rb } else { rep[rb] });
        }
    }
    assert forall|y: int| 0 <= y < n implies (#[trigger] q[y] == y <==> new_rep[y] == y) by {
        assert(new_rep[y] == if rep[y] == ra { rb } else { rep[y] });
        assert(p[y] == y <==> rep[y] == y);
    }
    assert forall|y: int| 0 <= y < n && #[trigger] q[y] != y implies new_level[y] < new_level[q[y] as int] by {
        if y != ra {
            assert(p[y] != y);
            assert(level[y] < level[p[y] as int]);
            assert(y != rb);
        }
    }
    assert forall|y: int| 0 <= y < n && #[trigger] q[y] != y implies new_level[y] < new_level[new_rep[y]] by {
        assert(new_rep[y] == if rep[y] == ra { rb } else { rep[y] });
        if y != ra {
            assert(p[y] != y);
            assert(y != rb);
            assert(level[y] < level[rep[y]]);
        }
    }
    new_level
}

impl UnionFind {
    pub closed spec fn wf(&self) -> bool {
        &&& self.parent@.len() == self.rep@.len()
        &&& self.level@.len() == self.rep@.len()
        &&& forest(self.parent@, self.rep@, self.level@)
    }

    /// How far `x` may still be from its representative.
    pub closed spec fn height(&self, x: int) -> int {
        self.level@[self.rep@[x]] - self.level@[x]
    }

    /// Every element in a set of its own.
    pub fn new(n: usize) -> (uf: Self)
        ensures
            uf.wf(),
            uf@ == Seq::new(n as nat, |i: int| i),
    {
        let mut parent: Vec<usize> = Vec::new();
        let mut i: usize = 0;
        while i < n
            invariant
                i <= n,
                parent@ == Seq::new(i as nat, |k: int| k as usize),
            decreases n - i,
        {
            parent.push(i);
            i = i + 1;
            proof {
                assert(parent@ =~= Seq::new(i as nat, |k: int| k as usize));
            }
        }
        let uf = UnionFind {
            parent,
            rep: Ghost(Seq::new(n as nat, |i: int| i)),
            level: Ghost(Seq::new(n as nat, |i: int| 0nat)),
        };
        proof {
            reveal(forest);
        }
        uf
    }

    /// Every representative is one of the elements.
    pub proof fn lemma_representatives_in_range(&self)
        requires
            self.wf(),
        ensures
            forall|x: int| 0 <= x < self@.len() ==> 0 <= #[trigger] self@[x] < self@.len(),
    {
        assert forall|x: int| 0 <= x < self@.len() implies 0 <= #[trigger] self@[x] < self@.len() by {
            lemma_forest_facts(self.parent@, self.rep@, self.level@, x);
        }
    }

    /// How many elements there are.
    pub fn len(&self) -> (n: usize)
        requires
            self.wf(),
        ensures
            n == self@.len(),
    {
        proof {
            reveal(forest);
        }
        self.parent.len()
    }

    /// The representative of `x`'s set. Shortens the path it walked, which
    /// changes no set.
    pub fn find(&mut self, x: usize) -> (r: usize)
        requires
            old(self).wf(),
            x < old(self)@.len(),
        ensures
            final(self).wf(),
            final(self)@ == old(self)@,
            r == old(self)@[x as int],
            r < old(self)@.len(),
        decreases old(self).height(x as int),
    {
        proof {
            lemma_forest_facts(self.parent@, self.rep@, self.level@, x as int);
        }
        let p = self.parent[x];
        if p == x {
            return x;
        }
        proof {
            lemma_forest_facts(self.parent@, self.rep@, self.level@, p as int);
        }
        let r = self.find(p);
        proof {
            lemma_forest_compress(self.parent@, self.rep@, self.level@, x as int);
            lemma_forest_facts(self.parent@, self.rep@, self.level@, x as int);
        }
        self.parent.set(x, r);
        r
    }

    /// Merges the sets of `a` and `b`.
    pub fn union(&mut self, a: usize, b: usize)
        requires
            old(self).wf(),
            a < old(self)@.len(),
            b < old(self)@.len(),
        ensures
            final(self).wf(),
            final(self)@ == merged(old(self)@, old(self)@[a as int], old(self)@[b as int]),
    {
        let ghost start = self@;
        let ra = self.find(a);
        let rb = self.find(b);
        proof {
            lemma_forest_facts(self.parent@, self.rep@, self.level@, a as int);
            lemma_forest_facts(self.parent@, self.rep@, self.level@, b as int);
        }
        if ra != rb {
            proof {
                let new_level = lemma_forest_link(self.parent@, self.rep@, self.level@, ra as int, rb as int);
                self.level = Ghost(new_level);
                self.rep = Ghost(merged(self.rep@, ra as int, rb as int));
            }
            self.parent.set(ra, rb);
        } else {
            proof {
                assert(self@ =~= merged(start, start[a as int], start[b as int]));
            }
        }
    }
}

/* ------------------------------------------------------------ hashes -- */

/// The number of 1-bits of `x`.
pub open spec fn ones(x: nat) -> nat
    decreases x,
{
    if x == 0 {
        0
    } else {
        x % 2 + ones(x / 2)
    }
}

proof fn lemma_ones_bound(x: nat, k: nat)
    requires
        x < vstd::arithmetic::power2::pow2(k),
    ensures
        ones(x) <= k,
    decreases k,
{
    if x > 0 {
        if k == 0 {
            assert(vstd::arithmetic::power2::pow2(0) == 1) by {
                vstd::arithmetic::power2::lemma2_to64();
            }
        } else {
            vstd::arithmetic::power2::lemma_pow2_unfold(k);
            assert(vstd::arithmetic::power2::pow2(k) == 2 * vstd::arithmetic::power2::pow2((k - 1) as nat));
            lemma_ones_bound(x / 2, (k - 1) as nat);
        }
    }
}

/// The number of 1-bits of a byte.
fn count_ones(x: u8) -> (r: u32)
    ensures
        r == ones(x as nat),
        r <= 8,
{
    proof {
        vstd::arithmetic::power2::lemma2_to64();
        lemma_ones_bound(x as nat, 8);
    }
    let mut v: u8 = x;
    let mut count: u32 = 0;
    while v > 0
        invariant
            count + ones(v as nat) == ones(x as nat),
            ones(x as nat) <= 8,
        decreases v,
    {
        count = count + (v % 2) as u32;
        v = v / 2;
    }
    count
}

/// The Hamming distance between the first `k` bytes of two hashes.
pub open spec fn hamming_upto(a: Seq<u8>, b: Seq<u8>, k: int) -> nat
    decreases k,
{
    if k <= 0 {
        0
    } else {
        hamming_upto(a, b, k - 1) + ones((a[k - 1] ^ b[k - 1]) as nat)
    }
}

/// The Hamming distance between two hashes: the 1-bits of their XOR, over the
/// bytes both have.
pub open spec fn hamming(a: Seq<u8>, b: Seq<u8>) -> nat {
    hamming_upto(a, b, if a.len() <= b.len() { a.len() as int } else { b.len() as int })
}

proof fn lemma_hamming_upto_symmetric(a: Seq<u8>, b: Seq<u8>, k: int)
    ensures
        hamming_upto(a, b, k) == hamming_upto(b, a, k),
    decreases k,
{
    if k > 0 {
        lemma_hamming_upto_symmetric(a, b, k - 1);
        let x = a[k - 1];
        let y = b[k - 1];
        assert(x ^ y == y ^ x) by (bit_vector);
    }
}

proof fn lemma_hamming_upto_bound(a: Seq<u8>, b: Seq<u8>, k: int)
    requires
        k >= 0,
    ensures
        hamming_upto(a, b, k) <= 8 * k,
    decreases k,
{
    if k > 0 {
        lemma_hamming_upto_bound(a, b, k - 1);
        vstd::arithmetic::power2::lemma2_to64();
        lemma_ones_bound((a[k - 1] ^ b[k - 1]) as nat, 8);
    }
}

/// The longest hash this library compares: up to here the distance, at most
/// eight per byte, always fits the `u32` that `ImageHash::dist` sums into.
pub open spec fn hash_fits(h: Seq<u8>) -> bool {
    h.len() <= 0x1fff_ffff
}

/// The Hamming distance between two hashes, as `ImageHash::dist` counts it: the
/// 1-bits of the XOR of the bytes the two hashes have in common.
pub fn hash_distance(a: &Vec<u8>, b: &Vec<u8>) -> (d: u32)
    requires
        hash_fits(a@) || hash_fits(b@),
    ensures
        d == hamming(a@, b@),
{
    let n = if a.len() <= b.len() { a.len() } else { b.len() };
    let mut total: u32 = 0;
    let mut i: usize = 0;
    while i < n
        invariant
            n == (if a@.len() <= b@.len() { a@.len() } else { b@.len() }),
            n <= 0x1fff_ffff,
            i <= n,
            total == hamming_upto(a@, b@, i as int),
        decreases n - i,
    {
        let c = count_ones(a[i] ^ b[i]);
        proof {
            lemma_hamming_upto_bound(a@, b@, i as int);
        }
        total = total + c;
        i = i + 1;
    }
    total
}

/* ------------------------------------------------------------ chains -- */

/// Whether hashes `i` and `j` are near-duplicates.
pub open spec fn near(h: Seq<Seq<u8>>, i: int, j: int) -> bool {
    hamming(h[i], h[j]) <= DUPLICATE_THRESHOLD
}

/// A walk through the photos in which each step joins two near-duplicates.
pub open spec fn is_chain(h: Seq<Seq<u8>>, c: Seq<int>) -> bool {
    &&& c.len() >= 1
    &&& forall|k: int| 0 <= k < c.len() ==> 0 <= #[trigger] c[k] < h.len()
    &&& forall|k: int| 0 <= k < c.len() - 1 ==> #[trigger] near(h, c[k], c[k + 1])
}

/// Whether a chain of near-duplicates leads from photo `x` to photo `y`.
pub open spec fn linked(h: Seq<Seq<u8>>, x: int, y: int) -> bool {
    exists|c: Seq<int>| is_chain(h, c) && c[0] == x && c.last() == y
}

proof fn lemma_linked_refl(h: Seq<Seq<u8>>, x: int)
    requires
        0 <= x < h.len(),
    ensures
        linked(h, x, x),
{
    let c = seq![x];
    assert(is_chain(h, c) && c[0] == x && c.last() == x);
}

proof fn lemma_near_symmetric(h: Seq<Seq<u8>>, x: int, y: int)
    ensures
        near(h, x, y) == near(h, y, x),
{
    let a = h[x];
    let b = h[y];
    lemma_hamming_upto_symmetric(a, b, if a.len() <= b.len() { a.len() as int } else { b.len() as int });
}

proof fn lemma_linked_extend(h: Seq<Seq<u8>>, x: int, y: int, z: int)
    requires
        linked(h, x, y),
        near(h, y, z),
        0 <= z < h.len(),
    ensures
        linked(h, x, z),
{
    let c = choose|c: Seq<int>| is_chain(h, c) && c[0] == x && c.last() == y;
    let d = c.push(z);
    assert forall|k: int| 0 <= k < d.len() - 1 implies #[trigger] near(h, d[k], d[k + 1]) by {
        if k < c.len() - 1 {
            assert(near(h, c[k], c[k + 1]));
        }
    }
    assert(is_chain(h, d) && d[0] == x && d.last() == z);
}

proof fn lemma_linked_trans(h: Seq<Seq<u8>>, x: int, y: int, z: int)
    requires
        linked(h, x, y),
        linked(h, y, z),
    ensures
        linked(h, x, z),
{
    let c = choose|c: Seq<int>| is_chain(h, c) && c[0] == x && c.last() == y;
    let e = choose|e: Seq<int>| is_chain(h, e) && e[0] == y && e.last() == z;
    let d = c + e.drop_first();
    assert forall|k: int| 0 <= k < d.len() implies 0 <= #[trigger] d[k] < h.len() by {
        if k >= c.len() {
            assert(d[k] == e[k - c.len() + 1]);
        }
    }
    assert forall|k: int| 0 <= k < d.len() - 1 implies #[trigger] near(h, d[k], d[k + 1]) by {
        if k < c.len() - 1 {
            assert(near(h, c[k], c[k + 1]));
        } else if k == c.len() - 1 {
            assert(d[k] == y);
            assert(d[k + 1] == e[1]);
            assert(near(h, e[0], e[1]));
        } else {
            let j = k - c.len() + 1;
            assert(d[k] == e[j]);
            assert(d[k + 1] == e[j + 1]);
            assert(near(h, e[j], e[j + 1]));
        }
    }
    if e.len() == 1 {
        assert(d =~= c);
    }
    assert(is_chain(h, d) && d[0] == x && d.last() == z);
}

/* ------------------------------------------------------------ groups -- */

/// Photos that share a representative are joined by a chain of near-duplicates.
pub open spec fn sound(h: Seq<Seq<u8>>, rep: Seq<int>) -> bool {
    forall|x: int, y: int|
        #![trigger rep[x], rep[y]]
        0 <= x < h.len() && 0 <= y < h.len() && rep[x] == rep[y] ==> linked(h, x, y)
}

proof fn lemma_union_sound(h: Seq<Seq<u8>>, rep: Seq<int>, a: int, b: int)
    requires
        rep.len() == h.len(),
        sound(h, rep),
        0 <= a < h.len(),
        0 <= b < h.len(),
        near(h, a, b),
    ensures
        sound(h, merged(rep, rep[a], rep[b])),
{
    let m = merged(rep, rep[a], rep[b]);
    assert forall|x: int, y: int|
        #![trigger m[x], m[y]]
        0 <= x < h.len() && 0 <= y < h.len() && m[x] == m[y] implies linked(h, x, y) by {
        let ra = rep[a];
        let rb = rep[b];
        assert(m[x] == if rep[x] == ra { rb } else { rep[x] });
        assert(m[y] == if rep[y] == ra { rb } else { rep[y] });
        if rep[x] == rep[y] {
        } else if rep[x] == ra {
            assert(rep[y] == rb);
            assert(linked(h, x, a));
            lemma_linked_extend(h, x, a, b);
            assert(linked(h, b, y));
            lemma_linked_trans(h, x, b, y);
        } else {
            assert(rep[x] == rb && rep[y] == ra);
            assert(linked(h, x, b));
            lemma_near_symmetric(h, a, b);
            lemma_linked_extend(h, x, b, a);
            assert(linked(h, a, y));
            lemma_linked_trans(h, x, a, y);
        }
    }
}

/// What the duplicate groups of a library are: each holds at least two photos,
/// in increasing order, and no photo is in two groups; every two photos of a
/// group are joined by a chain of near-duplicates; and every two near-duplicates
/// share a group.
pub open spec fn is_grouping(h: Seq<Seq<u8>>, groups: Seq<Seq<usize>>) -> bool {
    &&& forall|g: int| 0 <= g < groups.len() ==> #[trigger] groups[g].len() >= 2
    &&& forall|g: int, p: int, q: int|
        0 <= g < groups.len() && 0 <= p < q < groups[g].len() ==> #[trigger] groups[g][p] < #[trigger] groups[g][q]
    &&& forall|g: int, p: int| 0 <= g < groups.len() && 0 <= p < groups[g].len() ==> #[trigger] groups[g][p] < h.len()
    &&& forall|g1: int, p1: int, g2: int, p2: int|
        0 <= g1 < groups.len() && 0 <= g2 < groups.len() && 0 <= p1 < groups[g1].len() && 0 <= p2
            < groups[g2].len() && #[trigger] groups[g1][p1] == #[trigger] groups[g2][p2] ==> g1 == g2
    &&& forall|g: int, p: int, q: int|
        0 <= g < groups.len() && 0 <= p < groups[g].len() && 0 <= q < groups[g].len() ==> linked(
            h,
            #[trigger] groups[g][p] as int,
            #[trigger] groups[g][q] as int,
        )
    &&& forall|i: int, j: int|
        0 <= i < h.len() && 0 <= j < h.len() && i != j && #[trigger] near(h, i, j) ==> exists|g: int, p: int, q: int|
            0 <= g < groups.len() && 0 <= p < groups[g].len() && 0 <= q < groups[g].len()
                && #[trigger] groups[g][p] == i && #[trigger] groups[g][q] == j
}

pub open spec fn hashes_view(hashes: Seq<Vec<u8>>) -> Seq<Seq<u8>> {
    hashes.map_values(|v: Vec<u8>| v@)
}

pub open spec fn groups_view(groups: Seq<Vec<usize>>) -> Seq<Seq<usize>> {
    groups.map_values(|v: Vec<usize>| v@)
}

/// Whether the pair `(p, q)` has been compared once row `i` is done up to column `j`.
pub open spec fn compared(i: int, j: int, p: int, q: int) -> bool {
    &&& 0 <= p < q
    &&& (p < i || (p == i && q < j))
}

/// Groups near-identical photos: `hashes[i]` is the perceptual hash of photo `i`,
/// and each group lists the photos it holds. Photos with no near-duplicate are in
/// no group.
///
/// This compares every pair — fine at the scale of a personal library; a very
/// large one would want bucketing instead.
pub fn duplicate_clusters(hashes: &Vec<Vec<u8>>) -> (groups: Vec<Vec<usize>>)
    requires
        forall|i: int| 0 <= i < hashes@.len() ==> hash_fits(#[trigger] hashes@[i]@),
    ensures
        is_grouping(hashes_view(hashes@), groups_view(groups@)),
{
    let n = hashes.len();
    let ghost h = hashes_view(hashes@);
    let mut uf = UnionFind::new(n);
    proof {
        assert forall|x: int, y: int|
            #![trigger uf@[x], uf@[y]]
            0 <= x < h.len() && 0 <= y < h.len() && uf@[x] == uf@[y] implies linked(h, x, y) by {
            lemma_linked_refl(h, x);
        }
    }
    let mut i: usize = 0;
    while i < n
        invariant
            n == hashes@.len(),
            h == hashes_view(hashes@),
            forall|t: int| 0 <= t < hashes@.len() ==> hash_fits(#[trigger] hashes@[t]@),
            i <= n,
            uf.wf(),
            uf@.len() == n,
            sound(h, uf@),
            forall|p: int, q: int|
                #![trigger uf@[p], uf@[q]]
                q < n && compared(i as int, 0, p, q) && near(h, p, q) ==> uf@[p] == uf@[q],
        decreases n - i,
    {
        let mut j: usize = i + 1;
        while j < n
            invariant
                n == hashes@.len(),
                h == hashes_view(hashes@),
                forall|t: int| 0 <= t < hashes@.len() ==> hash_fits(#[trigger] hashes@[t]@),
                i < n,
                i + 1 <= j <= n,
                uf.wf(),
                uf@.len() == n,
                sound(h, uf@),
                forall|p: int, q: int|
                    #![trigger uf@[p], uf@[q]]
                    q < n && compared(i as int, j as int, p, q) && near(h, p, q) ==> uf@[p] == uf@[q],
            decreases n - j,
        {
            let d = hash_distance(&hashes[i], &hashes[j]);
            if d <= DUPLICATE_THRESHOLD {
                let ghost before = uf@;
                proof {
                    assert(h[i as int] == hashes@[i as int]@);
                    assert(h[j as int] == hashes@[j as int]@);
                    lemma_union_sound(h, before, i as int, j as int);
                }
                uf.union(i, j);
                proof {
                    let m = uf@;
                    assert forall|p: int, q: int|
                        #![trigger m[p], m[q]]
                        q < n && compared(i as int, j + 1, p, q) && near(h, p, q) implies m[p] == m[q] by {
                        if compared(i as int, j as int, p, q) {
                            assert(before[p] == before[q]);
                        }
                        assert(m[p] == if before[p] == before[i as int] { before[j as int] } else { before[p] });
                        assert(m[q] == if before[q] == before[i as int] { before[j as int] } else { before[q] });
                    }
                }
            } else {
                proof {
                    assert(h[i as int] == hashes@[i as int]@);
                    assert(h[j as int] == hashes@[j as int]@);
                    let m = uf@;
                    assert forall|p: int, q: int|
                        #![trigger m[p], m[q]]
                        q < n && compared(i as int, j + 1, p, q) && near(h, p, q) implies m[p] == m[q] by {
                        if !compared(i as int, j as int, p, q) {
                            assert(p == i && q == j);
                        }
                    }
                }
            }
            j = j + 1;
        }
        proof {
            let m = uf@;
            assert forall|p: int, q: int|
                #![trigger m[p], m[q]]
                q < n && compared(i + 1, 0, p, q) && near(h, p, q) implies m[p] == m[q] by {
                assert(compared(i as int, j as int, p, q));
            }
        }
        i = i + 1;
    }
    // Every photo's representative, read once.
    let mut reps: Vec<usize> = Vec::new();
    let ghost rep = uf@;
    let mut k: usize = 0;
    while k < n
        invariant
            k <= n,
            uf.wf(),
            uf@ == rep,
            rep.len() == n,
            reps@.len() == k,
            forall|t: int| 0 <= t < k ==> #[trigger] reps@[t] as int == rep[t],
        decreases n - k,
    {
        let r = uf.find(k);
        reps.push(r);
        k = k + 1;
    }
    proof {
        assert forall|p: int, q: int|
            0 <= p < n && 0 <= q < n && p != q && near(h, p, q) implies #[trigger] reps@[p] == #[trigger] reps@[q] by {
            if p < q {
                assert(compared(n as int, 0, p, q));
                assert(rep[p] == rep[q]);
            } else {
                lemma_near_symmetric(h, p, q);
                assert(compared(n as int, 0, q, p));
                assert(rep[q] == rep[p]);
            }
        }
        assert forall|x: int, y: int|
            0 <= x < n && 0 <= y < n && #[trigger] reps@[x] == #[trigger] reps@[y] implies linked(h, x, y) by {
            assert(rep[x] == rep[y]);
        }
    }
    group_by_representative(reps, Ghost(h))
}

/// Collects the classes of `reps` that have at least two members, each in
/// increasing order, the classes ordered by their first member.
fn group_by_representative(reps: Vec<usize>, Ghost(h): Ghost<Seq<Seq<u8>>>) -> (groups: Vec<Vec<usize>>)
    requires
        reps@.len() == h.len(),
        forall|p: int, q: int|
            0 <= p < h.len() && 0 <= q < h.len() && p != q && near(h, p, q) ==> #[trigger] reps@[p] == #[trigger] reps@[q],
        forall|x: int, y: int|
            0 <= x < h.len() && 0 <= y < h.len() && #[trigger] reps@[x] == #[trigger] reps@[y] ==> linked(h, x, y),
    ensures
        is_grouping(h, groups_view(groups@)),
{
    let n = reps.len();
    let ghost r = reps@;
    let mut groups: Vec<Vec<usize>> = Vec::new();
    let mut k: usize = 0;
    while k < n
        invariant
            n == r.len(),
            r == reps@,
            k <= n,
            forall|g: int| 0 <= g < groups@.len() ==> #[trigger] groups@[g]@.len() >= 2,
            forall|g: int, p: int, q: int|
                0 <= g < groups@.len() && 0 <= p < q < groups@[g]@.len() ==> #[trigger] groups@[g]@[p] < #[trigger] groups@[g]@[q],
            forall|g: int, p: int| 0 <= g < groups@.len() && 0 <= p < groups@[g]@.len() ==> #[trigger] groups@[g]@[p] < n,
            // all members of a group share the representative of its first member
            forall|g: int, p: int|
                0 <= g < groups@.len() && 0 <= p < groups@[g]@.len() ==> r[#[trigger] groups@[g]@[p] as int] == r[groups@[g]@[0] as int],
            // different groups, different representatives
            forall|g1: int, g2: int|
                0 <= g1 < groups@.len() && 0 <= g2 < groups@.len() && g1 != g2 ==> r[#[trigger] groups@[g1]@[0] as int] != r[#[trigger] groups@[g2]@[0] as int],
            // a photo with a partner whose class starts before k is in a group
            forall|x: int, f: int, y: int|
                #![trigger r[x], r[f], r[y]]
                0 <= x < n && 0 <= f < k && 0 <= y < n && y != x && r[f] == r[x] && r[y] == r[x] ==> exists|g: int, p: int|
                    0 <= g < groups@.len() && 0 <= p < groups@[g]@.len() && #[trigger] groups@[g]@[p] == x,
            // groups only for classes that start before k
            forall|g: int| 0 <= g < groups@.len() ==> #[trigger] groups@[g]@[0] < k,
        decreases n - k,
    {
        // Is k the first member of its class?
        let mut first = true;
        let mut e: usize = 0;
        while e < k
            invariant
                n == r.len(),
                r == reps@,
                k < n,
                e <= k,
                first == (forall|t: int| 0 <= t < e ==> r[t] != r[k as int]),
            decreases k - e,
        {
            if reps[e] == reps[k] {
                first = false;
            }
            e = e + 1;
        }
        if first {
            let mut members: Vec<usize> = Vec::new();
            let mut m: usize = k;
            while m < n
                invariant
                    n == r.len(),
                    r == reps@,
                    k < n,
                    k <= m <= n,
                    forall|p: int, q: int| 0 <= p < q < members@.len() ==> #[trigger] members@[p] < #[trigger] members@[q],
                    forall|p: int| 0 <= p < members@.len() ==> k <= #[trigger] members@[p] < m,
                    forall|p: int| 0 <= p < members@.len() ==> r[#[trigger] members@[p] as int] == r[k as int],
                    forall|y: int| k <= y < m && r[y] == r[k as int] ==> exists|p: int| 0 <= p < members@.len() && #[trigger] members@[p] == y,
                    m > k ==> members@.len() >= 1 && members@[0] == k,
                decreases n - m,
            {
                if reps[m] == reps[k] {
                    let ghost before = members@;
                    members.push(m);
                    proof {
                        assert forall|y: int| k <= y < m + 1 && r[y] == r[k as int] implies exists|p: int| 0 <= p < members@.len() && #[trigger] members@[p] == y by {
                            if y == m {
                                assert(members@[before.len() as int] == y);
                            } else {
                                let p = choose|p: int| 0 <= p < before.len() && #[trigger] before[p] == y;
                                assert(members@[p] == y);
                            }
                        }
                    }
                }
                m = m + 1;
            }
            if members.len() >= 2 {
                let ghost before = groups@;
                groups.push(members);
                proof {
                    let g_new = before.len() as int;
                    assert(groups@[g_new]@[0] == k);
                    assert forall|x: int, f: int, y: int|
                        #![trigger r[x], r[f], r[y]]
                        0 <= x < n && 0 <= f < k + 1 && 0 <= y < n && y != x && r[f] == r[x] && r[y] == r[x] implies exists|g: int, p: int|
                            0 <= g < groups@.len() && 0 <= p < groups@[g]@.len() && #[trigger] groups@[g]@[p] == x by {
                        if f < k {
                            let (g, p) = choose|g: int, p: int|
                                0 <= g < before.len() && 0 <= p < before[g]@.len() && #[trigger] before[g]@[p] == x;
                            assert(groups@[g]@[p] == x);
                        } else {
                            // x is in k's class, and k is its first member
                            if x < k {
                                assert(r[x] != r[k as int]);
                            }
                            let p = choose|p: int| 0 <= p < groups@[g_new]@.len() && #[trigger] groups@[g_new]@[p] == x;
                            assert(groups@[g_new]@[p] == x);
                        }
                    }
                    assert forall|g1: int, g2: int|
                        0 <= g1 < groups@.len() && 0 <= g2 < groups@.len() && g1 != g2 implies r[#[trigger] groups@[g1]@[0] as int] != r[#[trigger] groups@[g2]@[0] as int] by {
                        if g1 == g_new {
                            assert(groups@[g2]@[0] < k);
                        } else if g2 == g_new {
                            assert(groups@[g1]@[0] < k);
                        }
                    }
                }
            } else {
                proof {
                    assert forall|x: int, f: int, y: int|
                        #![trigger r[x], r[f], r[y]]
                        0 <= x < n && 0 <= f < k + 1 && 0 <= y < n && y != x && r[f] == r[x] && r[y] == r[x] implies exists|g: int, p: int|
                            0 <= g < groups@.len() && 0 <= p < groups@[g]@.len() && #[trigger] groups@[g]@[p] == x by {
                        if f == k {
                            // k's class has a single member, so no such pair exists
                            if x < k {
                                assert(r[x] != r[k as int]);
                            }
                            if y < k {
                                assert(r[y] != r[k as int]);
                            }
                            let px = choose|p: int| 0 <= p < members@.len() && #[trigger] members@[p] == x;
                            let py = choose|p: int| 0 <= p < members@.len() && #[trigger] members@[p] == y;
                            assert(false);
                        }
                    }
                }
            }
        } else {
            proof {
                assert forall|x: int, f: int, y: int|
                    #![trigger r[x], r[f], r[y]]
                    0 <= x < n && 0 <= f < k + 1 && 0 <= y < n && y != x && r[f] == r[x] && r[y] == r[x] implies exists|g: int, p: int|
                        0 <= g < groups@.len() && 0 <= p < groups@[g]@.len() && #[trigger] groups@[g]@[p] == x by {
                    if f == k {
                        let t = choose|t: int| 0 <= t < k && r[t] == r[k as int];
                        assert(r[t] == r[x]);
                    }
                }
            }
        }
        k = k + 1;
    }
    proof {
        let gv = groups_view(groups@);
        assert forall|g: int| 0 <= g < gv.len() implies #[trigger] gv[g].len() >= 2 by {
            assert(gv[g] == groups@[g]@);
        }
        assert forall|g: int, p: int, q: int|
            0 <= g < gv.len() && 0 <= p < q < gv[g].len() implies #[trigger] gv[g][p] < #[trigger] gv[g][q] by {
            assert(gv[g] == groups@[g]@);
        }
        assert forall|g: int, p: int| 0 <= g < gv.len() && 0 <= p < gv[g].len() implies #[trigger] gv[g][p] < h.len() by {
            assert(gv[g] == groups@[g]@);
        }
        assert forall|g1: int, p1: int, g2: int, p2: int|
            0 <= g1 < gv.len() && 0 <= g2 < gv.len() && 0 <= p1 < gv[g1].len() && 0 <= p2 < gv[g2].len()
                && #[trigger] gv[g1][p1] == #[trigger] gv[g2][p2] implies g1 == g2 by {
            assert(gv[g1] == groups@[g1]@);
            assert(gv[g2] == groups@[g2]@);
            assert(r[groups@[g1]@[p1] as int] == r[groups@[g1]@[0] as int]);
            assert(r[groups@[g2]@[p2] as int] == r[groups@[g2]@[0] as int]);
        }
        assert forall|g: int, p: int, q: int|
            0 <= g < gv.len() && 0 <= p < gv[g].len() && 0 <= q < gv[g].len() implies linked(
                h,
                #[trigger] gv[g][p] as int,
                #[trigger] gv[g][q] as int,
            ) by {
            assert(gv[g] == groups@[g]@);
            let x = gv[g][p] as int;
            let y = gv[g][q] as int;
            assert(r[groups@[g]@[p] as int] == r[groups@[g]@[0] as int]);
            assert(r[groups@[g]@[q] as int] == r[groups@[g]@[0] as int]);
            assert(reps@[x] == reps@[y]);
        }
        assert forall|i: int, j: int|
            0 <= i < h.len() && 0 <= j < h.len() && i != j && #[trigger] near(h, i, j) implies exists|g: int, p: int, q: int|
                0 <= g < gv.len() && 0 <= p < gv[g].len() && 0 <= q < gv[g].len()
                    && #[trigger] gv[g][p] == i && #[trigger] gv[g][q] == j by {
            assert(reps@[i] == reps@[j]);
            assert(r[i] == r[i] && r[j] == r[i]);
            let (gi, pi) = choose|g: int, p: int| 0 <= g < groups@.len() && 0 <= p < groups@[g]@.len() && #[trigger] groups@[g]@[p] == i;
            assert(r[j] == r[i] && r[i] == r[j]);
            let (gj, pj) = choose|g: int, p: int| 0 <= g < groups@.len() && 0 <= p < groups@[g]@.len() && #[trigger] groups@[g]@[p] == j;
            assert(r[groups@[gi]@[pi] as int] == r[groups@[gi]@[0] as int]);
            assert(r[groups@[gj]@[pj] as int] == r[groups@[gj]@[0] as int]);
            assert(gi == gj);
            assert(gv[gi][pi] == i && gv[gi][pj] == j);
        }
    }
    groups
}

/// Whether photo `x` is listed in group `g`.
pub open spec fn in_group(groups: Seq<Seq<usize>>, g: int, x: int) -> bool {
    exists|p: int| 0 <= p < groups[g].len() && #[trigger] groups[g][p] == x
}

proof fn lemma_chain_stays_in_group(h: Seq<Seq<u8>>, groups: Seq<Seq<usize>>, c: Seq<int>, k: int)
    requires
        is_grouping(h, groups),
        is_chain(h, c),
        0 <= k < c.len(),
    ensures
        c[k] == c[0] || exists|g: int| 0 <= g < groups.len() && in_group(groups, g, c[0]) && in_group(groups, g, c[k]),
    decreases k,
{
    if k > 0 {
        lemma_chain_stays_in_group(h, groups, c, k - 1);
        let a = c[k - 1];
        let b = c[k];
        assert(near(h, c[k - 1], c[(k - 1) + 1]));
        assert(0 <= a < h.len() && 0 <= b < h.len());
        if a != b {
            let (g, p, q) = choose|g: int, p: int, q: int|
                0 <= g < groups.len() && 0 <= p < groups[g].len() && 0 <= q < groups[g].len()
                    && #[trigger] groups[g][p] == a && #[trigger] groups[g][q] == b;
            assert(in_group(groups, g, b));
            assert(in_group(groups, g, a));
            if a == c[0] {
            } else {
                let gx = choose|g: int| 0 <= g < groups.len() && in_group(groups, g, c[0]) && in_group(groups, g, a);
                let pa = choose|p: int| 0 <= p < groups[gx].len() && #[trigger] groups[gx][p] == a;
                assert(groups[gx][pa] == groups[g][p]);
                assert(gx == g);
            }
        }
    }
}

/// The groups are exactly the connected pieces of the near-duplicate relation:
/// two different photos joined by a chain of near-duplicates always share a
/// group, however long the chain.
pub proof fn lemma_linked_photos_share_a_group(h: Seq<Seq<u8>>, groups: Seq<Seq<usize>>, x: int, y: int)
    requires
        is_grouping(h, groups),
        linked(h, x, y),
        x != y,
    ensures
        exists|g: int| 0 <= g < groups.len() && in_group(groups, g, x) && in_group(groups, g, y),
{
    let c = choose|c: Seq<int>| is_chain(h, c) && c[0] == x && c.last() == y;
    lemma_chain_stays_in_group(h, groups, c, c.len() - 1);
}
/* ---------------------------------------------------------- decoding -- */

/// What `ImageHash::from_base64` decodes `encoded` to: the bytes of the hash, or
/// `None` when the text is not a hash written in unpadded base64.
pub uninterp spec fn decoded_hash(encoded: Seq<char>) -> Option<Seq<u8>>;

/// Calls `image_hasher::ImageHash::from_base64` and reads the bytes of the hash it
/// returns. The crate's `from_bytes` refuses an empty byte string, so a hash that
/// decodes is never empty.
#[verifier::external_body]
fn decode_hash(encoded: &str) -> (r: Option<Vec<u8>>)
    ensures
        match r {
            Some(bytes) => decoded_hash(encoded@) == Some(bytes@) && bytes@.len() > 0,
            None => decoded_hash(encoded@) is None,
        },
{
    match image_hasher::ImageHash::<Box<[u8]>>::from_base64(encoded) {
        Ok(hash) => Some(hash.as_bytes().to_vec()),
        Err(_) => None,
    }
}

/// Whether a stored hash can take part in the comparison: it decodes, and it is
/// short enough for its distance to be counted in 32 bits.
pub open spec fn usable(encoded: Seq<char>) -> bool {
    decoded_hash(encoded) matches Some(bytes) && hash_fits(bytes)
}

/// Decodes the stored hashes, keeping those that can be compared: returns their
/// positions in `encoded`, in order, and their bytes. A hash that does not decode
/// is left out, and so is one too long for its distance to fit 32 bits.
pub fn decode_hashes(encoded: &Vec<String>) -> (r: (Vec<usize>, Vec<Vec<u8>>))
    ensures
        r.0@.len() == r.1@.len(),
        forall|k: int| 0 <= k < r.0@.len() ==> #[trigger] r.0@[k] < encoded@.len(),
        forall|k: int| 0 <= k < r.0@.len() ==> usable(encoded@[#[trigger] r.0@[k] as int]@),
        forall|k: int|
            0 <= k < r.0@.len() ==> Some(#[trigger] r.1@[k]@) == decoded_hash(encoded@[r.0@[k] as int]@),
        forall|k: int| 0 <= k < r.1@.len() ==> hash_fits(#[trigger] r.1@[k]@),
        forall|a: int, b: int| 0 <= a < b < r.0@.len() ==> #[trigger] r.0@[a] < #[trigger] r.0@[b],
        forall|i: int|
            0 <= i < encoded@.len() && usable(#[trigger] encoded@[i]@) ==> exists|k: int|
                0 <= k < r.0@.len() && #[trigger] r.0@[k] == i,
{
    let mut positions: Vec<usize> = Vec::new();
    let mut hashes: Vec<Vec<u8>> = Vec::new();
    let mut i: usize = 0;
    while i < encoded.len()
        invariant
            i <= encoded@.len(),
            positions@.len() == hashes@.len(),
            forall|k: int| 0 <= k < positions@.len() ==> #[trigger] positions@[k] < i,
            forall|k: int| 0 <= k < positions@.len() ==> usable(encoded@[#[trigger] positions@[k] as int]@),
            forall|k: int|
                0 <= k < positions@.len() ==> Some(#[trigger] hashes@[k]@) == decoded_hash(encoded@[positions@[k] as int]@),
            forall|k: int| 0 <= k < hashes@.len() ==> hash_fits(#[trigger] hashes@[k]@),
            forall|a: int, b: int| 0 <= a < b < positions@.len() ==> #[trigger] positions@[a] < #[trigger] positions@[b],
            forall|t: int|
                0 <= t < i && usable(#[trigger] encoded@[t]@) ==> exists|k: int|
                    0 <= k < positions@.len() && #[trigger] positions@[k] == t,
        decreases encoded@.len() - i,
    {
        match decode_hash(encoded[i].as_str()) {
            Some(bytes) => {
                if bytes.len() <= 0x1fff_ffff {
                    let ghost before = positions@;
                    positions.push(i);
                    hashes.push(bytes);
                    proof {
                        assert forall|t: int|
                            0 <= t < i + 1 && usable(#[trigger] encoded@[t]@) implies exists|k: int|
                                0 <= k < positions@.len() && #[trigger] positions@[k] == t by {
                            if t == i {
                                assert(positions@[before.len() as int] == t);
                            } else {
                                let k = choose|k: int| 0 <= k < before.len() && #[trigger] before[k] == t;
                                assert(positions@[k] == t);
                            }
                        }
                    }
                }
            },
            None => {},
        }
        i = i + 1;
    }
    (positions, hashes)
}

} // verus!
