//! The world: the cells of a disc, the table that identifies its opposite
//! edges, the rule, and the synchronous step from one generation to the next.
use vstd::prelude::*;
use crate::coord::{
    Coord, COORD_LIMIT, hex_dist, in_disc, mirror, minus, neighbor, neighbors, distance,
    difference, ring, lemma_ring_has_mirror,
};
use crate::disc::{MAX_RADIUS, disc_size, before, lists_disc, disc_coords};
use crate::rule::{Rule, Type, MAX_NEIGHBORS, is_on};

verus! {

/// Why a world could not be built.
#[derive(Clone, Copy, PartialEq, Eq, Structural, Debug)]
pub enum ConfigError {
    /// The radius is below one.
    InvalidRadius,
    /// The rule has fewer than two states.
    TooFewStates,
    /// A survival or birth count lies outside `[0, 6]`.
    CountOutOfRange,
}

/// The last entry of the edge table whose key is `p`, if any.
pub open spec fn lookup(edges: Seq<(Coord, Coord)>, p: (int, int)) -> Option<(int, int)>
    decreases edges.len(),
{
    if edges.len() == 0 {
        None
    } else if edges.last().0@ == p {
        Some(edges.last().1@)
    } else {
        lookup(edges.drop_last(), p)
    }
}

/// The position that stands for `p`: its entry in the edge table, or itself.
pub open spec fn resolve(edges: Seq<(Coord, Coord)>, p: (int, int)) -> (int, int) {
    match lookup(edges, p) {
        Some(q) => q,
        None => p,
    }
}

/// An edge table for the disc of radius `r`: it maps every position just
/// outside the disc, and nothing inside it, to a translate of it by one of
/// the six tiling translations that lies inside the disc.
pub open spec fn edges_wf(edges: Seq<(Coord, Coord)>, r: int) -> bool {
    forall|p: (int, int)| {
        &&& in_disc(p, r) ==> #[trigger] lookup(edges, p) is None
        &&& hex_dist(p, (0, 0)) == r + 1 ==> lookup(edges, p) is Some
        &&& lookup(edges, p) is Some ==> {
            &&& in_disc(lookup(edges, p)->0, r)
            &&& exists|k: int| 0 <= k < 6 && lookup(edges, p)->0 == minus(p, #[trigger] mirror(r, k))
        }
    }
}

/// The `k`-th tiling translation for radius `r`.
fn mirror_at(r: i32, k: usize) -> (m: Coord)
    requires
        1 <= r <= MAX_RADIUS,
        k < 6,
    ensures
        m@ == mirror(r as int, k as int),
{
    if k == 0 {
        Coord { x: -r, y: -r - 1 }
    } else if k == 1 {
        Coord { x: r + 1, y: -2 * r - 1 }
    } else if k == 2 {
        Coord { x: 2 * r + 1, y: -r }
    } else if k == 3 {
        Coord { x: r, y: r + 1 }
    } else if k == 4 {
        Coord { x: -r - 1, y: 2 * r + 1 }
    } else {
        Coord { x: -(2 * r + 1), y: r }
    }
}

/// Builds the edge table: every coordinate on the ring just outside the
/// disc is mapped to its translate by the first of the six tiling
/// translations that lies within `radius` of it.
pub fn edge_table(radius: i32) -> (edges: Vec<(Coord, Coord)>)
    requires
        1 <= radius <= MAX_RADIUS,
    ensures
        edges_wf(edges@, radius as int),
{
    let outer = ring(radius + 1);
    let mut edges: Vec<(Coord, Coord)> = Vec::new();
    let mut i: usize = 0;
    while i < outer.len()
        invariant
            1 <= radius <= MAX_RADIUS,
            0 <= i <= outer@.len(),
            outer@.len() == 6 * (radius + 1),
            forall|j: int| 0 <= j < outer@.len() ==> hex_dist(#[trigger] outer@[j]@, (0, 0)) == radius + 1,
            forall|j: int| 0 <= j < i ==> #[trigger] lookup(edges@, outer@[j]@) is Some,
            forall|p: (int, int)| {
                &&& in_disc(p, radius as int) ==> #[trigger] lookup(edges@, p) is None
                &&& lookup(edges@, p) is Some ==> {
                    &&& in_disc(lookup(edges@, p)->0, radius as int)
                    &&& exists|k: int| 0 <= k < 6 && lookup(edges@, p)->0 == minus(p, #[trigger] mirror(radius as int, k))
                }
            },
        decreases outer@.len() - i,
    {
        let c = outer[i];
        proof {
            lemma_ring_has_mirror(c@, radius as int);
        }
        let mut k: usize = 0;
        let mut found = false;
        while k < 6 && !found
            invariant
                1 <= radius <= MAX_RADIUS,
                0 <= i < outer@.len(),
                c == outer@[i as int],
                hex_dist(c@, (0, 0)) == radius + 1,
                k <= 6,
                !found ==> forall|j: int| 0 <= j < k ==> hex_dist(c@, #[trigger] mirror(radius as int, j)) > radius,
                found ==> lookup(edges@, c@) is Some,
                forall|j: int| 0 <= j < i ==> #[trigger] lookup(edges@, outer@[j]@) is Some,
                forall|p: (int, int)| {
                    &&& in_disc(p, radius as int) ==> #[trigger] lookup(edges@, p) is None
                    &&& lookup(edges@, p) is Some ==> {
                        &&& in_disc(lookup(edges@, p)->0, radius as int)
                        &&& exists|k: int| 0 <= k < 6 && lookup(edges@, p)->0 == minus(p, #[trigger] mirror(radius as int, k))
                    }
                },
            decreases 6 - k + (if found { 0int } else { 1 }),
        {
            let m = mirror_at(radius, k);
            if distance(c, m) <= radius {
                let d = difference(c, m);
                let ghost old_edges = edges@;
                edges.push((c, d));
                proof {
                    assert(edges@.drop_last() =~= old_edges);
                    assert forall|p: (int, int)| {
                        &&& in_disc(p, radius as int) ==> #[trigger] lookup(edges@, p) is None
                        &&& lookup(edges@, p) is Some ==> {
                            &&& in_disc(lookup(edges@, p)->0, radius as int)
                            &&& exists|k: int| 0 <= k < 6 && lookup(edges@, p)->0 == minus(p, #[trigger] mirror(radius as int, k))
                        }
                    } by {
                        if p == c@ {
                            assert(minus(p, mirror(radius as int, k as int)) == d@);
                        } else {
                            assert(lookup(edges@, p) == lookup(old_edges, p));
                        }
                    }
                    assert forall|j: int| 0 <= j < i implies #[trigger] lookup(edges@, outer@[j]@) is Some by {
                        assert(lookup(old_edges, outer@[j]@) is Some);
                    }
                }
                found = true;
            } else {
                k = k + 1;
            }
        }
        i = i + 1;
    }
    proof {
        assert forall|p: (int, int)| hex_dist(p, (0, 0)) == radius + 1 implies #[trigger] lookup(edges@, p) is Some by {
            let j = choose|j: int| 0 <= j < outer@.len() && #[trigger] outer@[j]@ == p;
            assert(lookup(edges@, outer@[j]@) is Some);
        }
    }
    edges
}

/// Two translates of one position by different tiling translations never
/// both lie in the disc: the disc is narrower than any of their differences.
pub proof fn lemma_translate_unique(p: (int, int), r: int, i: int, j: int)
    requires
        r >= 1,
        0 <= i < 6,
        0 <= j < 6,
        in_disc(minus(p, mirror(r, i)), r),
        in_disc(minus(p, mirror(r, j)), r),
    ensures
        i == j,
{
}

/// A neighbour of a disc cell lies in the disc or on the ring just outside.
pub proof fn lemma_neighbor_near(c: (int, int), k: int, r: int)
    requires
        in_disc(c, r),
        0 <= k < 6,
    ensures
        in_disc(neighbor(c, k), r) || hex_dist(neighbor(c, k), (0, 0)) == r + 1,
{
}

/// What a cell starts as: fully vital where `alive` says so, else dormant.
pub open spec fn seeded(states: u8, alive: Seq<bool>, i: int) -> Type {
    if i < alive.len() && alive[i] {
        Type::On((states - 1) as u8)
    } else {
        Type::Off
    }
}

/// The index of the cell at position `p`.
pub open spec fn index_of(s: Seq<Coord>, p: (int, int)) -> int {
    choose|i: int| 0 <= i < s.len() && s[i]@ == p
}

/// The automaton: the cells of the disc of radius `radius` in row-major
/// order, their states, the edge table and the rule.
pub struct World {
    pub coords: Vec<Coord>,
    pub states: Vec<Type>,
    pub edges: Vec<(Coord, Coord)>,
    pub radius: i32,
    pub rule: Rule,
}

impl World {
    pub open spec fn wf(&self) -> bool {
        &&& 1 <= self.radius <= MAX_RADIUS
        &&& self.rule.valid()
        &&& self.coords@.len() == disc_size(self.radius as int)
        &&& lists_disc(self.coords@, self.radius as int)
        &&& self.states@.len() == self.coords@.len()
        &&& forall|i: int| 0 <= i < self.states@.len() ==> self.rule.admits(#[trigger] self.states@[i])
        &&& edges_wf(self.edges@, self.radius as int)
    }

    /// The state of the cell at position `p`.
    pub open spec fn state_at(&self, p: (int, int)) -> Type {
        self.states@[index_of(self.coords@, p)]
    }

    /// Live cells among the first `k` neighbours of `c`, each neighbour
    /// taken through the edge table.
    pub open spec fn live_upto(&self, c: (int, int), k: int) -> int
        decreases k,
    {
        if k <= 0 {
            0
        } else {
            self.live_upto(c, k - 1) + if is_on(self.state_at(resolve(self.edges@, neighbor(c, k - 1)))) {
                1int
            } else {
                0int
            }
        }
    }

    /// Live neighbours of the `i`-th cell.
    pub open spec fn live_neighbors(&self, i: int) -> int {
        self.live_upto(self.coords@[i]@, 6)
    }

    /// The state of the `i`-th cell in the next generation.
    pub open spec fn successor(&self, i: int) -> Type {
        self.rule.next(self.states@[i], self.live_neighbors(i) as u8)
    }

    /// The cells of the disc of radius `radius`, seeded from `alive`, with
    /// the edge table built for that radius.
    fn build(radius: i32, rule: Rule, alive: &Vec<bool>) -> (w: World)
        requires
            1 <= radius <= MAX_RADIUS,
            rule.valid(),
        ensures
            w.wf(),
            w.radius == radius,
            w.rule == rule,
            forall|i: int| 0 <= i < w.states@.len() ==> #[trigger] w.states@[i] == seeded(rule.states, alive@, i),
    {
        let coords = disc_coords(radius);
        let mut states: Vec<Type> = Vec::new();
        let mut i: usize = 0;
        while i < coords.len()
            invariant
                rule.valid(),
                0 <= i <= coords@.len(),
                states@.len() == i,
                forall|j: int| 0 <= j < i ==> #[trigger] states@[j] == seeded(rule.states, alive@, j),
            decreases coords@.len() - i,
        {
            if i < alive.len() && alive[i] {
                states.push(Type::On(rule.states - 1));
            } else {
                states.push(Type::Off);
            }
            i = i + 1;
        }
        let edges = edge_table(radius);
        World { coords, states, edges, radius, rule }
    }

    /// Builds a world of the given radius and rule. The `i`-th cell in
    /// row-major order starts fully vital where `alive[i]` is true, and
    /// dormant otherwise (also past the end of `alive`).
    pub fn with_seed(radius: i32, rule: Rule, alive: &Vec<bool>) -> (r: Result<World, ConfigError>)
        requires
            radius <= MAX_RADIUS,
        ensures
            (r == Err::<World, ConfigError>(ConfigError::InvalidRadius)) <==> radius < 1,
            (r == Err::<World, ConfigError>(ConfigError::TooFewStates)) <==> (radius >= 1 && rule.states < 2),
            (r == Err::<World, ConfigError>(ConfigError::CountOutOfRange)) <==> (radius >= 1 && rule.states >= 2
                && !rule.valid()),
            r is Ok <==> (radius >= 1 && rule.valid()),
            r matches Ok(w) ==> {
                &&& w.wf()
                &&& w.radius == radius
                &&& w.rule == rule
                &&& forall|i: int| 0 <= i < w.states@.len() ==> #[trigger] w.states@[i] == seeded(rule.states, alive@, i)
            },
    {
        if radius < 1 {
            return Err(ConfigError::InvalidRadius);
        }
        if rule.states < 2 {
            return Err(ConfigError::TooFewStates);
        }
        if !counts_in_range(&rule.survival) || !counts_in_range(&rule.birth) {
            return Err(ConfigError::CountOutOfRange);
        }
        Ok(World::build(radius, rule, alive))
    }

    /// The coordinate that stands for `p`: its entry in the edge table,
    /// or `p` itself. Later entries take precedence.
    fn resolve_coord(&self, p: Coord) -> (q: Coord)
        ensures
            q@ == resolve(self.edges@, p@),
    {
        let mut i: usize = self.edges.len();
        assert(self.edges@.subrange(0, i as int) =~= self.edges@);
        while i > 0
            invariant
                0 <= i <= self.edges@.len(),
                lookup(self.edges@, p@) == lookup(self.edges@.subrange(0, i as int), p@),
            decreases i,
        {
            let e = self.edges[i - 1];
            assert(self.edges@.subrange(0, i as int).drop_last() =~= self.edges@.subrange(0, i - 1));
            if e.0 == p {
                return e.1;
            }
            i = i - 1;
        }
        p
    }

    /// The index of the cell at `p`, which lies in the disc.
    fn position(&self, p: Coord) -> (j: usize)
        requires
            self.wf(),
            in_disc(p@, self.radius as int),
        ensures
            j < self.coords@.len(),
            self.coords@[j as int]@ == p@,
            j == index_of(self.coords@, p@),
    {
        let mut j: usize = 0;
        while j < self.coords.len()
            invariant
                self.wf(),
                in_disc(p@, self.radius as int),
                0 <= j <= self.coords@.len(),
                forall|i: int| 0 <= i < j ==> (#[trigger] self.coords@[i])@ != p@,
            decreases self.coords@.len() - j,
        {
            if self.coords[j] == p {
                proof {
                    let k = index_of(self.coords@, p@);
                    assert(self.coords@[k]@ == p@);
                    if k != j as int {
                        assert(before(self.coords@[k]@, self.coords@[j as int]@) || before(
                            self.coords@[j as int]@,
                            self.coords@[k]@,
                        ));
                    }
                }
                return j;
            }
            j = j + 1;
        }
        assert(exists|i: int| 0 <= i < self.coords@.len() && #[trigger] self.coords@[i]@ == p@);
        0
    }

    /// The number of live neighbours of the `i`-th cell, each neighbour
    /// taken through the edge table.
    pub fn live_count(&self, i: usize) -> (n: u8)
        requires
            self.wf(),
            i < self.coords@.len(),
        ensures
            n == self.live_neighbors(i as int),
            n <= MAX_NEIGHBORS,
    {
        let c = self.coords[i];
        assert(in_disc(c@, self.radius as int));
        let nbrs = neighbors(c);
        let mut n: u8 = 0;
        let mut k: usize = 0;
        while k < 6
            invariant
                self.wf(),
                in_disc(c@, self.radius as int),
                c == self.coords@[i as int],
                nbrs@.len() == 6,
                forall|k: int| 0 <= k < 6 ==> #[trigger] nbrs@[k]@ == neighbor(c@, k),
                0 <= k <= 6,
                n <= k,
                n == self.live_upto(c@, k as int),
            decreases 6 - k,
        {
            let nb = nbrs[k];
            proof {
                lemma_neighbor_near(c@, k as int, self.radius as int);
            }
            let q = self.resolve_coord(nb);
            assert(lookup(self.edges@, nb@) is None || lookup(self.edges@, nb@) is Some);
            assert(in_disc(q@, self.radius as int));
            let j = self.position(q);
            match self.states[j] {
                Type::On(_) => {
                    n = n + 1;
                },
                Type::Off => {},
            }
            k = k + 1;
        }
        n
    }

    /// Every cell's next state, each computed from the current generation.
    fn next_generation(&self) -> (next: Vec<Type>)
        requires
            self.wf(),
        ensures
            next@.len() == self.states@.len(),
            forall|i: int| 0 <= i < next@.len() ==> #[trigger] next@[i] == self.successor(i),
    {
        let mut next: Vec<Type> = Vec::new();
        let mut i: usize = 0;
        while i < self.states.len()
            invariant
                self.wf(),
                0 <= i <= self.states@.len(),
                next@.len() == i,
                forall|j: int| 0 <= j < i ==> #[trigger] next@[j] == self.successor(j),
            decreases self.states@.len() - i,
        {
            let n = self.live_count(i);
            let s = self.rule.apply(self.states[i], n);
            next.push(s);
            i = i + 1;
        }
        next
    }

    /// Advances the world by one generation: every cell takes the state
    /// that the rule gives it from the previous generation and the live
    /// neighbours it had there; the cells themselves do not change.
    pub fn iterate(&mut self)
        requires
            old(self).wf(),
        ensures
            final(self).wf(),
            final(self).coords@ == old(self).coords@,
            final(self).coords@.len() == disc_size(old(self).radius as int),
            final(self).edges@ == old(self).edges@,
            final(self).radius == old(self).radius,
            final(self).rule == old(self).rule,
            final(self).states@.len() == old(self).states@.len(),
            forall|i: int| 0 <= i < final(self).states@.len() ==> #[trigger] final(self).states@[i] == old(self).successor(i),
    {
        let next = self.next_generation();
        proof {
            assert forall|i: int| 0 <= i < next@.len() implies self.rule.admits(#[trigger] next@[i]) by {
                assert(self.rule.admits(self.states@[i]));
            }
        }
        self.states = next;
    }

    /// The cells and their states, in row-major order.
    pub fn cells(&self) -> (r: Vec<(Coord, Type)>)
        requires
            self.wf(),
        ensures
            r@.len() == disc_size(self.radius as int),
            forall|i: int| 0 <= i < r@.len() ==> #[trigger] r@[i] == (self.coords@[i], self.states@[i]),
    {
        let mut r: Vec<(Coord, Type)> = Vec::new();
        let mut i: usize = 0;
        while i < self.coords.len()
            invariant
                self.wf(),
                0 <= i <= self.coords@.len(),
                r@.len() == i,
                forall|j: int| 0 <= j < i ==> #[trigger] r@[j] == (self.coords@[j], self.states@[j]),
            decreases self.coords@.len() - i,
        {
            r.push((self.coords[i], self.states[i]));
            i = i + 1;
        }
        r
    }

    /// The state of the cell at `c`, or `None` where `c` lies outside the disc.
    pub fn get(&self, c: Coord) -> (r: Option<Type>)
        requires
            self.wf(),
        ensures
            in_disc(c@, self.radius as int) ==> r == Some(self.state_at(c@)),
            !in_disc(c@, self.radius as int) ==> r is None,
    {
        if c.x < -COORD_LIMIT || c.x > COORD_LIMIT || c.y < -COORD_LIMIT || c.y > COORD_LIMIT {
            return None;
        }
        if distance(c, Coord { x: 0, y: 0 }) > self.radius {
            return None;
        }
        let j = self.position(c);
        Some(self.states[j])
    }

    /// A world of radius twenty under the default rule, each cell fully
    /// vital or dormant by a fair coin.
    pub fn new() -> (w: World)
        ensures
            w.wf(),
            w.radius == DEFAULT_RADIUS,
            w.rule.survival@ == seq![2u8, 1u8],
            w.rule.birth@ == seq![2u8],
            w.rule.states == 3,
            forall|i: int| 0 <= i < w.states@.len() ==> #[trigger] w.states@[i] == Type::Off || w.states@[i] == Type::On(2),
    {
        let mut survival: Vec<u8> = Vec::new();
        survival.push(2);
        survival.push(1);
        let mut birth: Vec<u8> = Vec::new();
        birth.push(2);
        let rule = Rule { survival, birth, states: 3 };
        let cells: usize = (3 * DEFAULT_RADIUS * DEFAULT_RADIUS + 3 * DEFAULT_RADIUS + 1) as usize;
        let mut alive: Vec<bool> = Vec::new();
        let mut i: usize = 0;
        while i < cells
            invariant
                0 <= i <= cells,
            decreases cells - i,
        {
            alive.push(coin());
            i = i + 1;
        }
        World::build(DEFAULT_RADIUS, rule, &alive)
    }
}

/// The radius of the world that `World::new` builds.
pub const DEFAULT_RADIUS: i32 = 20;

/// Relies on `rand::random::<bool>`: one fair coin flip from the
/// thread-local generator. Nothing is promised of the outcome.
#[verifier::external_body]
fn coin() -> bool {
    rand::random::<bool>()
}

/// Whether every count in `v` is a possible number of live neighbours.
fn counts_in_range(v: &Vec<u8>) -> (r: bool)
    ensures
        r == forall|i: int| 0 <= i < v@.len() ==> #[trigger] v@[i] <= MAX_NEIGHBORS,
{
    let mut i: usize = 0;
    while i < v.len()
        invariant
            0 <= i <= v@.len(),
            forall|j: int| 0 <= j < i ==> #[trigger] v@[j] <= MAX_NEIGHBORS,
        decreases v@.len() - i,
    {
        if v[i] > MAX_NEIGHBORS {
            return false;
        }
        i = i + 1;
    }
    true
}

proof fn lemma_live_upto_bounded(w: &World, c: (int, int), k: int)
    requires
        k >= 0,
    ensures
        0 <= w.live_upto(c, k) <= k,
    decreases k,
{
    if k > 0 {
        lemma_live_upto_bounded(w, c, k - 1);
    }
}

/// The number of live neighbours a step counts for a cell is between zero
/// and six.
pub proof fn lemma_live_neighbors_bounded(w: &World, i: int)
    requires
        w.wf(),
        0 <= i < w.coords@.len(),
    ensures
        0 <= w.live_neighbors(i) <= 6,
{
    lemma_live_upto_bounded(w, w.coords@[i]@, 6);
}

/// Wraparound: a position just outside the disc stands for a cell of the
/// disc that is its translate by one of the six tiling translations (the
/// matching position on the opposite edge), and no other cell of the disc
/// is such a translate of it.
pub proof fn lemma_wraparound(w: &World, p: (int, int))
    requires
        w.wf(),
        hex_dist(p, (0, 0)) == w.radius + 1,
    ensures
        in_disc(resolve(w.edges@, p), w.radius as int),
        exists|k: int| 0 <= k < 6 && resolve(w.edges@, p) == minus(p, #[trigger] mirror(w.radius as int, k)),
        forall|k: int|
            0 <= k < 6 && in_disc(minus(p, #[trigger] mirror(w.radius as int, k)), w.radius as int)
                ==> minus(p, mirror(w.radius as int, k)) == resolve(w.edges@, p),
{
    let r = w.radius as int;
    assert(lookup(w.edges@, p) is Some);
    let k0 = choose|k: int| 0 <= k < 6 && lookup(w.edges@, p)->0 == minus(p, #[trigger] mirror(r, k));
    assert forall|k: int|
        0 <= k < 6 && in_disc(minus(p, #[trigger] mirror(r, k)), r) implies minus(p, mirror(r, k)) == resolve(
        w.edges@,
        p,
    ) by {
        lemma_translate_unique(p, r, k, k0);
    }
}

/// Any two edge tables for one radius resolve a neighbour of a disc cell
/// to the same cell.
proof fn lemma_resolve_agrees(e1: Seq<(Coord, Coord)>, e2: Seq<(Coord, Coord)>, c: (int, int), k: int, r: int)
    requires
        r >= 1,
        edges_wf(e1, r),
        edges_wf(e2, r),
        in_disc(c, r),
        0 <= k < 6,
    ensures
        resolve(e1, neighbor(c, k)) == resolve(e2, neighbor(c, k)),
{
    let p = neighbor(c, k);
    lemma_neighbor_near(c, k, r);
    if !in_disc(p, r) {
        assert(lookup(e1, p) is Some);
        assert(lookup(e2, p) is Some);
        let k1 = choose|k: int| 0 <= k < 6 && lookup(e1, p)->0 == minus(p, #[trigger] mirror(r, k));
        let k2 = choose|k: int| 0 <= k < 6 && lookup(e2, p)->0 == minus(p, #[trigger] mirror(r, k));
        lemma_translate_unique(p, r, k1, k2);
    } else {
        assert(lookup(e1, p) is None);
        assert(lookup(e2, p) is None);
    }
}

proof fn lemma_live_upto_agrees(a: &World, b: &World, c: (int, int), k: int)
    requires
        a.wf(),
        b.wf(),
        a.radius == b.radius,
        a.coords@ == b.coords@,
        a.states@ == b.states@,
        in_disc(c, a.radius as int),
        0 <= k <= 6,
    ensures
        a.live_upto(c, k) == b.live_upto(c, k),
    decreases k,
{
    if k > 0 {
        lemma_live_upto_agrees(a, b, c, k - 1);
        lemma_resolve_agrees(a.edges@, b.edges@, c, k - 1, a.radius as int);
    }
}

/// Determinism: two worlds that hold the same cells in the same states
/// under the same rule step to the same next generation, whichever edge
/// tables they were built with.
pub proof fn lemma_step_deterministic(a: &World, b: &World)
    requires
        a.wf(),
        b.wf(),
        a.radius == b.radius,
        a.coords@ == b.coords@,
        a.states@ == b.states@,
        a.rule == b.rule,
    ensures
        forall|i: int| 0 <= i < a.states@.len() ==> #[trigger] a.successor(i) == b.successor(i),
{
    assert forall|i: int| 0 <= i < a.states@.len() implies #[trigger] a.successor(i) == b.successor(i) by {
        lemma_live_upto_agrees(a, b, a.coords@[i]@, 6);
    }
}

} // verus!
