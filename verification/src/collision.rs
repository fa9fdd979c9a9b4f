//! The broad phase of collision detection: a spatial hash of projectiles.
//!
//! Every active projectile is filed under the grid cell it lies in. A target
//! (the player's ship or an enemy) is tested only against the projectiles in
//! the cells around its own cell, and only against those fired by the other
//! side. The narrow phase, the overlap test of the boxes, is the caller's.
use vstd::prelude::*;
use std::collections::HashMap;
use std::collections::HashSet;
use crate::projectile::{ProjectileOwner, HitTarget, spec_can_hit, can_hit};

verus! {

broadcast use vstd::std_specs::hash::group_hash_axioms;

/// A cell of the spatial-hash grid, by its integer coordinates.
#[derive(Clone, Copy, PartialEq, Eq, Structural, Debug)]
pub struct Cell {
    pub x: i32,
    pub y: i32,
}

/// How many cells around a target's own cell are searched, on each axis.
pub const QUERY_RADIUS: i32 = 1;

/// The number of cells searched per axis, `2 * QUERY_RADIUS + 1`.
pub open spec fn side() -> int {
    3
}

/// The number under which a cell is filed: distinct cells get distinct keys.
pub open spec fn spec_cell_key(c: Cell) -> int {
    c.x * 0x1_0000_0000 + (c.y - i32::MIN)
}

/// Computes the key of a cell.
pub fn cell_key(c: Cell) -> (k: i64)
    ensures
        k == spec_cell_key(c),
{
    (c.x as i64) * 0x1_0000_0000i64 + ((c.y as i64) - (i32::MIN as i64))
}

/// Two cells have the same key only if they are the same cell.
pub proof fn lemma_cell_key_injective(a: Cell, b: Cell)
    ensures
        spec_cell_key(a) == spec_cell_key(b) <==> a == b,
{
    if spec_cell_key(a) == spec_cell_key(b) {
        assert(a.x == b.x) by (nonlinear_arith)
            requires
                a.x * 0x1_0000_0000 + (a.y - i32::MIN) == b.x * 0x1_0000_0000 + (b.y - i32::MIN),
                i32::MIN <= a.y <= i32::MAX,
                i32::MIN <= b.y <= i32::MAX,
        ;
    }
}

/// The indices, in increasing order, of the entries of `cells` that lie in
/// cell `c`.
pub open spec fn members(cells: Seq<Cell>, c: Cell) -> Seq<usize>
    decreases cells.len(),
{
    if cells.len() == 0 {
        Seq::empty()
    } else {
        let prev = members(cells.drop_last(), c);
        if cells.last() == c {
            prev.push((cells.len() - 1) as usize)
        } else {
            prev
        }
    }
}

/// Every index in `members(cells, c)` is that of an entry in cell `c`, the
/// indices increase, and every entry in `c` is listed.
pub proof fn lemma_members(cells: Seq<Cell>, c: Cell)
    requires
        cells.len() <= usize::MAX,
    ensures
        forall|j: int|
            0 <= j < members(cells, c).len() ==> #[trigger] members(cells, c)[j] < cells.len()
                && cells[members(cells, c)[j] as int] == c,
        forall|j: int, l: int|
            0 <= j < l < members(cells, c).len() ==> members(cells, c)[j] < members(cells, c)[l],
        forall|i: int|
            0 <= i < cells.len() && cells[i] == c ==> #[trigger] members(cells, c).contains(
                i as usize,
            ),
    decreases cells.len(),
{
    if cells.len() > 0 {
        let rest = cells.drop_last();
        lemma_members(rest, c);
        let prev = members(rest, c);
        let cur = members(cells, c);
        let last: usize = (cells.len() - 1) as usize;
        assert forall|j: int| 0 <= j < cur.len() implies #[trigger] cur[j] < cells.len()
            && cells[cur[j] as int] == c by {
            if j < prev.len() {
                assert(cur[j] == prev[j]);
                assert(rest[prev[j] as int] == cells[prev[j] as int]);
            }
        }
        assert forall|j: int, l: int| 0 <= j < l < cur.len() implies cur[j] < cur[l] by {
            if l < prev.len() {
                assert(cur[j] == prev[j] && cur[l] == prev[l]);
            } else {
                assert(cur[l] == last);
                assert(cur[j] == prev[j]);
                assert(prev[j] < rest.len());
            }
        }
        assert forall|i: int| 0 <= i < cells.len() && cells[i] == c implies #[trigger] cur.contains(
            i as usize,
        ) by {
            if i < cells.len() - 1 {
                assert(rest[i] == cells[i]);
                assert(prev.contains(i as usize));
                let w = choose|w: int| 0 <= w < prev.len() && prev[w] == i as usize;
                assert(cur[w] == prev[w]);
            } else {
                assert(cur[cur.len() - 1] == i as usize);
            }
        }
    }
}

/// The `k`-th cell searched around `center`, counting row by row from the
/// corner of lowest coordinates.
pub open spec fn neighbor(center: Cell, k: int) -> Cell {
    Cell {
        x: (center.x + k / 3 - 1) as i32,
        y: (center.y + k % 3 - 1) as i32,
    }
}

/// Whether cell `c` is among the cells searched around `center`.
pub open spec fn near(center: Cell, c: Cell) -> bool {
    &&& center.x - 1 <= c.x <= center.x + 1
    &&& center.y - 1 <= c.y <= center.y + 1
}

/// The position of a cell near `center` in the order of the search.
pub open spec fn search_index(center: Cell, c: Cell) -> int {
    (c.x - center.x + 1) * 3 + (c.y - center.y + 1)
}

/// The cells around `center` can be named without leaving the range of
/// `i32`.
pub open spec fn search_fits(center: Cell) -> bool {
    &&& i32::MIN + 1 <= center.x <= i32::MAX - 1
    &&& i32::MIN + 1 <= center.y <= i32::MAX - 1
}

/// The entries of `bucket`, in order, whose projectile can hit `target`.
pub open spec fn hits(owners: Seq<ProjectileOwner>, bucket: Seq<usize>, target: HitTarget) -> Seq<
    usize,
>
    decreases bucket.len(),
{
    if bucket.len() == 0 {
        Seq::empty()
    } else {
        let prev = hits(owners, bucket.drop_last(), target);
        if spec_can_hit(owners[bucket.last() as int], target) {
            prev.push(bucket.last())
        } else {
            prev
        }
    }
}

/// The projectiles that can hit `target` in the first `k` cells searched
/// around `center`, cell by cell, each cell's in the order they were filed.
pub open spec fn candidates_upto(
    cells: Seq<Cell>,
    owners: Seq<ProjectileOwner>,
    center: Cell,
    target: HitTarget,
    k: nat,
) -> Seq<usize>
    decreases k,
{
    if k == 0 {
        Seq::empty()
    } else {
        candidates_upto(cells, owners, center, target, (k - 1) as nat) + hits(
            owners,
            members(cells, neighbor(center, k - 1)),
            target,
        )
    }
}

/// The projectiles that are tested against `target` when it stands in cell
/// `center`: those in the cells around `center` that were fired by the
/// other side.
pub open spec fn candidates(
    cells: Seq<Cell>,
    owners: Seq<ProjectileOwner>,
    center: Cell,
    target: HitTarget,
) -> Seq<usize> {
    candidates_upto(cells, owners, center, target, 9)
}

/// The lists under the keys of `buckets` are exactly the members of each
/// cell of `cells`; a cell with no entry has no list.
pub open spec fn files_cells(buckets: Map<i64, Vec<usize>>, cells: Seq<Cell>) -> bool {
    forall|c: Cell|
        #![trigger members(cells, c)]
        members(cells, c) == (if buckets.contains_key(spec_cell_key(c) as i64) {
            buckets[spec_cell_key(c) as i64]@
        } else {
            Seq::<usize>::empty()
        })
}

/// The projectiles of one frame, filed by cell, and the cells searched so far.
pub struct CollisionGrid {
    cells: Vec<Cell>,
    owners: Vec<ProjectileOwner>,
    buckets: HashMap<i64, Vec<usize>>,
    queried: Vec<Cell>,
    queried_keys: HashSet<i64>,
}

impl CollisionGrid {
    /// The cell of each projectile, by index.
    pub closed spec fn cells(&self) -> Seq<Cell> {
        self.cells@
    }

    /// The side that fired each projectile, by index.
    pub closed spec fn owners(&self) -> Seq<ProjectileOwner> {
        self.owners@
    }

    /// The cells searched so far, each once, in the order first searched.
    pub closed spec fn queried(&self) -> Seq<Cell> {
        self.queried@
    }

    /// The grid's internal consistency.
    pub closed spec fn wf(&self) -> bool {
        &&& self.cells@.len() == self.owners@.len()
        &&& files_cells(self.buckets@, self.cells@)
        &&& self.queried@.no_duplicates()
        &&& forall|c: Cell|
            #![trigger self.queried@.contains(c)]
            #![trigger self.queried_keys@.contains(spec_cell_key(c) as i64)]
            self.queried@.contains(c) <==> self.queried_keys@.contains(spec_cell_key(c) as i64)
    }

    /// Files projectile `i`, which lies in cell `cells[i]` and was fired by
    /// `owners[i]`, for every `i`. No cell has been searched yet.
    pub fn new(cells: Vec<Cell>, owners: Vec<ProjectileOwner>) -> (g: Self)
        requires
            cells@.len() == owners@.len(),
        ensures
            g.wf(),
            g.cells() == cells@,
            g.owners() == owners@,
            g.queried() == Seq::<Cell>::empty(),
    {
        let mut buckets: HashMap<i64, Vec<usize>> = HashMap::new();
        let n: usize = cells.len();
        for i in 0..n
            invariant
                n == cells@.len(),
                files_cells(buckets@, cells@.take(i as int)),
        {
            let c = cells[i];
            let key: i64 = cell_key(c);
            let mut bucket = match buckets.remove(&key) {
                Some(b) => b,
                None => Vec::new(),
            };
            bucket.push(i);
            buckets.insert(key, bucket);
            proof {
                let before = cells@.take(i as int);
                let after = cells@.take(i + 1);
                assert(after.drop_last() == before);
                assert(after.last() == c);
                assert forall|d: Cell| #[trigger]
                    members(after, d) == (if buckets@.contains_key(spec_cell_key(d) as i64) {
                        buckets@[spec_cell_key(d) as i64]@
                    } else {
                        Seq::<usize>::empty()
                    }) by {
                    lemma_cell_key_injective(c, d);
                    // Instantiates the filing of the cells before this one at `d`.
                    assert(members(before, d) == members(before, d));
                }
            }
        }
        assert(cells@.take(n as int) == cells@);
        CollisionGrid {
            cells,
            owners,
            buckets,
            queried: Vec::new(),
            queried_keys: HashSet::new(),
        }
    }
    /// Searches the cells around `center` for projectiles that can hit
    /// `target`, and returns their indices: cell by cell, row by row, and
    /// within a cell in the order the projectiles were filed. The searched
    /// cells are recorded.
    pub fn query(&mut self, center: Cell, target: HitTarget) -> (found: Vec<usize>)
        requires
            old(self).wf(),
            search_fits(center),
        ensures
            final(self).wf(),
            final(self).cells() == old(self).cells(),
            final(self).owners() == old(self).owners(),
            found@ == candidates(old(self).cells(), old(self).owners(), center, target),
            final(self).queried().no_duplicates(),
            old(self).queried().is_prefix_of(final(self).queried()),
            forall|c: Cell|
                #[trigger] final(self).queried().contains(c) <==> old(self).queried().contains(c)
                    || near(center, c),
    {
        let ghost cells = self.cells@;
        let ghost owners = self.owners@;
        let ghost old_queried = self.queried@;
        assert(QUERY_RADIUS == 1);
        assert(cells.len() == self.cells.len());
        let mut found: Vec<usize> = Vec::new();
        let mut dx: i32 = -QUERY_RADIUS;
        while dx <= QUERY_RADIUS
            invariant
                self.wf(),
                self.cells@ == cells,
                self.owners@ == owners,
                cells.len() <= usize::MAX,
                old_queried.is_prefix_of(self.queried@),
                search_fits(center),
                -QUERY_RADIUS <= dx <= QUERY_RADIUS + 1,
                found@ == candidates_upto(cells, owners, center, target, ((dx + 1) * 3) as nat),
                forall|c: Cell|
                    #[trigger] self.queried@.contains(c) <==> old_queried.contains(c) || (near(center, c)
                        && search_index(center, c) < (dx + 1) * 3),
            decreases QUERY_RADIUS + 1 - dx,
        {
            let mut dy: i32 = -QUERY_RADIUS;
            while dy <= QUERY_RADIUS
                invariant
                    self.wf(),
                    self.cells@ == cells,
                    self.owners@ == owners,
                    cells.len() <= usize::MAX,
                    old_queried.is_prefix_of(self.queried@),
                    search_fits(center),
                    -QUERY_RADIUS <= dx <= QUERY_RADIUS,
                    -QUERY_RADIUS <= dy <= QUERY_RADIUS + 1,
                    found@ == candidates_upto(cells, owners, center, target, ((dx + 1) * 3 + dy + 1) as nat),
                    forall|c: Cell|
                        #[trigger] self.queried@.contains(c) <==> old_queried.contains(c) || (near(center, c)
                            && search_index(center, c) < (dx + 1) * 3 + dy + 1),
                decreases QUERY_RADIUS + 1 - dy,
            {
                let ghost k: int = (dx + 1) * 3 + dy + 1;
                let cell = Cell { x: center.x + dx, y: center.y + dy };
                assert(neighbor(center, k) == cell);
                let key: i64 = cell_key(cell);
                let ghost before_queried = self.queried@;
                let ghost before_keys = self.queried_keys@;
                assert(before_queried.contains(cell) <==> before_keys.contains(spec_cell_key(cell) as i64));
                if self.queried_keys.insert(key) {
                    self.queried.push(cell);
                    proof {
                        assert(self.queried@[self.queried@.len() - 1] == cell);
                        assert(!before_queried.contains(cell));
                        assert forall|i: int, j: int| 0 <= i < j < self.queried@.len()
                            implies self.queried@[i] != self.queried@[j] by {
                            if j == self.queried@.len() - 1 {
                                assert(before_queried[i] == self.queried@[i]);
                            } else {
                                assert(before_queried[i] == self.queried@[i]);
                                assert(before_queried[j] == self.queried@[j]);
                            }
                        }
                    }
                }
                proof {
                    assert(self.queried@.contains(cell));
                    assert forall|c: Cell|
                        #![trigger self.queried@.contains(c)]
                        #![trigger self.queried_keys@.contains(spec_cell_key(c) as i64)]
                        self.queried@.contains(c) <==> (before_queried.contains(c) || c == cell) by {
                        if self.queried@.contains(c) && !before_queried.contains(c) {
                            let w = choose|w: int| 0 <= w < self.queried@.len() && self.queried@[w] == c;
                            if w < before_queried.len() {
                                assert(before_queried[w] == c);
                            }
                        }
                        if before_queried.contains(c) {
                            let w = choose|w: int| 0 <= w < before_queried.len() && before_queried[w] == c;
                            assert(self.queried@[w] == c);
                        }
                    }
                    assert forall|c: Cell|
                        #![trigger self.queried@.contains(c)]
                        #![trigger self.queried_keys@.contains(spec_cell_key(c) as i64)]
                        self.queried@.contains(c) <==> self.queried_keys@.contains(spec_cell_key(c) as i64) by {
                        lemma_cell_key_injective(c, cell);
                        assert(before_queried.contains(c) <==> before_keys.contains(spec_cell_key(c) as i64));
                    }
                }
                let ghost before_found = found@;
                match self.buckets.get(&key) {
                    Some(bucket) => {
                        let m: usize = bucket.len();
                        assert(bucket@ == members(cells, cell));
                        proof { lemma_members(cells, cell); }
                        for j in 0..m
                            invariant
                                m == bucket@.len(),
                                bucket@ == members(cells, cell),
                                cells.len() == owners.len(),
                                self.owners@ == owners,
                                forall|l: int| 0 <= l < members(cells, cell).len() ==> #[trigger] members(cells, cell)[l] < cells.len(),
                                found@ == before_found + hits(owners, bucket@.take(j as int), target),
                        {
                            let idx: usize = bucket[j];
                            assert(bucket@.take(j + 1).drop_last() == bucket@.take(j as int));
                            assert(members(cells, cell)[j as int] < cells.len());
                            if can_hit(self.owners[idx], target) {
                                found.push(idx);
                            }
                        }
                        assert(bucket@.take(m as int) == bucket@);
                    },
                    None => {
                        assert(members(cells, cell) == Seq::<usize>::empty());
                    },
                }
                assert(found@ == candidates_upto(cells, owners, center, target, (k + 1) as nat));
                dy = dy + 1;
            }
            dx = dx + 1;
        }
        found
    }
    /// The cells searched so far, each once.
    pub fn queried_cells(&self) -> (r: Vec<Cell>)
        ensures
            r@ == self.queried(),
    {
        let mut r: Vec<Cell> = Vec::new();
        let n: usize = self.queried.len();
        for i in 0..n
            invariant
                n == self.queried@.len(),
                r@ == self.queried@.take(i as int),
        {
            r.push(self.queried[i]);
            assert(self.queried@.take(i + 1) == self.queried@.take(i as int).push(self.queried@[i as int]));
        }
        assert(self.queried@.take(n as int) == self.queried@);
        r
    }
}

/// What the broad phase finds in one frame.
pub struct BroadPhase {
    /// The projectiles to test against the player's ship.
    pub player: Vec<usize>,
    /// For each enemy, in the order given, the projectiles to test against it.
    pub enemies: Vec<Vec<usize>>,
    /// Every cell searched, each once.
    pub queried: Vec<Cell>,
}

/// Whether cell `c` is searched for the player (when present) or for one of
/// the enemies.
pub open spec fn searched(player: Option<Cell>, enemies: Seq<Cell>, c: Cell) -> bool {
    ||| (player matches Some(p) && near(p, c))
    ||| exists|i: int| 0 <= i < enemies.len() && near(#[trigger] enemies[i], c)
}

/// The broad phase of a frame: files projectile `i` (in cell `cells[i]`,
/// fired by `owners[i]`), then searches around the player's cell, if there
/// is a player, and around each enemy's cell, in order.
pub fn broad_phase(
    cells: Vec<Cell>,
    owners: Vec<ProjectileOwner>,
    player: Option<Cell>,
    enemies: &Vec<Cell>,
) -> (r: BroadPhase)
    requires
        cells@.len() == owners@.len(),
        player matches Some(p) ==> search_fits(p),
        forall|i: int| 0 <= i < enemies@.len() ==> search_fits(#[trigger] enemies@[i]),
    ensures
        r.player@ == (match player {
            Some(p) => candidates(cells@, owners@, p, HitTarget::Player),
            None => Seq::<usize>::empty(),
        }),
        r.enemies@.len() == enemies@.len(),
        forall|i: int|
            0 <= i < enemies@.len() ==> (#[trigger] r.enemies@[i])@ == candidates(
                cells@,
                owners@,
                enemies@[i],
                HitTarget::Enemy,
            ),
        r.queried@.no_duplicates(),
        forall|c: Cell| #[trigger] r.queried@.contains(c) <==> searched(player, enemies@, c),
{
    let ghost cs = cells@;
    let ghost os = owners@;
    let mut grid = CollisionGrid::new(cells, owners);
    let player_found = match player {
        Some(p) => grid.query(p, HitTarget::Player),
        None => Vec::new(),
    };
    let ghost after_player = grid.queried();
    let mut found: Vec<Vec<usize>> = Vec::new();
    let n: usize = enemies.len();
    for i in 0..n
        invariant
            n == enemies@.len(),
            grid.wf(),
            grid.cells() == cs,
            grid.owners() == os,
            forall|j: int| 0 <= j < n ==> search_fits(#[trigger] enemies@[j]),
            found@.len() == i,
            forall|j: int|
                0 <= j < i ==> (#[trigger] found@[j])@ == candidates(cs, os, enemies@[j], HitTarget::Enemy),
            forall|c: Cell|
                #[trigger] grid.queried().contains(c) <==> after_player.contains(c) || exists|j: int|
                    0 <= j < i && near(#[trigger] enemies@[j], c),
    {
        let ghost before = grid.queried();
        let f = grid.query(enemies[i], HitTarget::Enemy);
        found.push(f);
        proof {
            assert forall|c: Cell| #[trigger] grid.queried().contains(c) <==> after_player.contains(c)
                || exists|j: int| 0 <= j < i + 1 && near(#[trigger] enemies@[j], c) by {
                if grid.queried().contains(c) && !after_player.contains(c) && !before.contains(c) {
                    assert(near(enemies@[i as int], c));
                }
                if exists|j: int| 0 <= j < i + 1 && near(#[trigger] enemies@[j], c) {
                    let j = choose|j: int| 0 <= j < i + 1 && near(#[trigger] enemies@[j], c);
                    if j < i {
                        assert(before.contains(c));
                    }
                }
            }
        }
    }
    let queried = grid.queried_cells();
    proof {
        assert forall|c: Cell| #[trigger] queried@.contains(c) <==> searched(player, enemies@, c) by {
            if exists|j: int| 0 <= j < n && near(#[trigger] enemies@[j], c) {
                let j = choose|j: int| 0 <= j < n && near(#[trigger] enemies@[j], c);
                assert(0 <= j < enemies@.len() && near(enemies@[j], c));
            }
        }
    }
    BroadPhase { player: player_found, enemies: found, queried }
}

/// The `k`-th searched cell is near `center` and sits at position `k` of
/// the search; a cell near `center` is the searched cell at its position.
pub proof fn lemma_search_order(center: Cell)
    requires
        search_fits(center),
    ensures
        forall|k: int|
            0 <= k < 9 ==> near(center, #[trigger] neighbor(center, k)) && search_index(
                center,
                neighbor(center, k),
            ) == k,
        forall|c: Cell|
            near(center, c) ==> 0 <= #[trigger] search_index(center, c) < 9 && neighbor(
                center,
                search_index(center, c),
            ) == c,
{
    assert forall|k: int| 0 <= k < 9 implies near(center, #[trigger] neighbor(center, k))
        && search_index(center, neighbor(center, k)) == k by {
        assert(0 <= k / 3 < 3 && 0 <= k % 3 < 3 && k == (k / 3) * 3 + k % 3);
    }
    assert forall|c: Cell| near(center, c) implies 0 <= #[trigger] search_index(center, c) < 9
        && neighbor(center, search_index(center, c)) == c by {
        let a: int = c.x - center.x + 1;
        let b: int = c.y - center.y + 1;
        assert((a * 3 + b) / 3 == a && (a * 3 + b) % 3 == b);
    }
}

/// What `hits` keeps of a bucket: the entries whose projectile can hit
/// `target`, all of them, in the bucket's order.
pub proof fn lemma_hits(owners: Seq<ProjectileOwner>, bucket: Seq<usize>, target: HitTarget)
    ensures
        forall|j: int|
            0 <= j < hits(owners, bucket, target).len() ==> bucket.contains(
                #[trigger] hits(owners, bucket, target)[j],
            ) && spec_can_hit(owners[hits(owners, bucket, target)[j] as int], target),
        forall|x: usize|
            bucket.contains(x) && spec_can_hit(owners[x as int], target) ==> #[trigger] hits(
                owners,
                bucket,
                target,
            ).contains(x),
        (forall|j: int, l: int| 0 <= j < l < bucket.len() ==> bucket[j] < bucket[l]) ==> (forall|
            j: int,
            l: int,
        |
            0 <= j < l < hits(owners, bucket, target).len() ==> hits(owners, bucket, target)[j]
                < hits(owners, bucket, target)[l]),
    decreases bucket.len(),
{
    if bucket.len() > 0 {
        let rest = bucket.drop_last();
        lemma_hits(owners, rest, target);
        let prev = hits(owners, rest, target);
        let cur = hits(owners, bucket, target);
        assert forall|j: int| 0 <= j < cur.len() implies bucket.contains(#[trigger] cur[j])
            && spec_can_hit(owners[cur[j] as int], target) by {
            if j < prev.len() {
                assert(cur[j] == prev[j]);
                let w = choose|w: int| 0 <= w < rest.len() && rest[w] == prev[j];
                assert(bucket[w] == rest[w]);
            } else {
                assert(bucket[bucket.len() - 1] == cur[j]);
            }
        }
        assert forall|x: usize| bucket.contains(x) && spec_can_hit(owners[x as int], target)
            implies #[trigger] cur.contains(x) by {
            let w = choose|w: int| 0 <= w < bucket.len() && bucket[w] == x;
            if w < bucket.len() - 1 {
                assert(rest[w] == x);
                assert(prev.contains(x));
                let v = choose|v: int| 0 <= v < prev.len() && prev[v] == x;
                assert(cur[v] == x);
            } else {
                assert(cur[cur.len() - 1] == x);
            }
        }
        if forall|j: int, l: int| 0 <= j < l < bucket.len() ==> bucket[j] < bucket[l] {
            assert forall|j: int, l: int| 0 <= j < l < rest.len() implies rest[j] < rest[l] by {
                assert(rest[j] == bucket[j] && rest[l] == bucket[l]);
            }
            assert forall|j: int, l: int| 0 <= j < l < cur.len() implies cur[j] < cur[l] by {
                if l < prev.len() {
                    assert(cur[j] == prev[j] && cur[l] == prev[l]);
                } else {
                    assert(cur[j] == prev[j]);
                    let w = choose|w: int| 0 <= w < rest.len() && rest[w] == prev[j];
                    assert(bucket[w] == rest[w]);
                    assert(cur[l] == bucket[bucket.len() - 1]);
                }
            }
        }
    }
}

/// The candidates among the first `k` searched cells: exactly the
/// projectiles near `center` whose search position is below `k` and that can
/// hit `target`, each once.
proof fn lemma_candidates_upto(
    cells: Seq<Cell>,
    owners: Seq<ProjectileOwner>,
    center: Cell,
    target: HitTarget,
    k: nat,
)
    requires
        cells.len() == owners.len(),
        cells.len() <= usize::MAX,
        search_fits(center),
        k <= 9,
    ensures
        forall|j: int|
            0 <= j < candidates_upto(cells, owners, center, target, k).len() ==> {
                let x = #[trigger] candidates_upto(cells, owners, center, target, k)[j];
                &&& x < cells.len()
                &&& near(center, cells[x as int])
                &&& search_index(center, cells[x as int]) < k
                &&& spec_can_hit(owners[x as int], target)
            },
        forall|i: int|
            0 <= i < cells.len() && near(center, cells[i]) && search_index(center, cells[i]) < k
                && spec_can_hit(owners[i], target) ==> #[trigger] candidates_upto(
                cells,
                owners,
                center,
                target,
                k,
            ).contains(i as usize),
        candidates_upto(cells, owners, center, target, k).no_duplicates(),
    decreases k,
{
    lemma_search_order(center);
    if k > 0 {
        let km: nat = (k - 1) as nat;
        lemma_candidates_upto(cells, owners, center, target, km);
        let prev = candidates_upto(cells, owners, center, target, km);
        let nb = neighbor(center, km as int);
        let bucket = members(cells, nb);
        lemma_members(cells, nb);
        lemma_hits(owners, bucket, target);
        let new = hits(owners, bucket, target);
        let cur = candidates_upto(cells, owners, center, target, k);
        assert(cur == prev + new);
        assert forall|j: int| 0 <= j < cur.len() implies {
            let x = #[trigger] cur[j];
            &&& x < cells.len()
            &&& near(center, cells[x as int])
            &&& search_index(center, cells[x as int]) < k
            &&& spec_can_hit(owners[x as int], target)
        } by {
            if j < prev.len() {
                assert(cur[j] == prev[j]);
            } else {
                assert(cur[j] == new[j - prev.len()]);
                let w = choose|w: int| 0 <= w < bucket.len() && bucket[w] == new[j - prev.len()];
                assert(cells[bucket[w] as int] == nb);
            }
        }
        assert forall|i: int|
            0 <= i < cells.len() && near(center, cells[i]) && search_index(center, cells[i]) < k
                && spec_can_hit(owners[i], target) implies #[trigger] cur.contains(i as usize) by {
            if search_index(center, cells[i]) < km {
                assert(candidates_upto(cells, owners, center, target, km).contains(i as usize));
                let v = choose|v: int| 0 <= v < prev.len() && prev[v] == i as usize;
                assert(cur[v] == i as usize);
            } else {
                assert(cells[i] == nb);
                assert(bucket.contains(i as usize));
                assert(new.contains(i as usize));
                let v = choose|v: int| 0 <= v < new.len() && new[v] == i as usize;
                assert(cur[prev.len() + v] == i as usize);
            }
        }
        assert forall|a: int, b: int| 0 <= a < cur.len() && 0 <= b < cur.len() && a != b
            implies cur[a] != cur[b] by {
            if a < prev.len() && b < prev.len() {
                assert(cur[a] == prev[a] && cur[b] == prev[b]);
            } else if a >= prev.len() && b >= prev.len() {
                assert(cur[a] == new[a - prev.len()] && cur[b] == new[b - prev.len()]);
                if a < b {
                    assert(new[a - prev.len()] < new[b - prev.len()]);
                } else {
                    assert(new[b - prev.len()] < new[a - prev.len()]);
                }
            } else {
                let (p, q) = if a < prev.len() { (a, b) } else { (b, a) };
                assert(cur[p] == prev[p]);
                assert(cur[q] == new[q - prev.len()]);
                let w = choose|w: int| 0 <= w < bucket.len() && bucket[w] == new[q - prev.len()];
                assert(cells[bucket[w] as int] == nb);
                assert(search_index(center, cells[prev[p] as int]) < km);
            }
        }
    }
}

/// The projectiles that `query` returns for a target in cell `center` are
/// exactly those that lie in a cell near `center` and can hit the target,
/// and none is returned twice.
pub proof fn lemma_candidates_exact(
    cells: Seq<Cell>,
    owners: Seq<ProjectileOwner>,
    center: Cell,
    target: HitTarget,
)
    requires
        cells.len() == owners.len(),
        cells.len() <= usize::MAX,
        search_fits(center),
    ensures
        forall|i: int|
            0 <= i < cells.len() ==> (#[trigger] candidates(cells, owners, center, target).contains(
                i as usize,
            ) <==> near(center, cells[i]) && spec_can_hit(owners[i], target)),
        forall|j: int|
            0 <= j < candidates(cells, owners, center, target).len() ==> #[trigger] candidates(
                cells,
                owners,
                center,
                target,
            )[j] < cells.len(),
        candidates(cells, owners, center, target).no_duplicates(),
{
    lemma_search_order(center);
    lemma_candidates_upto(cells, owners, center, target, 9);
    let cand = candidates(cells, owners, center, target);
    assert forall|i: int| 0 <= i < cells.len() implies (#[trigger] cand.contains(i as usize)
        <==> near(center, cells[i]) && spec_can_hit(owners[i], target)) by {
        if cand.contains(i as usize) {
            let v = choose|v: int| 0 <= v < cand.len() && cand[v] == i as usize;
            assert(cand[v] == i as usize);
        }
    }
}

} // verus!
