//! The pool of pre-spawned enemy entities and its bookkeeping.
//!
//! Enemies are spawned once, hidden, and kept in a pool. Spawning an enemy
//! takes the most recently returned entity out of the pool; releasing one puts
//! it back. The pool is a stack: what was released last is handed out first.
use vstd::prelude::*;
use bevy::ecs::entity::Entity;

verus! {

/// The entity handle of the ECS, carried through the pool without being read.
#[verifier::external_type_specification]
#[verifier::external_body]
pub struct ExEntity(Entity);

/// The entities that are free to be spawned as enemies.
pub struct EnemyPool {
    available: Vec<Entity>,
}

impl View for EnemyPool {
    type V = Seq<Entity>;

    /// The free entities, the one handed out next last.
    closed spec fn view(&self) -> Seq<Entity> {
        self.available@
    }
}

/// What `acquire` does to a pool whose contents are `before`: the entity it
/// hands out and the contents after.
pub open spec fn acquire_result(before: Seq<Entity>) -> (Option<Entity>, Seq<Entity>) {
    if before.len() == 0 {
        (None, before)
    } else {
        (Some(before.last()), before.drop_last())
    }
}

impl Default for EnemyPool {
    fn default() -> (pool: Self)
        ensures
            pool@ == Seq::<Entity>::empty(),
    {
        EnemyPool { available: Vec::new() }
    }
}

impl EnemyPool {
    /// Takes the entity that was put into the pool last, or `None` when the
    /// pool is empty.
    pub fn acquire(&mut self) -> (r: Option<Entity>)
        ensures
            (r, final(self)@) == acquire_result(old(self)@),
    {
        self.available.pop()
    }

    /// Returns an entity to the pool; it is the next one to be acquired.
    pub fn release(&mut self, entity: Entity)
        ensures
            final(self)@ == old(self)@.push(entity),
    {
        self.available.push(entity);
    }

    /// The number of entities that can still be acquired.
    pub fn available_count(&self) -> (n: usize)
        ensures
            n == self@.len(),
    {
        self.available.len()
    }

    /// Adds a freshly spawned entity to the pool.
    pub fn push(&mut self, entity: Entity)
        ensures
            final(self)@ == old(self)@.push(entity),
    {
        self.available.push(entity);
    }
}

/// Counters of what happened to the enemy pool.
#[derive(Clone, Copy)]
pub struct EnemyPoolStats {
    /// Spawn requests that found the pool empty.
    pub failed_spawns: u64,
    /// Enemies returned to the pool.
    pub total_releases: u64,
}

impl Default for EnemyPoolStats {
    fn default() -> (stats: Self)
        ensures
            stats.failed_spawns == 0,
            stats.total_releases == 0,
    {
        EnemyPoolStats { failed_spawns: 0, total_releases: 0 }
    }
}

/// The pool side of spawning an enemy: takes an entity out of the pool, or,
/// when the pool is empty, counts a failed spawn and returns `None`. The
/// caller activates the entity it gets.
pub fn take_for_spawn(pool: &mut EnemyPool, stats: &mut EnemyPoolStats) -> (r: Option<Entity>)
    requires
        old(pool)@.len() == 0 ==> old(stats).failed_spawns < u64::MAX,
    ensures
        (r, final(pool)@) == acquire_result(old(pool)@),
        r.is_none() ==> final(stats).failed_spawns == old(stats).failed_spawns + 1,
        r.is_some() ==> final(stats).failed_spawns == old(stats).failed_spawns,
        final(stats).total_releases == old(stats).total_releases,
{
    match pool.acquire() {
        Some(entity) => Some(entity),
        None => {
            stats.failed_spawns = stats.failed_spawns + 1;
            None
        },
    }
}

/// The pool side of releasing an enemy: the entity goes back into the pool
/// and the release is counted. The caller deactivates the entity.
pub fn return_to_pool(pool: &mut EnemyPool, stats: &mut EnemyPoolStats, entity: Entity)
    requires
        old(stats).total_releases < u64::MAX,
    ensures
        final(pool)@ == old(pool)@.push(entity),
        final(stats).total_releases == old(stats).total_releases + 1,
        final(stats).failed_spawns == old(stats).failed_spawns,
{
    pool.release(entity);
    stats.total_releases = stats.total_releases + 1;
}

/// Releases every entity of `entities`, in order, as `return_to_pool` does
/// for one: the pool side of culling off-screen or dead enemies.
pub fn return_all_to_pool(pool: &mut EnemyPool, stats: &mut EnemyPoolStats, entities: &Vec<Entity>)
    requires
        old(stats).total_releases + entities@.len() <= u64::MAX,
    ensures
        final(pool)@ == old(pool)@ + entities@,
        final(stats).total_releases == old(stats).total_releases + entities@.len(),
        final(stats).failed_spawns == old(stats).failed_spawns,
{
    let n: usize = entities.len();
    for i in 0..n
        invariant
            n == entities@.len(),
            pool@ == old(pool)@ + entities@.take(i as int),
            stats.total_releases == old(stats).total_releases + i,
            stats.failed_spawns == old(stats).failed_spawns,
            old(stats).total_releases + n <= u64::MAX,
    {
        return_to_pool(pool, stats, entities[i]);
        assert(entities@.take(i + 1) == entities@.take(i as int).push(entities@[i as int]));
    }
    assert(entities@.take(n as int) == entities@);
}

/// The results of `n` successive `acquire` calls on a pool whose contents
/// are `s`.
pub open spec fn acquisitions(s: Seq<Entity>, n: nat) -> Seq<Option<Entity>>
    decreases n,
{
    if n == 0 {
        Seq::empty()
    } else {
        let (r, rest) = acquire_result(s);
        seq![r] + acquisitions(rest, (n - 1) as nat)
    }
}

/// Releasing an entity and then acquiring one hands back that entity and
/// leaves the pool as it was before the release.
pub proof fn lemma_release_then_acquire(s: Seq<Entity>, e: Entity)
    ensures
        acquire_result(s.push(e)) == (Some(e), s),
{
    assert(s.push(e).drop_last() =~= s);
}

/// Acquiring an entity and releasing it again leaves the pool as it was.
pub proof fn lemma_acquire_then_release(s: Seq<Entity>)
    requires
        s.len() > 0,
    ensures
        acquire_result(s).0 matches Some(e) && acquire_result(s).1.push(e) == s,
{
    assert(s.drop_last().push(s.last()) =~= s);
}

/// Acquiring from a pool in which no entity occurs twice hands out an entity
/// that is no longer in the pool, and no entity occurs twice in what is left.
pub proof fn lemma_acquire_keeps_distinct(s: Seq<Entity>)
    requires
        s.no_duplicates(),
    ensures
        acquire_result(s).1.no_duplicates(),
        acquire_result(s).0 matches Some(e) ==> !acquire_result(s).1.contains(e) && s.contains(e),
{
    if s.len() > 0 {
        let rest = s.drop_last();
        assert forall|i: int, j: int| 0 <= i < rest.len() && 0 <= j < rest.len() && i != j
            implies rest[i] != rest[j] by {
            assert(rest[i] == s[i] && rest[j] == s[j]);
        }
        if rest.contains(s.last()) {
            let k = choose|k: int| 0 <= k < rest.len() && rest[k] == s.last();
            assert(s[k] == s[s.len() - 1]);
        }
        assert(s[s.len() - 1] == s.last());
    }
}

/// `n` successive acquisitions from a pool of `s` hand out the entities of
/// `s` from the last one backwards, and `None` once the pool is exhausted.
pub proof fn lemma_acquisitions_order(s: Seq<Entity>, n: nat)
    ensures
        acquisitions(s, n).len() == n,
        forall|i: int|
            0 <= i < n ==> #[trigger] acquisitions(s, n)[i] == (if i < s.len() {
                Some(s[s.len() - 1 - i])
            } else {
                None::<Entity>
            }),
    decreases n,
{
    if n > 0 {
        let (r, rest) = acquire_result(s);
        lemma_acquisitions_order(rest, (n - 1) as nat);
        let tail = acquisitions(rest, (n - 1) as nat);
        assert(acquisitions(s, n) == seq![r] + tail);
        assert forall|i: int| 0 <= i < n implies #[trigger] acquisitions(s, n)[i] == (if i < s.len() {
            Some(s[s.len() - 1 - i])
        } else {
            None::<Entity>
        }) by {
            if i > 0 {
                assert(acquisitions(s, n)[i] == tail[i - 1]);
                if i < s.len() {
                    assert(rest[rest.len() - 1 - (i - 1)] == s[s.len() - 1 - i]);
                }
            }
        }
    }
}

/// Successive acquisitions from a pool in which no entity occurs twice never
/// hand out the same entity twice.
pub proof fn lemma_acquisitions_distinct(s: Seq<Entity>, n: nat, i: int, j: int)
    requires
        s.no_duplicates(),
        0 <= i < j < n,
        acquisitions(s, n)[i] is Some,
    ensures
        acquisitions(s, n)[i] != acquisitions(s, n)[j],
{
    lemma_acquisitions_order(s, n);
}

} // verus!
