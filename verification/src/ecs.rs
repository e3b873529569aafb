//! Entity/component table and resource registry.
//!
//! The world stores one column of optional component values per component
//! kind and at most one resource value per resource kind.  Kinds are named
//! by `u64` keys chosen by the caller, one key per concrete payload type.
//! Every column is kept exactly as long as the entity count, so slot `i` of
//! every column belongs to entity `i`.
//!
//! Access to a column or a resource slot goes through runtime-checked
//! guards: any number of shared guards or exactly one exclusive guard may be
//! outstanding over one item, never both kinds at once.  A conflicting
//! acquisition is reported as a fault rather than silently aliasing.

use vstd::prelude::*;

verus! {

/// Runtime access state of one column or resource slot.
#[derive(Clone, Copy, PartialEq, Eq, Structural, Debug)]
pub enum Lock {
    /// No guard is outstanding.
    Free,
    /// The payload holds the number of outstanding shared guards (>= 1).
    Shared(usize),
    /// One exclusive guard is outstanding.
    Exclusive,
}

/// Why a table or registry operation could not be carried out.
#[derive(Clone, Copy, PartialEq, Eq, Structural, Debug)]
pub enum AccessError {
    /// No column or resource of the requested kind exists.
    Absent,
    /// A guard over the item rules the requested access out.
    Conflict,
    /// The entity handle is not below the entity count.
    NoSuchEntity,
}

/// One component column: a slot per entity for one component kind.
struct Column<V> {
    key: u64,
    lock: Lock,
    slots: Vec<Option<V>>,
}

/// One resource slot: a single value of one resource kind.
struct ResourceSlot<V> {
    key: u64,
    lock: Lock,
    value: V,
}

/// Mathematical content of one column.
#[verifier::ext_equal]
pub struct ColumnModel<V> {
    pub lock: Lock,
    pub slots: Seq<Option<V>>,
}

/// Mathematical content of one resource slot.
#[verifier::ext_equal]
pub struct ResourceModel<V> {
    pub lock: Lock,
    pub value: V,
}

/// Mathematical content of a whole world.
#[verifier::ext_equal]
pub struct WorldModel<V> {
    pub entity_count: nat,
    pub columns: Map<u64, ColumnModel<V>>,
    pub resources: Map<u64, ResourceModel<V>>,
}

impl<V> Column<V> {
    spec fn view(self) -> ColumnModel<V> {
        ColumnModel { lock: self.lock, slots: self.slots@ }
    }
}

impl<V> ResourceSlot<V> {
    spec fn view(self) -> ResourceModel<V> {
        ResourceModel { lock: self.lock, value: self.value }
    }
}

/// A shared count is at least one; other states carry no number.
pub open spec fn lock_ok(lock: Lock) -> bool {
    lock matches Lock::Shared(n) ==> n >= 1
}

/// Every column is exactly as long as the entity count and every lock state
/// is well formed.  This is the column growth invariant: after any sequence
/// of operations, slot `i` exists in every column exactly when entity `i`
/// exists.
pub open spec fn model_wf<V>(m: WorldModel<V>) -> bool {
    &&& forall|k: u64| #[trigger] m.columns.dom().contains(k)
        ==> m.columns[k].slots.len() == m.entity_count && lock_ok(m.columns[k].lock)
    &&& forall|k: u64| #[trigger] m.resources.dom().contains(k) ==> lock_ok(m.resources[k].lock)
}

// ---------------------------------------------------------------------------
// From the stored vectors to the key-indexed model maps.
// ---------------------------------------------------------------------------

spec fn has_col_key<V>(s: Seq<Column<V>>, key: u64) -> bool {
    exists|i: int| 0 <= i < s.len() && s[i].key == key
}

spec fn col_index_of<V>(s: Seq<Column<V>>, key: u64) -> int {
    choose|i: int| 0 <= i < s.len() && s[i].key == key
}

spec fn cols_model<V>(s: Seq<Column<V>>) -> Map<u64, ColumnModel<V>> {
    Map::new(|k: u64| has_col_key(s, k), |k: u64| s[col_index_of(s, k)]@)
}

spec fn distinct_col_keys<V>(s: Seq<Column<V>>) -> bool {
    forall|i: int, j: int| 0 <= i < j < s.len() ==> s[i].key != s[j].key
}

spec fn has_res_key<V>(s: Seq<ResourceSlot<V>>, key: u64) -> bool {
    exists|i: int| 0 <= i < s.len() && s[i].key == key
}

spec fn res_index_of<V>(s: Seq<ResourceSlot<V>>, key: u64) -> int {
    choose|i: int| 0 <= i < s.len() && s[i].key == key
}

spec fn res_model<V>(s: Seq<ResourceSlot<V>>) -> Map<u64, ResourceModel<V>> {
    Map::new(|k: u64| has_res_key(s, k), |k: u64| s[res_index_of(s, k)]@)
}

spec fn distinct_res_keys<V>(s: Seq<ResourceSlot<V>>) -> bool {
    forall|i: int, j: int| 0 <= i < j < s.len() ==> s[i].key != s[j].key
}

proof fn lemma_col_index_of<V>(s: Seq<Column<V>>, key: u64)
    requires
        distinct_col_keys(s),
        has_col_key(s, key),
    ensures
        0 <= col_index_of(s, key) < s.len(),
        s[col_index_of(s, key)].key == key,
        forall|i: int| 0 <= i < s.len() && s[i].key == key ==> i == col_index_of(s, key),
{
    let w = choose|i: int| 0 <= i < s.len() && s[i].key == key;
    assert(0 <= w < s.len() && s[w].key == key);
}

proof fn lemma_res_index_of<V>(s: Seq<ResourceSlot<V>>, key: u64)
    requires
        distinct_res_keys(s),
        has_res_key(s, key),
    ensures
        0 <= res_index_of(s, key) < s.len(),
        s[res_index_of(s, key)].key == key,
        forall|i: int| 0 <= i < s.len() && s[i].key == key ==> i == res_index_of(s, key),
{
    let w = choose|i: int| 0 <= i < s.len() && s[i].key == key;
    assert(0 <= w < s.len() && s[w].key == key);
}

/// Two column vectors with pointwise equal keys and pointwise related
/// content have model maps related by `map_values`.
proof fn lemma_cols_model_map<V>(
    s1: Seq<Column<V>>,
    s2: Seq<Column<V>>,
    f: spec_fn(ColumnModel<V>) -> ColumnModel<V>,
)
    requires
        distinct_col_keys(s1),
        s1.len() == s2.len(),
        forall|i: int| 0 <= i < s1.len()
            ==> #[trigger] s2[i].key == s1[i].key && s2[i]@ == f(s1[i]@),
    ensures
        cols_model(s2) == cols_model(s1).map_values(f),
{
    assert forall|k: u64| has_col_key(s2, k) implies has_col_key(s1, k) by {
        let i = choose|i: int| 0 <= i < s2.len() && s2[i].key == k;
        assert(s1[i].key == k);
    }
    assert forall|k: u64| has_col_key(s1, k) implies has_col_key(s2, k) by {
        let i = choose|i: int| 0 <= i < s1.len() && s1[i].key == k;
        assert(s2[i].key == k);
    }
    assert(distinct_col_keys(s2));
    assert forall|k: u64| has_col_key(s1, k)
        implies cols_model(s2)[k] == cols_model(s1).map_values(f)[k] by {
        lemma_col_index_of(s1, k);
        lemma_col_index_of(s2, k);
        let i = col_index_of(s1, k);
        assert(s2[i].key == k);
        assert(col_index_of(s2, k) == i);
    }
    assert(cols_model(s2) =~= cols_model(s1).map_values(f));
}

/// Replacing one column by another with the same key updates the model map
/// at that key alone.
proof fn lemma_cols_model_update<V>(s1: Seq<Column<V>>, s2: Seq<Column<V>>, i: int)
    requires
        distinct_col_keys(s1),
        s1.len() == s2.len(),
        0 <= i < s1.len(),
        s2[i].key == s1[i].key,
        forall|j: int| 0 <= j < s1.len() && j != i ==> s2[j] == s1[j],
    ensures
        distinct_col_keys(s2),
        cols_model(s2) == cols_model(s1).insert(s1[i].key, s2[i]@),
{
    assert forall|k: u64| has_col_key(s2, k) implies has_col_key(s1, k) by {
        let j = choose|j: int| 0 <= j < s2.len() && s2[j].key == k;
        assert(s1[j].key == k);
    }
    assert forall|k: u64| has_col_key(s1, k) implies has_col_key(s2, k) by {
        let j = choose|j: int| 0 <= j < s1.len() && s1[j].key == k;
        assert(s2[j].key == k);
    }
    assert(distinct_col_keys(s2));
    assert forall|k: u64| has_col_key(s2, k)
        implies cols_model(s2)[k] == cols_model(s1).insert(s1[i].key, s2[i]@)[k] by {
        lemma_col_index_of(s1, k);
        lemma_col_index_of(s2, k);
        let j = col_index_of(s1, k);
        assert(s2[j].key == k);
        assert(col_index_of(s2, k) == j);
        if k != s1[i].key {
            assert(j != i);
        }
    }
    assert(cols_model(s2) =~= cols_model(s1).insert(s1[i].key, s2[i]@));
}

/// Appending a column under a fresh key inserts it into the model map.
proof fn lemma_cols_model_push<V>(s: Seq<Column<V>>, c: Column<V>)
    requires
        distinct_col_keys(s),
        !has_col_key(s, c.key),
    ensures
        distinct_col_keys(s.push(c)),
        cols_model(s.push(c)) == cols_model(s).insert(c.key, c@),
{
    let s2 = s.push(c);
    assert forall|i: int, j: int| 0 <= i < j < s2.len() implies s2[i].key != s2[j].key by {
        if j == s.len() {
            assert(s2[i] == s[i]);
            assert(s2[j] == c);
        }
    }
    assert forall|k: u64| has_col_key(s2, k) implies has_col_key(s, k) || k == c.key by {
        let i = choose|i: int| 0 <= i < s2.len() && s2[i].key == k;
        if i < s.len() {
            assert(s[i].key == k);
        }
    }
    assert forall|k: u64| has_col_key(s, k) implies has_col_key(s2, k) by {
        let i = choose|i: int| 0 <= i < s.len() && s[i].key == k;
        assert(s2[i].key == k);
    }
    assert(s2[s.len() as int].key == c.key);
    assert(has_col_key(s2, c.key));
    assert forall|k: u64| has_col_key(s2, k)
        implies cols_model(s2)[k] == cols_model(s).insert(c.key, c@)[k] by {
        lemma_col_index_of(s2, k);
        let j = col_index_of(s2, k);
        if k == c.key {
            assert(j == s.len());
            assert(s2[j] == c);
        } else {
            assert(j < s.len());
            assert(has_col_key(s, k));
            lemma_col_index_of(s, k);
            assert(col_index_of(s, k) == j);
            assert(s2[j] == s[j]);
        }
    }
    assert(cols_model(s2) =~= cols_model(s).insert(c.key, c@));
}

/// Replacing one resource slot by another with the same key updates the
/// model map at that key alone.
proof fn lemma_res_model_update<V>(s1: Seq<ResourceSlot<V>>, s2: Seq<ResourceSlot<V>>, i: int)
    requires
        distinct_res_keys(s1),
        s1.len() == s2.len(),
        0 <= i < s1.len(),
        s2[i].key == s1[i].key,
        forall|j: int| 0 <= j < s1.len() && j != i ==> s2[j] == s1[j],
    ensures
        distinct_res_keys(s2),
        res_model(s2) == res_model(s1).insert(s1[i].key, s2[i]@),
{
    assert forall|k: u64| has_res_key(s2, k) implies has_res_key(s1, k) by {
        let j = choose|j: int| 0 <= j < s2.len() && s2[j].key == k;
        assert(s1[j].key == k);
    }
    assert forall|k: u64| has_res_key(s1, k) implies has_res_key(s2, k) by {
        let j = choose|j: int| 0 <= j < s1.len() && s1[j].key == k;
        assert(s2[j].key == k);
    }
    assert(distinct_res_keys(s2));
    assert forall|k: u64| has_res_key(s2, k)
        implies res_model(s2)[k] == res_model(s1).insert(s1[i].key, s2[i]@)[k] by {
        lemma_res_index_of(s1, k);
        lemma_res_index_of(s2, k);
        let j = res_index_of(s1, k);
        assert(s2[j].key == k);
        assert(res_index_of(s2, k) == j);
        if k != s1[i].key {
            assert(j != i);
        }
    }
    assert(res_model(s2) =~= res_model(s1).insert(s1[i].key, s2[i]@));
}

/// Appending a resource slot under a fresh key inserts it into the model map.
proof fn lemma_res_model_push<V>(s: Seq<ResourceSlot<V>>, c: ResourceSlot<V>)
    requires
        distinct_res_keys(s),
        !has_res_key(s, c.key),
    ensures
        distinct_res_keys(s.push(c)),
        res_model(s.push(c)) == res_model(s).insert(c.key, c@),
{
    let s2 = s.push(c);
    assert forall|i: int, j: int| 0 <= i < j < s2.len() implies s2[i].key != s2[j].key by {
        if j == s.len() {
            assert(s2[i] == s[i]);
            assert(s2[j] == c);
        }
    }
    assert forall|k: u64| has_res_key(s2, k) implies has_res_key(s, k) || k == c.key by {
        let i = choose|i: int| 0 <= i < s2.len() && s2[i].key == k;
        if i < s.len() {
            assert(s[i].key == k);
        }
    }
    assert forall|k: u64| has_res_key(s, k) implies has_res_key(s2, k) by {
        let i = choose|i: int| 0 <= i < s.len() && s[i].key == k;
        assert(s2[i].key == k);
    }
    assert(s2[s.len() as int].key == c.key);
    assert(has_res_key(s2, c.key));
    assert forall|k: u64| has_res_key(s2, k)
        implies res_model(s2)[k] == res_model(s).insert(c.key, c@)[k] by {
        lemma_res_index_of(s2, k);
        let j = res_index_of(s2, k);
        if k == c.key {
            assert(j == s.len());
            assert(s2[j] == c);
        } else {
            assert(j < s.len());
            assert(has_res_key(s, k));
            lemma_res_index_of(s, k);
            assert(res_index_of(s, k) == j);
            assert(s2[j] == s[j]);
        }
    }
    assert(res_model(s2) =~= res_model(s).insert(c.key, c@));
}

/// Removing one resource slot removes its key from the model map.
proof fn lemma_res_model_remove<V>(s: Seq<ResourceSlot<V>>, i: int)
    requires
        distinct_res_keys(s),
        0 <= i < s.len(),
    ensures
        distinct_res_keys(s.remove(i)),
        res_model(s.remove(i)) == res_model(s).remove(s[i].key),
{
    let s2 = s.remove(i);
    assert forall|p: int, q: int| 0 <= p < q < s2.len() implies s2[p].key != s2[q].key by {
        let p1: int = if p < i { p } else { p + 1 };
        let q1: int = if q < i { q } else { q + 1 };
        assert(s2[p] == s[p1]);
        assert(s2[q] == s[q1]);
    }
    assert forall|k: u64| has_res_key(s2, k) implies has_res_key(s, k) && k != s[i].key by {
        let j = choose|j: int| 0 <= j < s2.len() && s2[j].key == k;
        let j1: int = if j < i { j } else { j + 1 };
        assert(s2[j] == s[j1]);
        assert(s[j1].key == k);
    }
    assert forall|k: u64| has_res_key(s, k) && k != s[i].key implies has_res_key(s2, k) by {
        let j = choose|j: int| 0 <= j < s.len() && s[j].key == k;
        if j < i {
            assert(s2[j] == s[j]);
        } else {
            assert(j > i);
            assert(s2[j - 1] == s[j]);
        }
    }
    assert forall|k: u64| has_res_key(s2, k)
        implies res_model(s2)[k] == res_model(s).remove(s[i].key)[k] by {
        lemma_res_index_of(s2, k);
        lemma_res_index_of(s, k);
        let j = res_index_of(s2, k);
        let j1: int = if j < i { j } else { j + 1 };
        assert(s2[j] == s[j1]);
        assert(res_index_of(s, k) == j1);
    }
    assert(res_model(s2) =~= res_model(s).remove(s[i].key));
}

// ---------------------------------------------------------------------------
// Model-level transitions.  Each verified operation promises that the new
// model is exactly the transition applied to the old one, and the laws about
// operation sequences are proved over these functions alone.
// ---------------------------------------------------------------------------

/// A column of `count` absent slots.
pub open spec fn blank_column<V>(count: nat) -> Seq<Option<V>> {
    Seq::new(count, |i: int| None)
}

/// Creating an entity appends one absent slot to every column.
pub open spec fn create_entity_t<V>(m: WorldModel<V>) -> WorldModel<V> {
    WorldModel {
        entity_count: m.entity_count + 1,
        columns: m.columns.map_values(
            |c: ColumnModel<V>| ColumnModel { lock: c.lock, slots: c.slots.push(None) },
        ),
        resources: m.resources,
    }
}

/// Attaching a component fills one slot of the column of its kind, creating
/// the column back-filled with absent slots if it did not exist yet.
pub open spec fn attach_t<V>(m: WorldModel<V>, entity: int, key: u64, value: V) -> WorldModel<V> {
    let prior = if m.columns.dom().contains(key) {
        m.columns[key]
    } else {
        ColumnModel { lock: Lock::Free, slots: blank_column(m.entity_count) }
    };
    WorldModel {
        entity_count: m.entity_count,
        columns: m.columns.insert(
            key,
            ColumnModel { lock: prior.lock, slots: prior.slots.update(entity, Some(value)) },
        ),
        resources: m.resources,
    }
}

/// Whether one more shared guard may be taken over an item in this state.
pub open spec fn shared_acquire_allowed(lock: Lock) -> bool {
    match lock {
        Lock::Free => true,
        Lock::Shared(n) => n < usize::MAX,
        Lock::Exclusive => false,
    }
}

/// Lock state after taking one more shared guard.
pub open spec fn after_shared_acquire(lock: Lock) -> Lock {
    match lock {
        Lock::Free => Lock::Shared(1),
        Lock::Shared(n) => Lock::Shared((n + 1) as usize),
        Lock::Exclusive => Lock::Exclusive,
    }
}

/// Lock state after giving one guard back.
pub open spec fn after_release(lock: Lock) -> Lock {
    match lock {
        Lock::Free => Lock::Free,
        Lock::Shared(n) => if n <= 1 { Lock::Free } else { Lock::Shared((n - 1) as usize) },
        Lock::Exclusive => Lock::Free,
    }
}

/// An exclusive guard over this column may be taken: the column exists and
/// no guard of either kind is outstanding.
pub open spec fn col_exclusive_allowed<V>(m: WorldModel<V>, key: u64) -> bool {
    m.columns.dom().contains(key) && m.columns[key].lock == Lock::Free
}

/// A shared guard over this column may be taken: the column exists and no
/// exclusive guard is outstanding.
pub open spec fn col_shared_allowed<V>(m: WorldModel<V>, key: u64) -> bool {
    m.columns.dom().contains(key) && shared_acquire_allowed(m.columns[key].lock)
}

/// An exclusive guard over this resource slot may be taken.
pub open spec fn res_exclusive_allowed<V>(m: WorldModel<V>, key: u64) -> bool {
    m.resources.dom().contains(key) && m.resources[key].lock == Lock::Free
}

/// A shared guard over this resource slot may be taken.
pub open spec fn res_shared_allowed<V>(m: WorldModel<V>, key: u64) -> bool {
    m.resources.dom().contains(key) && shared_acquire_allowed(m.resources[key].lock)
}

/// The same world with the lock state of one column replaced.
pub open spec fn set_col_lock_t<V>(m: WorldModel<V>, key: u64, lock: Lock) -> WorldModel<V> {
    WorldModel {
        entity_count: m.entity_count,
        columns: m.columns.insert(key, ColumnModel { lock, slots: m.columns[key].slots }),
        resources: m.resources,
    }
}

/// The same world with the lock state of one resource slot replaced.
pub open spec fn set_res_lock_t<V>(m: WorldModel<V>, key: u64, lock: Lock) -> WorldModel<V> {
    WorldModel {
        entity_count: m.entity_count,
        columns: m.columns,
        resources: m.resources.insert(
            key,
            ResourceModel { lock, value: m.resources[key].value },
        ),
    }
}

/// The same world with one slot of one column overwritten.
pub open spec fn write_component_t<V>(m: WorldModel<V>, key: u64, entity: int, value: V)
    -> WorldModel<V> {
    WorldModel {
        entity_count: m.entity_count,
        columns: m.columns.insert(
            key,
            ColumnModel {
                lock: m.columns[key].lock,
                slots: m.columns[key].slots.update(entity, Some(value)),
            },
        ),
        resources: m.resources,
    }
}

/// The same world with a resource of this kind stored, free of guards.
pub open spec fn add_resource_t<V>(m: WorldModel<V>, key: u64, value: V) -> WorldModel<V> {
    WorldModel {
        entity_count: m.entity_count,
        columns: m.columns,
        resources: m.resources.insert(key, ResourceModel { lock: Lock::Free, value }),
    }
}

/// The same world with the resource of this kind gone.
pub open spec fn remove_resource_t<V>(m: WorldModel<V>, key: u64) -> WorldModel<V> {
    WorldModel {
        entity_count: m.entity_count,
        columns: m.columns,
        resources: m.resources.remove(key),
    }
}

/// The same world with the value of one resource overwritten.
pub open spec fn write_resource_t<V>(m: WorldModel<V>, key: u64, value: V) -> WorldModel<V> {
    WorldModel {
        entity_count: m.entity_count,
        columns: m.columns,
        resources: m.resources.insert(
            key,
            ResourceModel { lock: m.resources[key].lock, value },
        ),
    }
}

/// The value stored for a resource kind, if any.
pub open spec fn resource_value<V>(m: WorldModel<V>, key: u64) -> Option<V> {
    if m.resources.dom().contains(key) {
        Some(m.resources[key].value)
    } else {
        None
    }
}

/// The resource slot of this kind, if it exists, has no outstanding guard.
pub open spec fn resource_free_or_absent<V>(m: WorldModel<V>, key: u64) -> bool {
    m.resources.dom().contains(key) ==> m.resources[key].lock == Lock::Free
}

/// No guard is outstanding over any column.
pub open spec fn columns_all_free<V>(m: WorldModel<V>) -> bool {
    forall|k: u64| #[trigger] m.columns.dom().contains(k) ==> m.columns[k].lock == Lock::Free
}

/// The column of this kind, if it exists, has no outstanding guard.
pub open spec fn column_free_or_absent<V>(m: WorldModel<V>, key: u64) -> bool {
    m.columns.dom().contains(key) ==> m.columns[key].lock == Lock::Free
}

// ---------------------------------------------------------------------------
// Guards.
// ---------------------------------------------------------------------------

/// A token proving that access to one column was granted.  It cannot be
/// forged or duplicated; it is given back through `release_column`.
#[derive(Debug, PartialEq, Eq)]
pub struct ColumnGuard {
    key: u64,
    exclusive: bool,
}

/// A token proving that access to one resource slot was granted.  It is
/// given back through `release_resource`.
#[derive(Debug, PartialEq, Eq)]
pub struct ResourceGuard {
    key: u64,
    exclusive: bool,
}

impl ColumnGuard {
    /// The component kind this guard covers.
    pub closed spec fn kind(self) -> u64 {
        self.key
    }

    /// Whether this guard grants read-write access.
    pub closed spec fn is_exclusive(self) -> bool {
        self.exclusive
    }
}

impl ResourceGuard {
    /// The resource kind this guard covers.
    pub closed spec fn kind(self) -> u64 {
        self.key
    }

    /// Whether this guard grants read-write access.
    pub closed spec fn is_exclusive(self) -> bool {
        self.exclusive
    }
}

/// The world's lock state accounts for this column guard.
pub open spec fn col_guard_active<V>(m: WorldModel<V>, g: ColumnGuard) -> bool {
    &&& m.columns.dom().contains(g.kind())
    &&& if g.is_exclusive() {
        m.columns[g.kind()].lock == Lock::Exclusive
    } else {
        m.columns[g.kind()].lock is Shared
    }
}

/// The world's lock state accounts for this resource guard.
pub open spec fn res_guard_active<V>(m: WorldModel<V>, g: ResourceGuard) -> bool {
    &&& m.resources.dom().contains(g.kind())
    &&& if g.is_exclusive() {
        m.resources[g.kind()].lock == Lock::Exclusive
    } else {
        m.resources[g.kind()].lock is Shared
    }
}

// ---------------------------------------------------------------------------
// The world itself.
// ---------------------------------------------------------------------------

/// The entity/component table and the resource registry.
pub struct World<V> {
    entity_count: usize,
    columns: Vec<Column<V>>,
    resources: Vec<ResourceSlot<V>>,
}

impl<V> View for World<V> {
    type V = WorldModel<V>;

    closed spec fn view(&self) -> WorldModel<V> {
        WorldModel {
            entity_count: self.entity_count as nat,
            columns: cols_model(self.columns@),
            resources: res_model(self.resources@),
        }
    }
}

impl<V> World<V> {
    /// Representation invariant: kind keys are unique, every column is as
    /// long as the entity count, and lock counts are well formed.
    pub closed spec fn inv(self) -> bool {
        &&& distinct_col_keys(self.columns@)
        &&& distinct_res_keys(self.resources@)
        &&& forall|i: int| 0 <= i < self.columns@.len()
            ==> (#[trigger] self.columns@[i]).slots.len() == self.entity_count
                && lock_ok(self.columns@[i].lock)
        &&& forall|i: int| 0 <= i < self.resources@.len()
            ==> lock_ok((#[trigger] self.resources@[i]).lock)
    }

    /// The representation invariant carries over to the model.
    pub proof fn lemma_inv_model_wf(self)
        requires
            self.inv(),
        ensures
            model_wf(self@),
    {
        assert forall|k: u64| #[trigger] self@.columns.dom().contains(k)
            implies self@.columns[k].slots.len() == self@.entity_count
                && lock_ok(self@.columns[k].lock) by {
            lemma_col_index_of(self.columns@, k);
        }
        assert forall|k: u64| #[trigger] self@.resources.dom().contains(k)
            implies lock_ok(self@.resources[k].lock) by {
            lemma_res_index_of(self.resources@, k);
        }
    }

    /// A world with no entities, no columns and no resources.
    pub fn new() -> (world: World<V>)
        ensures
            world.inv(),
            world@.entity_count == 0,
            world@.columns == Map::<u64, ColumnModel<V>>::empty(),
            world@.resources == Map::<u64, ResourceModel<V>>::empty(),
    {
        let world = World { entity_count: 0, columns: Vec::new(), resources: Vec::new() };
        proof {
            assert(world@.columns =~= Map::<u64, ColumnModel<V>>::empty());
            assert(world@.resources =~= Map::<u64, ResourceModel<V>>::empty());
        }
        world
    }

    /// The model holds exactly the stored column at a stored index.
    proof fn lemma_col_at(self, i: int)
        requires
            distinct_col_keys(self.columns@),
            0 <= i < self.columns@.len(),
        ensures
            self@.columns.dom().contains(self.columns@[i].key),
            self@.columns[self.columns@[i].key] == self.columns@[i]@,
    {
        assert(has_col_key(self.columns@, self.columns@[i].key));
        lemma_col_index_of(self.columns@, self.columns@[i].key);
    }

    /// The model holds exactly the stored resource slot at a stored index.
    proof fn lemma_res_at(self, i: int)
        requires
            distinct_res_keys(self.resources@),
            0 <= i < self.resources@.len(),
        ensures
            self@.resources.dom().contains(self.resources@[i].key),
            self@.resources[self.resources@[i].key] == self.resources@[i]@,
    {
        assert(has_res_key(self.resources@, self.resources@[i].key));
        lemma_res_index_of(self.resources@, self.resources@[i].key);
    }

    /// Index of the column of this kind, if one exists.
    fn find_column(&self, key: u64) -> (result: Option<usize>)
        requires
            self.inv(),
        ensures
            match result {
                Some(i) => i < self.columns@.len() && self.columns@[i as int].key == key
                    && self@.columns.dom().contains(key)
                    && self@.columns[key] == self.columns@[i as int]@,
                None => !self@.columns.dom().contains(key),
            },
    {
        let n = self.columns.len();
        for i in 0..n
            invariant
                n == self.columns@.len(),
                self.inv(),
                forall|j: int| 0 <= j < i ==> self.columns@[j].key != key,
        {
            if self.columns[i].key == key {
                proof {
                    self.lemma_col_at(i as int);
                }
                return Some(i);
            }
        }
        proof {
            if has_col_key(self.columns@, key) {
                let j = choose|j: int| 0 <= j < self.columns@.len()
                    && self.columns@[j].key == key;
                assert(false);
            }
            assert(!self@.columns.dom().contains(key));
        }
        None
    }

    /// Index of the resource slot of this kind, if one exists.
    fn find_resource(&self, key: u64) -> (result: Option<usize>)
        requires
            self.inv(),
        ensures
            match result {
                Some(i) => i < self.resources@.len() && self.resources@[i as int].key == key
                    && self@.resources.dom().contains(key)
                    && self@.resources[key] == self.resources@[i as int]@,
                None => !self@.resources.dom().contains(key),
            },
    {
        let n = self.resources.len();
        for i in 0..n
            invariant
                n == self.resources@.len(),
                self.inv(),
                forall|j: int| 0 <= j < i ==> self.resources@[j].key != key,
        {
            if self.resources[i].key == key {
                proof {
                    self.lemma_res_at(i as int);
                }
                return Some(i);
            }
        }
        proof {
            if has_res_key(self.resources@, key) {
                let j = choose|j: int| 0 <= j < self.resources@.len()
                    && self.resources@[j].key == key;
                assert(false);
            }
            assert(!self@.resources.dom().contains(key));
        }
        None
    }

    /// Create one entity: append an absent slot to every existing column and
    /// hand out the previous entity count as the new handle.  Faults if any
    /// column guard is outstanding, since the guarded column would change
    /// length under its guard.
    pub fn new_entity(&mut self) -> (result: Result<usize, AccessError>)
        requires
            old(self).inv(),
            old(self)@.entity_count < usize::MAX,
        ensures
            final(self).inv(),
            result is Ok <==> columns_all_free(old(self)@),
            result matches Ok(entity) ==> entity == old(self)@.entity_count
                && final(self)@ == create_entity_t(old(self)@),
            result is Err ==> result == Err::<usize, AccessError>(AccessError::Conflict)
                && *final(self) == *old(self),
    {
        let n = self.columns.len();
        for i in 0..n
            invariant
                n == self.columns@.len(),
                self.inv(),
                forall|j: int| 0 <= j < i ==> (#[trigger] self.columns@[j]).lock == Lock::Free,
        {
            match self.columns[i].lock {
                Lock::Free => {},
                _ => {
                    proof {
                        self.lemma_col_at(i as int);
                    }
                    return Err(AccessError::Conflict);
                },
            }
        }
        proof {
            assert forall|k: u64| #[trigger] self@.columns.dom().contains(k)
                implies self@.columns[k].lock == Lock::Free by {
                lemma_col_index_of(self.columns@, k);
            }
        }
        let ghost before = *self;
        let entity = self.entity_count;
        for i in 0..n
            invariant
                n == self.columns@.len(),
                n == before.columns@.len(),
                self.entity_count == before.entity_count,
                self.resources == before.resources,
                forall|j: int| 0 <= j < i ==> (#[trigger] self.columns@[j]).key
                    == before.columns@[j].key
                    && self.columns@[j].lock == before.columns@[j].lock
                    && self.columns@[j].slots@ == before.columns@[j].slots@.push(None),
                forall|j: int| i <= j < n ==> self.columns@[j] == before.columns@[j],
        {
            self.columns[i].slots.push(None);
        }
        self.entity_count = self.entity_count + 1;
        proof {
            lemma_cols_model_map(
                before.columns@,
                self.columns@,
                |c: ColumnModel<V>| ColumnModel { lock: c.lock, slots: c.slots.push(None) },
            );
            assert(self@.columns =~= create_entity_t(before@).columns);
            assert(self@ == create_entity_t(before@));
            assert forall|i: int| 0 <= i < self.columns@.len()
                implies (#[trigger] self.columns@[i]).slots.len() == self.entity_count
                    && lock_ok(self.columns@[i].lock) by {
                assert(self.columns@[i].key == before.columns@[i].key);
            }
            assert(self.inv());
        }
        Ok(entity)
    }

    /// Attach a component of the given kind to an entity, overwriting any
    /// prior value in that slot.  The column is created and back-filled with
    /// absent slots on first use of the kind.  Faults if the entity does not
    /// exist or a guard over the column is outstanding.
    pub fn add_component_to_entity(&mut self, entity: usize, key: u64, component: V)
        -> (result: Result<(), AccessError>)
        requires
            old(self).inv(),
        ensures
            final(self).inv(),
            result is Ok <==> entity < old(self)@.entity_count
                && column_free_or_absent(old(self)@, key),
            result is Ok ==> final(self)@ == attach_t(old(self)@, entity as int, key, component),
            result matches Err(e) ==> *final(self) == *old(self)
                && (e == AccessError::NoSuchEntity <==> entity >= old(self)@.entity_count)
                && (e == AccessError::Conflict <==> entity < old(self)@.entity_count
                    && !column_free_or_absent(old(self)@, key)),
    {
        if entity >= self.entity_count {
            return Err(AccessError::NoSuchEntity);
        }
        let ghost before = *self;
        match self.find_column(key) {
            Some(i) => {
                match self.columns[i].lock {
                    Lock::Free => {},
                    _ => {
                        return Err(AccessError::Conflict);
                    },
                }
                self.columns[i].slots[entity] = Some(component);
                proof {
                    lemma_cols_model_update(before.columns@, self.columns@, i as int);
                    assert(self@.columns =~= attach_t(
                        before@, entity as int, key, component,
                    ).columns);
                    assert(self@ == attach_t(before@, entity as int, key, component));
                }
                Ok(())
            },
            None => {
                let mut slots: Vec<Option<V>> = Vec::new();
                let count = self.entity_count;
                for j in 0..count
                    invariant
                        slots@.len() == j,
                        forall|p: int| 0 <= p < j ==> slots@[p] is None,
                {
                    slots.push(None);
                }
                slots[entity] = Some(component);
                proof {
                    assert(slots@ =~= blank_column::<V>(before@.entity_count).update(
                        entity as int, Some(component),
                    ));
                }
                self.columns.push(Column { key, lock: Lock::Free, slots });
                proof {
                    lemma_cols_model_push(
                        before.columns@,
                        self.columns@[self.columns@.len() - 1],
                    );
                    assert(self.columns@ == before.columns@.push(
                        self.columns@[self.columns@.len() - 1],
                    ));
                    assert(self@.columns =~= attach_t(
                        before@, entity as int, key, component,
                    ).columns);
                    assert(self@ == attach_t(before@, entity as int, key, component));
                }
                Ok(())
            },
        }
    }

    /// Take the one exclusive (read-write) guard over the column of this
    /// kind.  Faults if any guard over it is outstanding; reports absence if
    /// no component of this kind was ever attached.
    pub fn borrow_components_mut(&mut self, key: u64) -> (result: Result<ColumnGuard, AccessError>)
        requires
            old(self).inv(),
        ensures
            final(self).inv(),
            result is Ok <==> col_exclusive_allowed(old(self)@, key),
            result matches Ok(g) ==> g.kind() == key && g.is_exclusive()
                && final(self)@ == set_col_lock_t(old(self)@, key, Lock::Exclusive)
                && col_guard_active(final(self)@, g),
            result matches Err(e) ==> *final(self) == *old(self)
                && (e == AccessError::Absent <==> !old(self)@.columns.dom().contains(key))
                && (e == AccessError::Conflict <==> old(self)@.columns.dom().contains(key)
                    && old(self)@.columns[key].lock != Lock::Free),
    {
        let ghost before = *self;
        match self.find_column(key) {
            Some(i) => {
                match self.columns[i].lock {
                    Lock::Free => {},
                    _ => {
                        return Err(AccessError::Conflict);
                    },
                }
                self.columns[i].lock = Lock::Exclusive;
                proof {
                    lemma_cols_model_update(before.columns@, self.columns@, i as int);
                    assert(self@.columns =~= set_col_lock_t(before@, key, Lock::Exclusive).columns);
                }
                Ok(ColumnGuard { key, exclusive: true })
            },
            None => Err(AccessError::Absent),
        }
    }

    /// Take one shared (read-only) guard over the column of this kind.  Any
    /// number of shared guards may be outstanding at once; faults if an
    /// exclusive guard is outstanding.
    pub fn borrow_components(&mut self, key: u64) -> (result: Result<ColumnGuard, AccessError>)
        requires
            old(self).inv(),
        ensures
            final(self).inv(),
            result is Ok <==> col_shared_allowed(old(self)@, key),
            result matches Ok(g) ==> g.kind() == key && !g.is_exclusive()
                && final(self)@ == set_col_lock_t(
                    old(self)@,
                    key,
                    after_shared_acquire(old(self)@.columns[key].lock),
                )
                && col_guard_active(final(self)@, g),
            result matches Err(e) ==> *final(self) == *old(self)
                && (e == AccessError::Absent <==> !old(self)@.columns.dom().contains(key))
                && (e == AccessError::Conflict <==> old(self)@.columns.dom().contains(key)
                    && !shared_acquire_allowed(old(self)@.columns[key].lock)),
    {
        let ghost before = *self;
        match self.find_column(key) {
            Some(i) => {
                let new_lock = match self.columns[i].lock {
                    Lock::Free => Lock::Shared(1),
                    Lock::Shared(n) => {
                        if n == usize::MAX {
                            return Err(AccessError::Conflict);
                        }
                        Lock::Shared(n + 1)
                    },
                    Lock::Exclusive => {
                        return Err(AccessError::Conflict);
                    },
                };
                self.columns[i].lock = new_lock;
                proof {
                    lemma_cols_model_update(before.columns@, self.columns@, i as int);
                    assert(self@.columns =~= set_col_lock_t(
                        before@,
                        key,
                        after_shared_acquire(before@.columns[key].lock),
                    ).columns);
                }
                Ok(ColumnGuard { key, exclusive: false })
            },
            None => Err(AccessError::Absent),
        }
    }

    /// Give a column guard back.  The last shared guard, or the exclusive
    /// guard, leaves the column free again.
    pub fn release_column(&mut self, guard: ColumnGuard)
        requires
            old(self).inv(),
            col_guard_active(old(self)@, guard),
        ensures
            final(self).inv(),
            final(self)@ == set_col_lock_t(
                old(self)@,
                guard.kind(),
                after_release(old(self)@.columns[guard.kind()].lock),
            ),
    {
        let ghost before = *self;
        let i = match self.find_column(guard.key) {
            Some(i) => i,
            None => {
                proof {
                    assert(false);
                }
                0
            },
        };
        let new_lock = match self.columns[i].lock {
            Lock::Free => Lock::Free,
            Lock::Shared(n) => {
                if n <= 1 {
                    Lock::Free
                } else {
                    Lock::Shared(n - 1)
                }
            },
            Lock::Exclusive => Lock::Free,
        };
        self.columns[i].lock = new_lock;
        proof {
            lemma_cols_model_update(before.columns@, self.columns@, i as int);
            assert(self@.columns =~= set_col_lock_t(
                before@,
                guard.kind(),
                after_release(before@.columns[guard.kind()].lock),
            ).columns);
        }
    }

    /// Length of the guarded column, which always equals the entity count.
    pub fn column_len(&self, guard: &ColumnGuard) -> (len: usize)
        requires
            self.inv(),
            col_guard_active(self@, *guard),
        ensures
            len == self@.columns[guard.kind()].slots.len(),
            len == self@.entity_count,
    {
        let i = match self.find_column(guard.key) {
            Some(i) => i,
            None => {
                proof {
                    assert(false);
                }
                0
            },
        };
        self.columns[i].slots.len()
    }

    /// Read the slot of one entity through a guard of either kind.
    pub fn read_component<'a>(&'a self, guard: &ColumnGuard, entity: usize)
        -> (slot: &'a Option<V>)
        requires
            self.inv(),
            col_guard_active(self@, *guard),
            entity < self@.entity_count,
        ensures
            *slot == self@.columns[guard.kind()].slots[entity as int],
    {
        let i = match self.find_column(guard.key) {
            Some(i) => i,
            None => {
                proof {
                    assert(false);
                }
                0
            },
        };
        &self.columns[i].slots[entity]
    }

    /// Overwrite the slot of one entity through an exclusive guard.
    pub fn write_component(&mut self, guard: &ColumnGuard, entity: usize, component: V)
        requires
            old(self).inv(),
            col_guard_active(old(self)@, *guard),
            guard.is_exclusive(),
            entity < old(self)@.entity_count,
        ensures
            final(self).inv(),
            final(self)@ == write_component_t(old(self)@, guard.kind(), entity as int, component),
    {
        let ghost before = *self;
        let i = match self.find_column(guard.key) {
            Some(i) => i,
            None => {
                proof {
                    assert(false);
                }
                0
            },
        };
        self.columns[i].slots[entity] = Some(component);
        proof {
            lemma_cols_model_update(before.columns@, self.columns@, i as int);
            assert(self@.columns =~= write_component_t(
                before@,
                guard.kind(),
                entity as int,
                component,
            ).columns);
        }
    }

    /// Store a resource of this kind, replacing and dropping any prior value
    /// of the same kind.  Faults if a guard over the slot is outstanding.
    pub fn add_resource(&mut self, key: u64, value: V) -> (result: Result<(), AccessError>)
        requires
            old(self).inv(),
        ensures
            final(self).inv(),
            result is Ok <==> resource_free_or_absent(old(self)@, key),
            result is Ok ==> final(self)@ == add_resource_t(old(self)@, key, value),
            result is Err ==> result == Err::<(), AccessError>(AccessError::Conflict)
                && *final(self) == *old(self),
    {
        let ghost before = *self;
        match self.find_resource(key) {
            Some(i) => {
                match self.resources[i].lock {
                    Lock::Free => {},
                    _ => {
                        return Err(AccessError::Conflict);
                    },
                }
                self.resources[i].value = value;
                proof {
                    lemma_res_model_update(before.resources@, self.resources@, i as int);
                    assert(self@.resources =~= add_resource_t(before@, key, value).resources);
                }
                Ok(())
            },
            None => {
                self.resources.push(ResourceSlot { key, lock: Lock::Free, value });
                proof {
                    lemma_res_model_push(
                        before.resources@,
                        self.resources@[self.resources@.len() - 1],
                    );
                    assert(self.resources@ == before.resources@.push(
                        self.resources@[self.resources@.len() - 1],
                    ));
                    assert(self@.resources =~= add_resource_t(before@, key, value).resources);
                }
                Ok(())
            },
        }
    }

    /// Take one shared (read-only) guard over the resource of this kind.
    /// Faults if an exclusive guard is outstanding; reports absence if no
    /// resource of this kind is stored.
    pub fn get_resource(&mut self, key: u64) -> (result: Result<ResourceGuard, AccessError>)
        requires
            old(self).inv(),
        ensures
            final(self).inv(),
            result is Ok <==> res_shared_allowed(old(self)@, key),
            result matches Ok(g) ==> g.kind() == key && !g.is_exclusive()
                && final(self)@ == set_res_lock_t(
                    old(self)@,
                    key,
                    after_shared_acquire(old(self)@.resources[key].lock),
                )
                && res_guard_active(final(self)@, g),
            result matches Err(e) ==> *final(self) == *old(self)
                && (e == AccessError::Absent <==> !old(self)@.resources.dom().contains(key))
                && (e == AccessError::Conflict <==> old(self)@.resources.dom().contains(key)
                    && !shared_acquire_allowed(old(self)@.resources[key].lock)),
    {
        let ghost before = *self;
        match self.find_resource(key) {
            Some(i) => {
                let new_lock = match self.resources[i].lock {
                    Lock::Free => Lock::Shared(1),
                    Lock::Shared(n) => {
                        if n == usize::MAX {
                            return Err(AccessError::Conflict);
                        }
                        Lock::Shared(n + 1)
                    },
                    Lock::Exclusive => {
                        return Err(AccessError::Conflict);
                    },
                };
                self.resources[i].lock = new_lock;
                proof {
                    lemma_res_model_update(before.resources@, self.resources@, i as int);
                    assert(self@.resources =~= set_res_lock_t(
                        before@,
                        key,
                        after_shared_acquire(before@.resources[key].lock),
                    ).resources);
                }
                Ok(ResourceGuard { key, exclusive: false })
            },
            None => Err(AccessError::Absent),
        }
    }

    /// Take the one exclusive (read-write) guard over the resource of this
    /// kind.  Faults if any guard over it is outstanding.
    pub fn get_resource_mut(&mut self, key: u64) -> (result: Result<ResourceGuard, AccessError>)
        requires
            old(self).inv(),
        ensures
            final(self).inv(),
            result is Ok <==> res_exclusive_allowed(old(self)@, key),
            result matches Ok(g) ==> g.kind() == key && g.is_exclusive()
                && final(self)@ == set_res_lock_t(old(self)@, key, Lock::Exclusive)
                && res_guard_active(final(self)@, g),
            result matches Err(e) ==> *final(self) == *old(self)
                && (e == AccessError::Absent <==> !old(self)@.resources.dom().contains(key))
                && (e == AccessError::Conflict <==> old(self)@.resources.dom().contains(key)
                    && old(self)@.resources[key].lock != Lock::Free),
    {
        let ghost before = *self;
        match self.find_resource(key) {
            Some(i) => {
                match self.resources[i].lock {
                    Lock::Free => {},
                    _ => {
                        return Err(AccessError::Conflict);
                    },
                }
                self.resources[i].lock = Lock::Exclusive;
                proof {
                    lemma_res_model_update(before.resources@, self.resources@, i as int);
                    assert(self@.resources =~= set_res_lock_t(
                        before@,
                        key,
                        Lock::Exclusive,
                    ).resources);
                }
                Ok(ResourceGuard { key, exclusive: true })
            },
            None => Err(AccessError::Absent),
        }
    }

    /// Read the guarded resource through a guard of either kind.
    pub fn read_resource<'a>(&'a self, guard: &ResourceGuard) -> (value: &'a V)
        requires
            self.inv(),
            res_guard_active(self@, *guard),
        ensures
            *value == self@.resources[guard.kind()].value,
    {
        let i = match self.find_resource(guard.key) {
            Some(i) => i,
            None => {
                proof {
                    assert(false);
                }
                0
            },
        };
        &self.resources[i].value
    }

    /// Overwrite the guarded resource through an exclusive guard.
    pub fn write_resource(&mut self, guard: &ResourceGuard, value: V)
        requires
            old(self).inv(),
            res_guard_active(old(self)@, *guard),
            guard.is_exclusive(),
        ensures
            final(self).inv(),
            final(self)@ == write_resource_t(old(self)@, guard.kind(), value),
    {
        let ghost before = *self;
        let i = match self.find_resource(guard.key) {
            Some(i) => i,
            None => {
                proof {
                    assert(false);
                }
                0
            },
        };
        self.resources[i].value = value;
        proof {
            lemma_res_model_update(before.resources@, self.resources@, i as int);
            assert(self@.resources =~= write_resource_t(before@, guard.kind(), value).resources);
        }
    }

    /// Give a resource guard back.  The last shared guard, or the exclusive
    /// guard, leaves the slot free again.
    pub fn release_resource(&mut self, guard: ResourceGuard)
        requires
            old(self).inv(),
            res_guard_active(old(self)@, guard),
        ensures
            final(self).inv(),
            final(self)@ == set_res_lock_t(
                old(self)@,
                guard.kind(),
                after_release(old(self)@.resources[guard.kind()].lock),
            ),
    {
        let ghost before = *self;
        let i = match self.find_resource(guard.key) {
            Some(i) => i,
            None => {
                proof {
                    assert(false);
                }
                0
            },
        };
        let new_lock = match self.resources[i].lock {
            Lock::Free => Lock::Free,
            Lock::Shared(n) => {
                if n <= 1 {
                    Lock::Free
                } else {
                    Lock::Shared(n - 1)
                }
            },
            Lock::Exclusive => Lock::Free,
        };
        self.resources[i].lock = new_lock;
        proof {
            lemma_res_model_update(before.resources@, self.resources@, i as int);
            assert(self@.resources =~= set_res_lock_t(
                before@,
                guard.kind(),
                after_release(before@.resources[guard.kind()].lock),
            ).resources);
        }
    }

    /// Detach the resource of this kind and hand ownership of it to the
    /// caller; the slot becomes empty.  Faults if a guard over the slot is
    /// outstanding; reports absence if nothing is stored.
    pub fn remove_resource(&mut self, key: u64) -> (result: Result<V, AccessError>)
        requires
            old(self).inv(),
        ensures
            final(self).inv(),
            result is Ok <==> res_exclusive_allowed(old(self)@, key),
            result matches Ok(value) ==> value == old(self)@.resources[key].value
                && final(self)@ == remove_resource_t(old(self)@, key),
            result matches Err(e) ==> *final(self) == *old(self)
                && (e == AccessError::Absent <==> !old(self)@.resources.dom().contains(key))
                && (e == AccessError::Conflict <==> old(self)@.resources.dom().contains(key)
                    && old(self)@.resources[key].lock != Lock::Free),
    {
        let ghost before = *self;
        match self.find_resource(key) {
            Some(i) => {
                match self.resources[i].lock {
                    Lock::Free => {},
                    _ => {
                        return Err(AccessError::Conflict);
                    },
                }
                let slot = self.resources.remove(i);
                proof {
                    lemma_res_model_remove(before.resources@, i as int);
                    assert(self@.resources =~= remove_resource_t(before@, key).resources);
                }
                Ok(slot.value)
            },
            None => Err(AccessError::Absent),
        }
    }
}

// ---------------------------------------------------------------------------
// Laws.  These state, once and for all inputs, how sequences of operations
// relate; each verified operation above ties itself to the transition
// functions the laws speak about.
// ---------------------------------------------------------------------------

/// Column growth invariant: creating an entity keeps every column exactly as
/// long as the entity count, which has grown by one.
pub proof fn lemma_create_entity_column_growth<V>(m: WorldModel<V>)
    requires
        model_wf(m),
    ensures
        model_wf(create_entity_t(m)),
        create_entity_t(m).entity_count == m.entity_count + 1,
        forall|k: u64| #[trigger] create_entity_t(m).columns.dom().contains(k)
            ==> create_entity_t(m).columns[k].slots.len() == m.entity_count + 1,
{
}

/// Column growth invariant: attaching a component to an existing entity
/// keeps every column exactly as long as the unchanged entity count, also
/// when the attach creates the column.
pub proof fn lemma_attach_column_growth<V>(m: WorldModel<V>, entity: int, key: u64, value: V)
    requires
        model_wf(m),
        0 <= entity < m.entity_count,
    ensures
        model_wf(attach_t(m, entity, key, value)),
        attach_t(m, entity, key, value).entity_count == m.entity_count,
        forall|k: u64| #[trigger] attach_t(m, entity, key, value).columns.dom().contains(k)
            ==> attach_t(m, entity, key, value).columns[k].slots.len() == m.entity_count,
{
}

/// Index alignment: attaching one component kind to entity 0 and another
/// kind to entity 1 leaves slot 1 of the first column and slot 0 of the
/// second column absent, while the attached slots hold the values.
pub proof fn lemma_index_alignment<V>(m: WorldModel<V>, ka: u64, kb: u64, va: V, vb: V)
    requires
        model_wf(m),
        m.entity_count >= 2,
        ka != kb,
        !m.columns.dom().contains(ka),
        !m.columns.dom().contains(kb),
    ensures
        ({
            let m2 = attach_t(attach_t(m, 0, ka, va), 1, kb, vb);
            &&& m2.columns[ka].slots[0] == Some(va)
            &&& m2.columns[ka].slots[1] is None
            &&& m2.columns[kb].slots[0] is None
            &&& m2.columns[kb].slots[1] == Some(vb)
        }),
{
}

/// Resource round trip: after storing a value its kind reads back exactly
/// that value, and after removing the kind it reads back as absent.
pub proof fn lemma_resource_round_trip<V>(m: WorldModel<V>, key: u64, value: V)
    ensures
        resource_value(add_resource_t(m, key, value), key) == Some(value),
        resource_value(remove_resource_t(add_resource_t(m, key, value), key), key)
            == None::<V>,
{
}

/// Overwrite semantics: storing a second value of the same kind leaves only
/// the second value retrievable.
pub proof fn lemma_resource_overwrite<V>(m: WorldModel<V>, key: u64, first: V, second: V)
    ensures
        resource_value(add_resource_t(add_resource_t(m, key, first), key, second), key)
            == Some(second),
{
}

/// Exclusivity: while any guard over a column is outstanding, no exclusive
/// guard over it can be taken, and while an exclusive guard is outstanding,
/// no shared guard can be taken either.
pub proof fn lemma_exclusive_guard_excluded<V>(m: WorldModel<V>, key: u64)
    requires
        m.columns.dom().contains(key),
        m.columns[key].lock != Lock::Free,
    ensures
        !col_exclusive_allowed(m, key),
        m.columns[key].lock == Lock::Exclusive ==> !col_shared_allowed(m, key),
{
}

/// Sharing: over a free column a shared guard can be taken, and with it
/// outstanding a second concurrent shared guard can still be taken.
pub proof fn lemma_shared_guards_coexist<V>(m: WorldModel<V>, key: u64)
    requires
        m.columns.dom().contains(key),
        m.columns[key].lock == Lock::Free,
    ensures
        col_shared_allowed(m, key),
        col_shared_allowed(
            set_col_lock_t(m, key, after_shared_acquire(m.columns[key].lock)),
            key,
        ),
{
}

/// Exclusivity for resource slots, stated as for columns.
pub proof fn lemma_exclusive_resource_guard_excluded<V>(m: WorldModel<V>, key: u64)
    requires
        m.resources.dom().contains(key),
        m.resources[key].lock != Lock::Free,
    ensures
        !res_exclusive_allowed(m, key),
        m.resources[key].lock == Lock::Exclusive ==> !res_shared_allowed(m, key),
{
}

/// Sharing for resource slots, stated as for columns.
pub proof fn lemma_shared_resource_guards_coexist<V>(m: WorldModel<V>, key: u64)
    requires
        m.resources.dom().contains(key),
        m.resources[key].lock == Lock::Free,
    ensures
        res_shared_allowed(m, key),
        res_shared_allowed(
            set_res_lock_t(m, key, after_shared_acquire(m.resources[key].lock)),
            key,
        ),
{
}

} // verus!
