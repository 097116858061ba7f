//! Storage of subchunk meshes, keyed by chunk and subchunk.
//!
//! The renderer's mesh handle and entity types are parameters (`M` and
//! `E`): the storage only moves them around.
use vstd::prelude::*;

verus! {

/// Render state of a subchunk.
#[derive(Clone, Copy, PartialEq, Eq, Debug, Structural)]
pub enum SubchunkRenderState {
    Empty,
    Building,
    Ready,
    Dirty,
    Rebuilding,
    Unloading,
}

/// What the renderer keeps for one subchunk.
pub struct SubchunkRenderData<M, E> {
    pub current_mesh: Option<M>,
    pub pending_mesh: Option<M>,
    pub state: SubchunkRenderState,
    pub entity: Option<E>,
    pub chunk_x: i64,
    pub chunk_z: i64,
    pub subchunk_index: usize,
}

/// The data of a subchunk that has just appeared: no mesh, no entity.
pub open spec fn fresh_render_data<M, E>(chunk_x: i64, chunk_z: i64, subchunk_index: usize) -> SubchunkRenderData<M, E> {
    SubchunkRenderData {
        current_mesh: None,
        pending_mesh: None,
        state: SubchunkRenderState::Empty,
        entity: None,
        chunk_x,
        chunk_z,
        subchunk_index,
    }
}

impl<M, E> SubchunkRenderData<M, E> {
    pub fn new(chunk_x: i64, chunk_z: i64, subchunk_index: usize) -> (d: Self)
        ensures
            d == fresh_render_data::<M, E>(chunk_x, chunk_z, subchunk_index),
    {
        Self {
            current_mesh: None,
            pending_mesh: None,
            state: SubchunkRenderState::Empty,
            entity: None,
            chunk_x,
            chunk_z,
            subchunk_index,
        }
    }
}

/// Key of a subchunk: its chunk and its index in the chunk.
#[derive(Clone, Copy, PartialEq, Eq, Hash, Debug, Structural)]
pub struct SubchunkKey {
    pub chunk_x: i64,
    pub chunk_z: i64,
    pub subchunk_index: usize,
}

/// Whether some entry of `e` has key `k`.
pub open spec fn has_entry<V>(e: Seq<(SubchunkKey, V)>, k: SubchunkKey) -> bool {
    exists|i: int| 0 <= i < e.len() && (#[trigger] e[i]).0 == k
}

/// No key occurs twice in `e`.
pub open spec fn unique_entry_keys<V>(e: Seq<(SubchunkKey, V)>) -> bool {
    forall|i: int, j: int| 0 <= i < e.len() && 0 <= j < e.len() && i != j ==> (#[trigger] e[i]).0 != (#[trigger] e[j]).0
}

/// The map that the entries stand for.
pub open spec fn entry_map<V>(e: Seq<(SubchunkKey, V)>) -> Map<SubchunkKey, V> {
    Map::new(
        |k: SubchunkKey| has_entry(e, k),
        |k: SubchunkKey| e[choose|i: int| 0 <= i < e.len() && (#[trigger] e[i]).0 == k].1,
    )
}

/// With unique keys, an entry's key maps to the entry's value.
proof fn lemma_entry_at<V>(e: Seq<(SubchunkKey, V)>, i: int)
    requires
        unique_entry_keys(e),
        0 <= i < e.len(),
    ensures
        entry_map(e).contains_key(e[i].0),
        entry_map(e)[e[i].0] == e[i].1,
{
    let k = e[i].0;
    assert(has_entry(e, k));
    let j = choose|j: int| 0 <= j < e.len() && (#[trigger] e[j]).0 == k;
    assert(j == i);
}

/// Replacing the value of one entry replaces the value of its key.
proof fn lemma_entry_replaced<V>(e: Seq<(SubchunkKey, V)>, i: int, v: V)
    requires
        unique_entry_keys(e),
        0 <= i < e.len(),
    ensures
        unique_entry_keys(e.update(i, (e[i].0, v))),
        entry_map(e.update(i, (e[i].0, v))) == entry_map(e).insert(e[i].0, v),
{
    let e1 = e.update(i, (e[i].0, v));
    let key = e[i].0;
    assert(unique_entry_keys(e1)) by {
        assert forall|a: int, b: int| 0 <= a < e1.len() && 0 <= b < e1.len() && a != b
            implies (#[trigger] e1[a]).0 != (#[trigger] e1[b]).0 by {
            assert(e1[a].0 == e[a].0);
            assert(e1[b].0 == e[b].0);
        }
    }
    assert forall|k: SubchunkKey| #[trigger] entry_map(e1).contains_key(k) <==> entry_map(e).insert(key, v).contains_key(k) by {
        if has_entry(e, k) {
            let j = choose|j: int| 0 <= j < e.len() && (#[trigger] e[j]).0 == k;
            assert(e1[j].0 == k);
        }
        if has_entry(e1, k) {
            let j = choose|j: int| 0 <= j < e1.len() && (#[trigger] e1[j]).0 == k;
            assert(e[j].0 == k);
        }
        if k == key {
            assert(e1[i].0 == k);
        }
    }
    assert forall|k: SubchunkKey| #[trigger] entry_map(e1).contains_key(k) implies entry_map(e1)[k] == entry_map(e).insert(key, v)[k] by {
        let j = choose|j: int| 0 <= j < e1.len() && (#[trigger] e1[j]).0 == k;
        lemma_entry_at(e1, j);
        if j != i {
            lemma_entry_at(e, j);
        }
    }
    assert(entry_map(e1) =~= entry_map(e).insert(key, v));
}

/// With unique keys, the map has as many keys as there are entries.
proof fn lemma_entry_count<V>(e: Seq<(SubchunkKey, V)>)
    requires
        unique_entry_keys(e),
    ensures
        entry_map(e).dom().finite(),
        entry_map(e).dom().len() == e.len(),
    decreases e.len(),
{
    if e.len() == 0 {
        assert(entry_map(e).dom() =~= Set::<SubchunkKey>::empty());
    } else {
        let p = e.drop_last();
        let k = e.last().0;
        assert(unique_entry_keys(p));
        lemma_entry_count(p);
        assert(!has_entry(p, k)) by {
            if has_entry(p, k) {
                let j = choose|j: int| 0 <= j < p.len() && (#[trigger] p[j]).0 == k;
                assert(e[j].0 == e[e.len() - 1].0);
            }
        }
        assert forall|x: SubchunkKey| #[trigger] entry_map(e).dom().contains(x) <==> entry_map(p).dom().insert(k).contains(x) by {
            if has_entry(e, x) && x != k {
                let j = choose|j: int| 0 <= j < e.len() && (#[trigger] e[j]).0 == x;
                assert(j < p.len());
                assert(p[j].0 == x);
            }
            if has_entry(p, x) {
                let j = choose|j: int| 0 <= j < p.len() && (#[trigger] p[j]).0 == x;
                assert(e[j].0 == x);
            }
            if x == k {
                assert(e[e.len() - 1].0 == x);
            }
        }
        assert(entry_map(e).dom() =~= entry_map(p).dom().insert(k));
    }
}

/// What a count of stored subchunks selects.
#[derive(Clone, Copy, PartialEq, Eq, Debug, Structural)]
pub enum SubchunkFilter {
    /// Subchunks in the given state.
    InState(SubchunkRenderState),
    /// Subchunks with a mesh shown.
    WithMesh,
    /// Subchunks with an entity.
    WithEntity,
    /// Bottom subchunks (index 0) with a mesh shown.
    BottomWithMesh,
    /// Bottom subchunks (index 0) without a mesh shown.
    BottomWithoutMesh,
}

/// The subchunk `k` with data `d` is selected by `f`.
pub open spec fn selects<M, E>(f: SubchunkFilter, k: SubchunkKey, d: SubchunkRenderData<M, E>) -> bool {
    match f {
        SubchunkFilter::InState(s) => d.state == s,
        SubchunkFilter::WithMesh => d.current_mesh is Some,
        SubchunkFilter::WithEntity => d.entity is Some,
        SubchunkFilter::BottomWithMesh => d.subchunk_index == 0 && d.current_mesh is Some,
        SubchunkFilter::BottomWithoutMesh => d.subchunk_index == 0 && d.current_mesh is None,
    }
}

/// The keys of `m` that `f` selects.
pub open spec fn selected_keys<M, E>(m: Map<SubchunkKey, SubchunkRenderData<M, E>>, f: SubchunkFilter) -> Set<SubchunkKey> {
    Set::new(|k: SubchunkKey| m.contains_key(k) && selects(f, k, m[k]))
}

/// Number of entries of `e` that `f` selects.
pub open spec fn selected_entries<M, E>(e: Seq<(SubchunkKey, SubchunkRenderData<M, E>)>, f: SubchunkFilter) -> nat
    decreases e.len(),
{
    if e.len() == 0 {
        0
    } else {
        selected_entries(e.drop_last(), f) + if selects(f, e.last().0, e.last().1) { 1nat } else { 0nat }
    }
}

/// With unique keys, the selected keys are as many as the selected entries.
proof fn lemma_selected_count<M, E>(e: Seq<(SubchunkKey, SubchunkRenderData<M, E>)>, f: SubchunkFilter)
    requires
        unique_entry_keys(e),
    ensures
        selected_keys(entry_map(e), f).finite(),
        selected_keys(entry_map(e), f).len() == selected_entries(e, f),
    decreases e.len(),
{
    if e.len() == 0 {
        assert(selected_keys(entry_map(e), f) =~= Set::<SubchunkKey>::empty());
    } else {
        let p = e.drop_last();
        let n = e.len() - 1;
        let k = e.last().0;
        assert(unique_entry_keys(p));
        lemma_selected_count(p, f);
        lemma_entry_at(e, n);
        assert(!has_entry(p, k)) by {
            if has_entry(p, k) {
                let j = choose|j: int| 0 <= j < p.len() && (#[trigger] p[j]).0 == k;
                assert(e[j].0 == e[n].0);
            }
        }
        let sp = selected_keys(entry_map(p), f);
        let se = selected_keys(entry_map(e), f);
        assert forall|x: SubchunkKey| x != k implies (#[trigger] se.contains(x) <==> sp.contains(x)) by {
            if has_entry(e, x) {
                let j = choose|j: int| 0 <= j < e.len() && (#[trigger] e[j]).0 == x;
                assert(j != n);
                assert(p[j] == e[j]);
                lemma_entry_at(e, j);
                lemma_entry_at(p, j);
            }
            if has_entry(p, x) {
                let j = choose|j: int| 0 <= j < p.len() && (#[trigger] p[j]).0 == x;
                assert(e[j] == p[j]);
                lemma_entry_at(e, j);
                lemma_entry_at(p, j);
            }
        }
        assert(!sp.contains(k));
        if selects(f, e[n].0, e[n].1) {
            assert(se =~= sp.insert(k));
        } else {
            assert(se =~= sp);
        }
    }
}

/// Storage of the render data of every known subchunk.
pub struct MeshStorage<M, E> {
    subchunks: Vec<(SubchunkKey, SubchunkRenderData<M, E>)>,
    /// Number of mesh entities spawned for the stored subchunks, kept by
    /// the renderer; the storage's own operations leave it as it is.
    entity_count: usize,
}

impl<M, E> View for MeshStorage<M, E> {
    type V = Map<SubchunkKey, SubchunkRenderData<M, E>>;

    closed spec fn view(&self) -> Map<SubchunkKey, SubchunkRenderData<M, E>> {
        entry_map(self.subchunks@)
    }
}

/// The keys of `m` whose data satisfies `p`.
pub open spec fn keys_where<M, E>(m: Map<SubchunkKey, SubchunkRenderData<M, E>>, p: spec_fn(SubchunkRenderData<M, E>) -> bool) -> Set<SubchunkKey> {
    Set::new(|k: SubchunkKey| m.contains_key(k) && p(m[k]))
}

/// `keys` lists each key of `wanted` exactly once.
pub open spec fn lists_each_once(keys: Seq<SubchunkKey>, wanted: Set<SubchunkKey>) -> bool {
    &&& keys.no_duplicates()
    &&& forall|k: SubchunkKey| #[trigger] keys.contains(k) <==> wanted.contains(k)
}

impl<M, E> Default for MeshStorage<M, E> {
    fn default() -> (s: Self)
        ensures
            s.wf(),
            s@ == Map::<SubchunkKey, SubchunkRenderData<M, E>>::empty(),
            s.spec_entity_count() == 0,
    {
        Self::new()
    }
}

impl<M, E> MeshStorage<M, E> {
    /// No key occurs twice.
    pub closed spec fn wf(&self) -> bool {
        unique_entry_keys(self.subchunks@)
    }

    /// The recorded number of mesh entities.
    pub closed spec fn spec_entity_count(&self) -> usize {
        self.entity_count
    }

    /// The recorded number of mesh entities.
    pub fn entity_count(&self) -> (r: usize)
        ensures
            r == self.spec_entity_count(),
    {
        self.entity_count
    }

    /// Records the number of mesh entities; the stored subchunks stay as
    /// they are.
    pub fn set_entity_count(&mut self, count: usize)
        requires
            old(self).wf(),
        ensures
            final(self).wf(),
            final(self)@ == old(self)@,
            final(self).spec_entity_count() == count,
    {
        self.entity_count = count;
    }

    pub fn new() -> (s: Self)
        ensures
            s.wf(),
            s@ == Map::<SubchunkKey, SubchunkRenderData<M, E>>::empty(),
            s.spec_entity_count() == 0,
    {
        let s = Self { subchunks: Vec::new(), entity_count: 0 };
        assert(s@ =~= Map::<SubchunkKey, SubchunkRenderData<M, E>>::empty());
        s
    }

    fn find(&self, key: &SubchunkKey) -> (r: Option<usize>)
        requires
            self.wf(),
        ensures
            r is Some <==> self@.contains_key(*key),
            r matches Some(i) ==> i < self.subchunks@.len() && self.subchunks@[i as int].0 == *key,
    {
        let mut i: usize = 0;
        while i < self.subchunks.len()
            invariant
                0 <= i <= self.subchunks@.len(),
                forall|j: int| 0 <= j < i ==> (#[trigger] self.subchunks@[j]).0 != *key,
            decreases self.subchunks@.len() - i,
        {
            if self.subchunks[i].0 == *key {
                return Some(i);
            }
            i = i + 1;
        }
        None
    }

    /// The data of `key`, if it is stored.
    pub fn get(&self, key: &SubchunkKey) -> (r: Option<&SubchunkRenderData<M, E>>)
        requires
            self.wf(),
        ensures
            r is Some <==> self@.contains_key(*key),
            r matches Some(d) ==> *d == self@[*key],
    {
        match self.find(key) {
            Some(i) => {
                proof {
                    lemma_entry_at(self.subchunks@, i as int);
                }
                Some(&self.subchunks[i].1)
            },
            None => None,
        }
    }

    /// The data of `key` for changing in place, if it is stored.
    pub fn get_mut(&mut self, key: &SubchunkKey) -> (r: Option<&mut SubchunkRenderData<M, E>>)
        requires
            old(self).wf(),
        ensures
            final(self).wf(),
            r is Some <==> old(self)@.contains_key(*key),
            r matches Some(d) ==> *d == old(self)@[*key] && final(self)@ == old(self)@.insert(*key, *final(d)),
            r is None ==> final(self)@ == old(self)@,
            final(self).spec_entity_count() == old(self).spec_entity_count(),
    {
        match self.find(key) {
            Some(i) => {
                proof {
                    lemma_entry_at(self.subchunks@, i as int);
                }
                let ghost e0 = self.subchunks@;
                let d = &mut self.subchunks[i].1;
                proof {
                    lemma_entry_replaced(e0, i as int, *final(d));
                }
                Some(d)
            },
            None => None,
        }
    }

    /// Stores `data` under `key`, replacing what was there.
    pub fn insert(&mut self, key: SubchunkKey, data: SubchunkRenderData<M, E>)
        requires
            old(self).wf(),
        ensures
            final(self).wf(),
            final(self)@ == old(self)@.insert(key, data),
            final(self).spec_entity_count() == old(self).spec_entity_count(),
    {
        let ghost e0 = self.subchunks@;
        let ghost d = data;
        match self.find(&key) {
            Some(i) => {
                self.subchunks.set(i, (key, data));
                proof {
                    let e1 = self.subchunks@;
                    assert(unique_entry_keys(e1)) by {
                        assert forall|a: int, b: int| 0 <= a < e1.len() && 0 <= b < e1.len() && a != b
                            implies (#[trigger] e1[a]).0 != (#[trigger] e1[b]).0 by {
                            assert(e1[a].0 == e0[a].0);
                            assert(e1[b].0 == e0[b].0);
                        }
                    }
                    assert forall|k: SubchunkKey| #[trigger] entry_map(e1).contains_key(k) <==> entry_map(e0).insert(key, d).contains_key(k) by {
                        if has_entry(e0, k) {
                            let j = choose|j: int| 0 <= j < e0.len() && (#[trigger] e0[j]).0 == k;
                            assert(e1[j].0 == k);
                        }
                        if has_entry(e1, k) {
                            let j = choose|j: int| 0 <= j < e1.len() && (#[trigger] e1[j]).0 == k;
                            assert(e0[j].0 == k);
                        }
                    }
                    assert forall|k: SubchunkKey| #[trigger] entry_map(e1).contains_key(k) implies entry_map(e1)[k] == entry_map(e0).insert(key, d)[k] by {
                        let j = choose|j: int| 0 <= j < e1.len() && (#[trigger] e1[j]).0 == k;
                        lemma_entry_at(e1, j);
                        if j != i {
                            lemma_entry_at(e0, j);
                        }
                    }
                    assert(entry_map(e1) =~= entry_map(e0).insert(key, d));
                }
            },
            None => {
                self.subchunks.push((key, data));
                proof {
                    let e1 = self.subchunks@;
                    let n = e0.len() as int;
                    assert(unique_entry_keys(e1)) by {
                        assert forall|a: int, b: int| 0 <= a < e1.len() && 0 <= b < e1.len() && a != b
                            implies (#[trigger] e1[a]).0 != (#[trigger] e1[b]).0 by {
                            if a == n {
                                assert(!has_entry(e0, key));
                                assert(e0[b].0 != key);
                            } else if b == n {
                                assert(!has_entry(e0, key));
                                assert(e0[a].0 != key);
                            }
                        }
                    }
                    assert forall|k: SubchunkKey| #[trigger] entry_map(e1).contains_key(k) <==> entry_map(e0).insert(key, d).contains_key(k) by {
                        if has_entry(e0, k) {
                            let j = choose|j: int| 0 <= j < e0.len() && (#[trigger] e0[j]).0 == k;
                            assert(e1[j].0 == k);
                        }
                        if k == key {
                            assert(e1[n].0 == k);
                        }
                        if has_entry(e1, k) {
                            let j = choose|j: int| 0 <= j < e1.len() && (#[trigger] e1[j]).0 == k;
                            if j < n {
                                assert(e0[j].0 == k);
                            }
                        }
                    }
                    assert forall|k: SubchunkKey| #[trigger] entry_map(e1).contains_key(k) implies entry_map(e1)[k] == entry_map(e0).insert(key, d)[k] by {
                        let j = choose|j: int| 0 <= j < e1.len() && (#[trigger] e1[j]).0 == k;
                        lemma_entry_at(e1, j);
                        if j != n {
                            lemma_entry_at(e0, j);
                        }
                    }
                    assert(entry_map(e1) =~= entry_map(e0).insert(key, d));
                }
            },
        }
    }

    /// Removes `key` and returns its data, if it was stored.
    pub fn remove(&mut self, key: &SubchunkKey) -> (r: Option<SubchunkRenderData<M, E>>)
        requires
            old(self).wf(),
        ensures
            final(self).wf(),
            final(self)@ == old(self)@.remove(*key),
            r is Some <==> old(self)@.contains_key(*key),
            r matches Some(d) ==> d == old(self)@[*key],
            final(self).spec_entity_count() == old(self).spec_entity_count(),
    {
        let ghost e0 = self.subchunks@;
        match self.find(key) {
            Some(i) => {
                proof {
                    lemma_entry_at(e0, i as int);
                }
                let (_, data) = self.subchunks.swap_remove(i);
                proof {
                    let e1 = self.subchunks@;
                    let n = e0.len() - 1;
                    assert(e1 =~= e0.update(i as int, e0[n]).drop_last());
                    assert forall|a: int| 0 <= a < e1.len() implies #[trigger] e1[a] == e0[if a == i { n } else { a }] by {
                    }
                    assert(unique_entry_keys(e1)) by {
                        assert forall|a: int, b: int| 0 <= a < e1.len() && 0 <= b < e1.len() && a != b
                            implies (#[trigger] e1[a]).0 != (#[trigger] e1[b]).0 by {
                            let oa = if a == i { n } else { a };
                            let ob = if b == i { n } else { b };
                            assert(e1[a] == e0[oa]);
                            assert(e1[b] == e0[ob]);
                        }
                    }
                    assert forall|k: SubchunkKey| #[trigger] entry_map(e1).contains_key(k) <==> entry_map(e0).remove(*key).contains_key(k) by {
                        if has_entry(e1, k) {
                            let j = choose|j: int| 0 <= j < e1.len() && (#[trigger] e1[j]).0 == k;
                            let oj = if j == i { n } else { j };
                            assert(e1[j] == e0[oj]);
                            assert(e0[oj].0 == k);
                            assert(oj != i);
                        }
                        if has_entry(e0, k) && k != *key {
                            let j = choose|j: int| 0 <= j < e0.len() && (#[trigger] e0[j]).0 == k;
                            assert(j != i);
                            if j == n {
                                assert(e1[i as int] == e0[n]);
                                assert(e1[i as int].0 == k);
                            } else {
                                assert(e1[j] == e0[j]);
                                assert(e1[j].0 == k);
                            }
                        }
                    }
                    assert forall|k: SubchunkKey| #[trigger] entry_map(e1).contains_key(k) implies entry_map(e1)[k] == entry_map(e0).remove(*key)[k] by {
                        let j = choose|j: int| 0 <= j < e1.len() && (#[trigger] e1[j]).0 == k;
                        let oj = if j == i { n } else { j };
                        assert(e1[j] == e0[oj]);
                        lemma_entry_at(e1, j);
                        lemma_entry_at(e0, oj);
                    }
                    assert(entry_map(e1) =~= entry_map(e0).remove(*key));
                }
                Some(data)
            },
            None => {
                proof {
                    assert(entry_map(e0) =~= entry_map(e0).remove(*key));
                }
                None
            },
        }
    }

    /// Whether `key` is stored.
    pub fn contains(&self, key: &SubchunkKey) -> (r: bool)
        requires
            self.wf(),
        ensures
            r == self@.contains_key(*key),
    {
        self.find(key).is_some()
    }

    /// Number of stored subchunks.
    pub fn len(&self) -> (r: usize)
        requires
            self.wf(),
        ensures
            r == self@.dom().len(),
    {
        proof {
            lemma_entry_count(self.subchunks@);
        }
        self.subchunks.len()
    }

    /// Whether nothing is stored.
    pub fn is_empty(&self) -> (r: bool)
        requires
            self.wf(),
        ensures
            r == (self@.dom().len() == 0),
    {
        proof {
            lemma_entry_count(self.subchunks@);
        }
        self.subchunks.len() == 0
    }

    /// The stored keys whose state is `a` or `b`, each once.
    fn keys_in_states(&self, a: SubchunkRenderState, b: SubchunkRenderState) -> (r: Vec<SubchunkKey>)
        requires
            self.wf(),
        ensures
            lists_each_once(r@, keys_where(self@, |d: SubchunkRenderData<M, E>| d.state == a || d.state == b)),
    {
        let ghost e = self.subchunks@;
        let mut keys: Vec<SubchunkKey> = Vec::new();
        let mut i: usize = 0;
        while i < self.subchunks.len()
            invariant
                0 <= i <= e.len(),
                e == self.subchunks@,
                unique_entry_keys(e),
                keys@.no_duplicates(),
                forall|k: SubchunkKey| #[trigger] keys@.contains(k) <==>
                    exists|j: int| 0 <= j < i && (#[trigger] e[j]).0 == k && (e[j].1.state == a || e[j].1.state == b),
            decreases e.len() - i,
        {
            let st = self.subchunks[i].1.state;
            if st == a || st == b {
                let k = self.subchunks[i].0;
                proof {
                    assert(!keys@.contains(k)) by {
                        if keys@.contains(k) {
                            let j = choose|j: int| 0 <= j < i && (#[trigger] e[j]).0 == k && (e[j].1.state == a || e[j].1.state == b);
                            assert(e[j].0 == e[i as int].0);
                        }
                    }
                }
                let ghost before = keys@;
                keys.push(k);
                proof {
                    assert(keys@ == before.push(k));
                    assert forall|x: SubchunkKey| #[trigger] keys@.contains(x) <==> (before.contains(x) || x == k) by {
                        if before.contains(x) {
                            let t = choose|t: int| 0 <= t < before.len() && before[t] == x;
                            assert(keys@[t] == x);
                        }
                        if x == k {
                            assert(keys@[before.len() as int] == x);
                        }
                        if keys@.contains(x) {
                            let t = choose|t: int| 0 <= t < keys@.len() && keys@[t] == x;
                            if t < before.len() {
                                assert(before[t] == x);
                            }
                        }
                    }
                    assert forall|x: SubchunkKey| #[trigger] keys@.contains(x) <==>
                        exists|j: int| 0 <= j < i + 1 && (#[trigger] e[j]).0 == x && (e[j].1.state == a || e[j].1.state == b) by {
                        if exists|j: int| 0 <= j < i + 1 && (#[trigger] e[j]).0 == x && (e[j].1.state == a || e[j].1.state == b) {
                            let j = choose|j: int| 0 <= j < i + 1 && (#[trigger] e[j]).0 == x && (e[j].1.state == a || e[j].1.state == b);
                            if j < i {
                                assert(before.contains(x));
                            }
                        }
                        if before.contains(x) {
                            let j = choose|j: int| 0 <= j < i && (#[trigger] e[j]).0 == x && (e[j].1.state == a || e[j].1.state == b);
                            assert(0 <= j < i + 1);
                        }
                        if x == k {
                            assert(e[i as int].0 == x);
                        }
                    }
                }
            } else {
                proof {
                    assert forall|x: SubchunkKey| #[trigger] keys@.contains(x) <==>
                        exists|j: int| 0 <= j < i + 1 && (#[trigger] e[j]).0 == x && (e[j].1.state == a || e[j].1.state == b) by {
                        if exists|j: int| 0 <= j < i + 1 && (#[trigger] e[j]).0 == x && (e[j].1.state == a || e[j].1.state == b) {
                            let j = choose|j: int| 0 <= j < i + 1 && (#[trigger] e[j]).0 == x && (e[j].1.state == a || e[j].1.state == b);
                            assert(j < i);
                        }
                    }
                }
            }
            i = i + 1;
        }
        proof {
            let wanted = keys_where(self@, |d: SubchunkRenderData<M, E>| d.state == a || d.state == b);
            assert forall|k: SubchunkKey| #[trigger] keys@.contains(k) <==> wanted.contains(k) by {
                if keys@.contains(k) {
                    let j = choose|j: int| 0 <= j < i && (#[trigger] e[j]).0 == k && (e[j].1.state == a || e[j].1.state == b);
                    lemma_entry_at(e, j);
                }
                if wanted.contains(k) {
                    let j = choose|j: int| 0 <= j < e.len() && (#[trigger] e[j]).0 == k;
                    lemma_entry_at(e, j);
                }
            }
        }
        keys
    }

    /// The subchunks whose mesh is ready.
    pub fn ready_subchunks(&self) -> (r: Vec<SubchunkKey>)
        requires
            self.wf(),
        ensures
            lists_each_once(r@, keys_where(self@, |d: SubchunkRenderData<M, E>| d.state == SubchunkRenderState::Ready)),
    {
        let r = self.keys_in_states(SubchunkRenderState::Ready, SubchunkRenderState::Ready);
        proof {
            assert(keys_where(self@, |d: SubchunkRenderData<M, E>| d.state == SubchunkRenderState::Ready || d.state == SubchunkRenderState::Ready)
                =~= keys_where(self@, |d: SubchunkRenderData<M, E>| d.state == SubchunkRenderState::Ready));
        }
        r
    }

    /// The subchunks whose mesh is out of date.
    pub fn dirty_subchunks(&self) -> (r: Vec<SubchunkKey>)
        requires
            self.wf(),
        ensures
            lists_each_once(r@, keys_where(self@, |d: SubchunkRenderData<M, E>| d.state == SubchunkRenderState::Dirty)),
    {
        let r = self.keys_in_states(SubchunkRenderState::Dirty, SubchunkRenderState::Dirty);
        proof {
            assert(keys_where(self@, |d: SubchunkRenderData<M, E>| d.state == SubchunkRenderState::Dirty || d.state == SubchunkRenderState::Dirty)
                =~= keys_where(self@, |d: SubchunkRenderData<M, E>| d.state == SubchunkRenderState::Dirty));
        }
        r
    }

    /// The subchunks whose mesh is being built or rebuilt.
    pub fn pending_subchunks(&self) -> (r: Vec<SubchunkKey>)
        requires
            self.wf(),
        ensures
            lists_each_once(r@, keys_where(self@, |d: SubchunkRenderData<M, E>|
                d.state == SubchunkRenderState::Building || d.state == SubchunkRenderState::Rebuilding)),
    {
        self.keys_in_states(SubchunkRenderState::Building, SubchunkRenderState::Rebuilding)
    }

    /// The subchunks that need a mesh built: those without one and those
    /// whose mesh is out of date.
    pub fn subchunks_to_build(&self) -> (r: Vec<SubchunkKey>)
        requires
            self.wf(),
        ensures
            lists_each_once(r@, keys_where(self@, |d: SubchunkRenderData<M, E>|
                d.state == SubchunkRenderState::Empty || d.state == SubchunkRenderState::Dirty)),
    {
        self.keys_in_states(SubchunkRenderState::Empty, SubchunkRenderState::Dirty)
    }

    /// The subchunks that are being unloaded.
    pub fn unloading_subchunks(&self) -> (r: Vec<SubchunkKey>)
        requires
            self.wf(),
        ensures
            lists_each_once(r@, keys_where(self@, |d: SubchunkRenderData<M, E>| d.state == SubchunkRenderState::Unloading)),
    {
        let r = self.keys_in_states(SubchunkRenderState::Unloading, SubchunkRenderState::Unloading);
        proof {
            assert(keys_where(self@, |d: SubchunkRenderData<M, E>| d.state == SubchunkRenderState::Unloading || d.state == SubchunkRenderState::Unloading)
                =~= keys_where(self@, |d: SubchunkRenderData<M, E>| d.state == SubchunkRenderState::Unloading));
        }
        r
    }

    /// Every stored key, each once.
    pub fn keys(&self) -> (r: Vec<SubchunkKey>)
        requires
            self.wf(),
        ensures
            lists_each_once(r@, self@.dom()),
    {
        let ghost e = self.subchunks@;
        let mut keys: Vec<SubchunkKey> = Vec::new();
        let mut i: usize = 0;
        while i < self.subchunks.len()
            invariant
                0 <= i <= e.len(),
                e == self.subchunks@,
                unique_entry_keys(e),
                keys@ == e.subrange(0, i as int).map_values(|p: (SubchunkKey, SubchunkRenderData<M, E>)| p.0),
            decreases e.len() - i,
        {
            keys.push(self.subchunks[i].0);
            proof {
                assert(keys@ =~= e.subrange(0, i + 1).map_values(|p: (SubchunkKey, SubchunkRenderData<M, E>)| p.0));
            }
            i = i + 1;
        }
        proof {
            assert(keys@.len() == e.len());
            assert forall|a: int, b: int| 0 <= a < keys@.len() && 0 <= b < keys@.len() && a != b implies keys@[a] != keys@[b] by {
                assert(keys@[a] == e[a].0);
                assert(keys@[b] == e[b].0);
            }
            assert forall|k: SubchunkKey| #[trigger] keys@.contains(k) <==> self@.dom().contains(k) by {
                if keys@.contains(k) {
                    let t = choose|t: int| 0 <= t < keys@.len() && keys@[t] == k;
                    assert(keys@[t] == e[t].0);
                    lemma_entry_at(e, t);
                }
                if self@.dom().contains(k) {
                    let j = choose|j: int| 0 <= j < e.len() && (#[trigger] e[j]).0 == k;
                    assert(keys@[j] == k);
                }
            }
        }
        keys
    }

    /// Number of stored subchunks that `filter` selects.
    pub fn count_selected(&self, filter: SubchunkFilter) -> (r: usize)
        requires
            self.wf(),
        ensures
            r == selected_keys(self@, filter).len(),
    {
        let ghost e = self.subchunks@;
        let mut count: usize = 0;
        let mut i: usize = 0;
        while i < self.subchunks.len()
            invariant
                0 <= i <= e.len(),
                e == self.subchunks@,
                count == selected_entries(e.subrange(0, i as int), filter),
                count <= i,
            decreases e.len() - i,
        {
            proof {
                assert(e.subrange(0, i + 1).drop_last() =~= e.subrange(0, i as int));
            }
            let d = &self.subchunks[i].1;
            let hit = match filter {
                SubchunkFilter::InState(s) => d.state == s,
                SubchunkFilter::WithMesh => d.current_mesh.is_some(),
                SubchunkFilter::WithEntity => d.entity.is_some(),
                SubchunkFilter::BottomWithMesh => d.subchunk_index == 0 && d.current_mesh.is_some(),
                SubchunkFilter::BottomWithoutMesh => d.subchunk_index == 0 && d.current_mesh.is_none(),
            };
            if hit {
                count = count + 1;
            }
            i = i + 1;
        }
        proof {
            assert(e.subrange(0, e.len() as int) =~= e);
            lemma_selected_count(e, filter);
        }
        count
    }
}

} // verus!
