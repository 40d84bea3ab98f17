//! Route cache entries, the route cache, and the duplicate-request cache.
use vstd::prelude::*;
use std::collections::HashMap;

verus! {

broadcast use vstd::std_specs::hash::group_hash_axioms;

/// A cached source route to a destination.
#[derive(Debug)]
pub struct RouteEntry {
    pub dst_node_id: u32,
    pub dsr_path: Vec<u32>,
    pub dldsr_label_path: Vec<u8>,
    pub expires_at_millis: u64,
}

/// The value of a route entry.
pub struct RouteModel {
    pub dst_node_id: u32,
    pub dsr_path: Seq<u32>,
    pub dldsr_label_path: Seq<u8>,
    pub expires_at_millis: u64,
}

impl View for RouteEntry {
    type V = RouteModel;

    open spec fn view(&self) -> RouteModel {
        RouteModel {
            dst_node_id: self.dst_node_id,
            dsr_path: self.dsr_path@,
            dldsr_label_path: self.dldsr_label_path@,
            expires_at_millis: self.expires_at_millis,
        }
    }
}

/// The hop count of a route: the node-id path's length, or the label
/// path's length where the node-id path is empty.
pub open spec fn route_hops(r: RouteModel) -> nat {
    if r.dsr_path.len() == 0 {
        r.dldsr_label_path.len()
    } else {
        r.dsr_path.len()
    }
}

/// A copy of a node-id path.
pub fn copy_ids(v: &Vec<u32>) -> (c: Vec<u32>)
    ensures
        c@ == v@,
{
    let mut c: Vec<u32> = Vec::new();
    let mut i: usize = 0;
    while i < v.len()
        invariant
            i <= v@.len(),
            c@ == v@.take(i as int),
        decreases v@.len() - i,
    {
        c.push(v[i]);
        i = i + 1;
        assert(c@ =~= v@.take(i as int));
    }
    assert(v@.take(i as int) =~= v@);
    c
}

/// A copy of a byte or label sequence.
pub fn copy_bytes(v: &Vec<u8>) -> (c: Vec<u8>)
    ensures
        c@ == v@,
{
    let mut c: Vec<u8> = Vec::new();
    let mut i: usize = 0;
    while i < v.len()
        invariant
            i <= v@.len(),
            c@ == v@.take(i as int),
        decreases v@.len() - i,
    {
        c.push(v[i]);
        i = i + 1;
        assert(c@ =~= v@.take(i as int));
    }
    assert(v@.take(i as int) =~= v@);
    c
}

impl RouteEntry {
    /// A DSR route: the node-id path, no label path.
    pub fn new_dsr(dst_node_id: u32, dsr_path: Vec<u32>, expires_at_millis: u64) -> (r: RouteEntry)
        ensures
            r@ == (RouteModel {
                dst_node_id,
                dsr_path: dsr_path@,
                dldsr_label_path: Seq::empty(),
                expires_at_millis,
            }),
    {
        RouteEntry { dst_node_id, dsr_path, dldsr_label_path: Vec::new(), expires_at_millis }
    }

    /// A DL-DSR route: the label path, no node-id path.
    pub fn new_dldsr(dst_node_id: u32, dldsr_label_path: Vec<u8>, expires_at_millis: u64) -> (r:
        RouteEntry)
        ensures
            r@ == (RouteModel {
                dst_node_id,
                dsr_path: Seq::empty(),
                dldsr_label_path: dldsr_label_path@,
                expires_at_millis,
            }),
    {
        RouteEntry { dst_node_id, dsr_path: Vec::new(), dldsr_label_path, expires_at_millis }
    }

    /// The number of hops of this route (see [`route_hops`]).
    pub fn hop_count(&self) -> (n: usize)
        ensures
            n == route_hops(self@),
    {
        if self.dsr_path.len() == 0 {
            self.dldsr_label_path.len()
        } else {
            self.dsr_path.len()
        }
    }

    /// A copy of this route.
    pub fn duplicate(&self) -> (r: RouteEntry)
        ensures
            r@ == self@,
    {
        RouteEntry {
            dst_node_id: self.dst_node_id,
            dsr_path: copy_ids(&self.dsr_path),
            dldsr_label_path: copy_bytes(&self.dldsr_label_path),
            expires_at_millis: self.expires_at_millis,
        }
    }
}

/// `rs[i]` is the route that a lookup at `now` picks: unexpired
/// (`expires_at_millis >= now`), with the fewest hops among the unexpired
/// routes, and the earliest cached among those.
pub open spec fn is_shortest_at(rs: Seq<RouteModel>, now: u64, i: int) -> bool {
    &&& 0 <= i < rs.len()
    &&& rs[i].expires_at_millis >= now
    &&& forall|j: int|
        0 <= j < rs.len() && #[trigger] rs[j].expires_at_millis >= now ==> route_hops(rs[i])
            <= route_hops(rs[j])
    &&& forall|j: int|
        0 <= j < i && #[trigger] rs[j].expires_at_millis >= now ==> route_hops(rs[j]) > route_hops(
            rs[i],
        )
}

/// The route a lookup at `now` picks among `rs`, if any route is unexpired.
pub open spec fn shortest_route(rs: Seq<RouteModel>, now: u64) -> Option<RouteModel> {
    if exists|i: int| is_shortest_at(rs, now, i) {
        Some(rs[choose|i: int| is_shortest_at(rs, now, i)])
    } else {
        None
    }
}

/// At most one position is the pick.
proof fn lemma_shortest_unique(rs: Seq<RouteModel>, now: u64, i: int, j: int)
    requires
        is_shortest_at(rs, now, i),
        is_shortest_at(rs, now, j),
    ensures
        i == j,
{
    if i < j {
        assert(rs[i].expires_at_millis >= now);
    } else if j < i {
        assert(rs[j].expires_at_millis >= now);
    }
}

/// The routes cached for `dst` in `m`, oldest first.
pub open spec fn routes_for(m: Map<u32, Seq<RouteModel>>, dst: u32) -> Seq<RouteModel> {
    if m.contains_key(dst) {
        m[dst]
    } else {
        Seq::empty()
    }
}

/// Cached routes by destination, in the order they were cached.
#[derive(Debug)]
pub struct RouteCache {
    routes: HashMap<u32, Vec<RouteEntry>>,
}

impl View for RouteCache {
    type V = Map<u32, Seq<RouteModel>>;

    closed spec fn view(&self) -> Map<u32, Seq<RouteModel>> {
        Map::new(
            |d: u32| self.routes@.contains_key(d),
            |d: u32| self.routes@[d]@.map_values(|r: RouteEntry| r@),
        )
    }
}

impl RouteCache {
    /// An empty cache.
    pub fn new() -> (c: RouteCache)
        ensures
            c@ == Map::<u32, Seq<RouteModel>>::empty(),
    {
        let c = RouteCache { routes: HashMap::new() };
        assert(c@ =~= Map::<u32, Seq<RouteModel>>::empty());
        c
    }

    /// Appends `route` to the routes cached for its destination.
    pub fn insert(&mut self, route: RouteEntry)
        ensures
            final(self)@ == old(self)@.insert(
                route.dst_node_id,
                routes_for(old(self)@, route.dst_node_id).push(route@),
            ),
    {
        let dst = route.dst_node_id;
        let ghost r = route@;
        let ghost before = self@;
        let mut list = match self.routes.remove(&dst) {
            Some(list) => list,
            None => Vec::new(),
        };
        assert(list@.map_values(|e: RouteEntry| e@) =~= routes_for(before, dst));
        list.push(route);
        assert(list@.map_values(|e: RouteEntry| e@) =~= routes_for(before, dst).push(r));
        self.routes.insert(dst, list);
        assert(self@ =~= before.insert(dst, routes_for(before, dst).push(r)));
    }

    /// The route to `dst_node_id` that a send at `now` uses (see [`is_shortest_at`]).
    pub fn shortest(&self, dst_node_id: u32, now: u64) -> (res: Option<&RouteEntry>)
        ensures
            match res {
                Some(r) => shortest_route(routes_for(self@, dst_node_id), now) == Some(r@),
                None => shortest_route(routes_for(self@, dst_node_id), now) is None,
            },
    {
        let ghost rs = routes_for(self@, dst_node_id);
        match self.routes.get(&dst_node_id) {
            None => {
                assert(rs.len() == 0);
                None
            },
            Some(list) => {
                assert(list@.map_values(|e: RouteEntry| e@) =~= rs);
                let mut best: Option<usize> = None;
                let mut i: usize = 0;
                while i < list.len()
                    invariant
                        i <= list@.len(),
                        rs == list@.map_values(|e: RouteEntry| e@),
                        match best {
                            None => forall|j: int|
                                0 <= j < i ==> #[trigger] rs[j].expires_at_millis < now,
                            Some(b) => is_shortest_at(rs.take(i as int), now, b as int),
                        },
                    decreases list@.len() - i,
                {
                    let ghost pre = rs.take(i as int);
                    assert(rs.take(i + 1) =~= pre.push(rs[i as int]));
                    if list[i].expires_at_millis >= now {
                        match best {
                            None => {
                                best = Some(i);
                            },
                            Some(b) => {
                                if list[i].hop_count() < list[b].hop_count() {
                                    best = Some(i);
                                }
                            },
                        }
                    }
                    i = i + 1;
                    proof {
                        let cur = rs.take(i as int);
                        match best {
                            None => {},
                            Some(b) => {
                                assert forall|j: int|
                                    0 <= j < cur.len() && #[trigger] cur[j].expires_at_millis
                                        >= now implies route_hops(cur[b as int]) <= route_hops(
                                    cur[j],
                                ) by {
                                    if j < i - 1 {
                                        assert(pre[j] == cur[j]);
                                    }
                                }
                                assert forall|j: int|
                                    0 <= j < b && #[trigger] cur[j].expires_at_millis
                                        >= now implies route_hops(cur[j]) > route_hops(
                                    cur[b as int],
                                ) by {
                                    assert(pre[j] == cur[j]);
                                }
                            },
                        }
                    }
                }
                assert(rs.take(i as int) =~= rs);
                match best {
                    None => {
                        assert(!exists|j: int| is_shortest_at(rs, now, j));
                        None
                    },
                    Some(b) => {
                        proof {
                            let c = choose|j: int| is_shortest_at(rs, now, j);
                            lemma_shortest_unique(rs, now, b as int, c);
                        }
                        Some(&list[b])
                    },
                }
            },
        }
    }
}

impl Default for RouteCache {
    fn default() -> (c: RouteCache)
        ensures
            c@ == Map::<u32, Seq<RouteModel>>::empty(),
    {
        RouteCache::new()
    }
}

/// A request identity: originating node and request id.
pub type RequestKey = (u32, u64);

/// The time a request was first seen from `now` is still within the
/// window: `now - seen_at <= ttl_ms`, with the difference taken as zero
/// where `seen_at` lies after `now`.
pub open spec fn within_ttl(seen_at: u64, now: u64, ttl_ms: u64) -> bool {
    if now >= seen_at {
        now - seen_at <= ttl_ms
    } else {
        true
    }
}

/// The requests of `m` still within the window at `now`.
pub open spec fn prune_seen(m: Map<RequestKey, u64>, now: u64, ttl_ms: u64) -> Map<RequestKey, u64> {
    Map::new(|k: RequestKey| m.contains_key(k) && within_ttl(m[k], now, ttl_ms), |k: RequestKey| m[k])
}

/// `a` is evicted before `b`: ordered by time seen, then originator, then request id.
pub open spec fn evicted_before(a: RequestKey, at_a: u64, b: RequestKey, at_b: u64) -> bool {
    at_a < at_b || (at_a == at_b && (a.0 < b.0 || (a.0 == b.0 && a.1 < b.1)))
}

/// The request that `m` evicts first.
pub open spec fn oldest_key(m: Map<RequestKey, u64>) -> RequestKey {
    choose|k: RequestKey|
        m.contains_key(k) && forall|j: RequestKey| #[trigger]
            m.contains_key(j) ==> !evicted_before(j, m[j], k, m[k])
}

/// `m` after evicting, first in [`evicted_before`] order, until at most `max` requests remain.
pub open spec fn evict_oldest(m: Map<RequestKey, u64>, max: nat) -> Map<RequestKey, u64>
    decreases m.len(),
{
    if m.len() <= max || !m.dom().finite() || !m.contains_key(oldest_key(m)) {
        m
    } else {
        evict_oldest(m.remove(oldest_key(m)), max)
    }
}

/// Marking request `k` at `now`: the cache afterwards, and whether `k`
/// was new (absent once the expired requests were pruned).
pub open spec fn mark_seen(
    m: Map<RequestKey, u64>,
    k: RequestKey,
    now: u64,
    ttl_ms: u64,
    max_entries: nat,
) -> (Map<RequestKey, u64>, bool) {
    let pruned = prune_seen(m, now, ttl_ms);
    (evict_oldest(pruned.insert(k, now), max_entries), !pruned.contains_key(k))
}

/// The request key of a stored triple.
pub open spec fn key_of(e: (u32, u64, u64)) -> RequestKey {
    (e.0, e.1)
}

/// No request key is stored twice.
pub open spec fn keys_distinct(s: Seq<(u32, u64, u64)>) -> bool {
    forall|i: int, j: int|
        #![trigger s[i], s[j]]
        0 <= i < s.len() && 0 <= j < s.len() && key_of(s[i]) == key_of(s[j]) ==> i == j
}

/// The stored triples as a map from request key to time seen.
pub open spec fn seen_map(s: Seq<(u32, u64, u64)>) -> Map<RequestKey, u64> {
    Map::new(
        |k: RequestKey| exists|i: int| 0 <= i < s.len() && key_of(#[trigger] s[i]) == k,
        |k: RequestKey| s[choose|i: int| 0 <= i < s.len() && key_of(#[trigger] s[i]) == k].2,
    )
}

/// `m` is the map of `s`: the same keys, each with its stored time.
pub open spec fn represents(s: Seq<(u32, u64, u64)>, m: Map<RequestKey, u64>) -> bool {
    &&& forall|i: int| 0 <= i < s.len() ==> #[trigger] m.contains_key(key_of(s[i])) && m[key_of(s[i])] == s[i].2
    &&& forall|k: RequestKey| #[trigger] m.contains_key(k) ==> exists|i: int|
        0 <= i < s.len() && key_of(#[trigger] s[i]) == k
}

proof fn lemma_represents_seen_map(s: Seq<(u32, u64, u64)>, m: Map<RequestKey, u64>)
    requires
        keys_distinct(s),
        represents(s, m),
    ensures
        seen_map(s) =~= m,
{
    assert forall|k: RequestKey| seen_map(s).contains_key(k) <==> m.contains_key(k) by {
        if seen_map(s).contains_key(k) {
            let i = choose|i: int| 0 <= i < s.len() && key_of(#[trigger] s[i]) == k;
            assert(m.contains_key(key_of(s[i])));
        }
    }
    assert forall|k: RequestKey| #[trigger] m.contains_key(k) implies seen_map(s)[k] == m[k] by {
        let i = choose|i: int| 0 <= i < s.len() && key_of(#[trigger] s[i]) == k;
        assert(m.contains_key(key_of(s[i])));
    }
}

proof fn lemma_seen_map_represents(s: Seq<(u32, u64, u64)>)
    requires
        keys_distinct(s),
    ensures
        represents(s, seen_map(s)),
{
    assert forall|i: int| 0 <= i < s.len() implies #[trigger] seen_map(s).contains_key(key_of(s[i]))
        && seen_map(s)[key_of(s[i])] == s[i].2 by {
        let k = key_of(s[i]);
        assert(exists|j: int| 0 <= j < s.len() && key_of(#[trigger] s[j]) == k);
        let j = choose|j: int| 0 <= j < s.len() && key_of(#[trigger] s[j]) == k;
        assert(key_of(s[i]) == key_of(s[j]));
    }
}

proof fn lemma_seen_map_len(s: Seq<(u32, u64, u64)>)
    requires
        keys_distinct(s),
    ensures
        seen_map(s).dom().finite(),
        seen_map(s).len() == s.len(),
{
    broadcast use vstd::seq_lib::seq_to_set_is_finite;

    let ks = s.map_values(|e: (u32, u64, u64)| key_of(e));
    assert(ks.no_duplicates()) by {
        assert forall|i: int, j: int| 0 <= i < ks.len() && 0 <= j < ks.len() && i != j implies ks[i]
            != ks[j] by {
            assert(key_of(s[i]) == ks[i]);
            assert(key_of(s[j]) == ks[j]);
        }
    }
    assert(seen_map(s).dom() =~= ks.to_set()) by {
        assert forall|k: RequestKey| seen_map(s).dom().contains(k) <==> ks.to_set().contains(k) by {
            if seen_map(s).dom().contains(k) {
                let i = choose|i: int| 0 <= i < s.len() && key_of(#[trigger] s[i]) == k;
                assert(ks[i] == k);
            }
            if ks.to_set().contains(k) {
                let i = choose|i: int| 0 <= i < ks.len() && ks[i] == k;
                assert(key_of(s[i]) == k);
            }
        }
    }
    ks.unique_seq_to_set();
}

/// Overwriting a triple with one of the same key.
proof fn lemma_seen_update(s: Seq<(u32, u64, u64)>, i: int, e: (u32, u64, u64))
    requires
        keys_distinct(s),
        0 <= i < s.len(),
        key_of(e) == key_of(s[i]),
    ensures
        keys_distinct(s.update(i, e)),
        seen_map(s.update(i, e)) =~= seen_map(s).insert(key_of(e), e.2),
{
    let t = s.update(i, e);
    let m = seen_map(s).insert(key_of(e), e.2);
    lemma_seen_map_represents(s);
    assert forall|a: int, b: int|
        0 <= a < t.len() && 0 <= b < t.len() && key_of(#[trigger] t[a]) == key_of(#[trigger] t[b])
    implies a == b by {
        assert(key_of(s[a]) == key_of(t[a]));
        assert(key_of(s[b]) == key_of(t[b]));
    }
    assert forall|j: int| 0 <= j < t.len() implies #[trigger] m.contains_key(key_of(t[j])) && m[key_of(
        t[j],
    )] == t[j].2 by {
        if j != i {
            assert(t[j] == s[j]);
            assert(key_of(s[j]) != key_of(s[i]));
        }
    }
    assert forall|k: RequestKey| #[trigger] m.contains_key(k) implies exists|j: int|
        0 <= j < t.len() && key_of(#[trigger] t[j]) == k by {
        if k == key_of(e) {
            assert(key_of(t[i]) == k);
        } else {
            let j = choose|j: int| 0 <= j < s.len() && key_of(#[trigger] s[j]) == k;
            assert(key_of(t[j]) == k);
        }
    }
    lemma_represents_seen_map(t, m);
}

/// Appending a triple whose key is not yet held.
proof fn lemma_seen_push(s: Seq<(u32, u64, u64)>, e: (u32, u64, u64))
    requires
        keys_distinct(s),
        forall|j: int| 0 <= j < s.len() ==> key_of(#[trigger] s[j]) != key_of(e),
    ensures
        keys_distinct(s.push(e)),
        !seen_map(s).contains_key(key_of(e)),
        seen_map(s.push(e)) =~= seen_map(s).insert(key_of(e), e.2),
{
    let t = s.push(e);
    let m = seen_map(s).insert(key_of(e), e.2);
    lemma_seen_map_represents(s);
    assert forall|a: int, b: int|
        0 <= a < t.len() && 0 <= b < t.len() && key_of(#[trigger] t[a]) == key_of(#[trigger] t[b])
    implies a == b by {
        if a < s.len() && b < s.len() {
            assert(key_of(s[a]) == key_of(s[b]));
        } else if a < s.len() {
            assert(key_of(s[a]) == key_of(t[a]));
        } else if b < s.len() {
            assert(key_of(s[b]) == key_of(t[b]));
        }
    }
    assert forall|j: int| 0 <= j < t.len() implies #[trigger] m.contains_key(key_of(t[j])) && m[key_of(
        t[j],
    )] == t[j].2 by {
        if j < s.len() {
            assert(t[j] == s[j]);
        }
    }
    assert forall|k: RequestKey| #[trigger] m.contains_key(k) implies exists|j: int|
        0 <= j < t.len() && key_of(#[trigger] t[j]) == k by {
        if k == key_of(e) {
            assert(key_of(t[s.len() as int]) == k);
        } else {
            let j = choose|j: int| 0 <= j < s.len() && key_of(#[trigger] s[j]) == k;
            assert(key_of(t[j]) == k);
        }
    }
    lemma_represents_seen_map(t, m);
    if seen_map(s).contains_key(key_of(e)) {
        let j = choose|j: int| 0 <= j < s.len() && key_of(#[trigger] s[j]) == key_of(e);
    }
}

/// Removing position `b` the way `swap_remove` does.
proof fn lemma_seen_swap_remove(s: Seq<(u32, u64, u64)>, b: int)
    requires
        keys_distinct(s),
        0 <= b < s.len(),
    ensures
        keys_distinct(s.update(b, s.last()).drop_last()),
        seen_map(s.update(b, s.last()).drop_last()) =~= seen_map(s).remove(key_of(s[b])),
{
    let t = s.update(b, s.last()).drop_last();
    let k = key_of(s[b]);
    let m = seen_map(s).remove(k);
    let last = s.len() - 1;
    lemma_seen_map_represents(s);
    assert forall|x: int, y: int|
        0 <= x < t.len() && 0 <= y < t.len() && key_of(#[trigger] t[x]) == key_of(#[trigger] t[y])
    implies x == y by {
        let sx = if x == b { last } else { x };
        let sy = if y == b { last } else { y };
        assert(t[x] == s[sx]);
        assert(t[y] == s[sy]);
        assert(key_of(s[sx]) == key_of(s[sy]));
    }
    assert forall|j: int| 0 <= j < t.len() implies #[trigger] m.contains_key(key_of(t[j])) && m[key_of(
        t[j],
    )] == t[j].2 by {
        let sj = if j == b { last } else { j };
        assert(t[j] == s[sj]);
        assert(key_of(s[sj]) != key_of(s[b]));
    }
    assert forall|kk: RequestKey| #[trigger] m.contains_key(kk) implies exists|j: int|
        0 <= j < t.len() && key_of(#[trigger] t[j]) == kk by {
        let x = choose|x: int| 0 <= x < s.len() && key_of(#[trigger] s[x]) == kk;
        if x == last {
            assert(key_of(t[b]) == kk);
        } else {
            assert(key_of(t[x]) == kk);
        }
    }
    lemma_represents_seen_map(t, m);
}

/// The requests a well-formed cache holds form a finite map.
pub(crate) proof fn lemma_seen_finite(c: &SeenRequests)
    requires
        c.wf(),
    ensures
        c@.dom().finite(),
{
    lemma_seen_map_len(c.seen@);
}

/// The minimal request of a non-empty finite cache is the one `oldest_key` names.
proof fn lemma_oldest_key(m: Map<RequestKey, u64>, k: RequestKey)
    requires
        m.contains_key(k),
        forall|j: RequestKey| #[trigger] m.contains_key(j) ==> !evicted_before(j, m[j], k, m[k]),
    ensures
        oldest_key(m) == k,
{
    let o = oldest_key(m);
    assert(m.contains_key(o) && forall|j: RequestKey| #[trigger]
        m.contains_key(j) ==> !evicted_before(j, m[j], o, m[o]));
    assert(!evicted_before(o, m[o], k, m[k]));
    assert(!evicted_before(k, m[k], o, m[o]));
}

/// The requests seen recently, to drop duplicate route requests.
#[derive(Debug)]
pub struct SeenRequests {
    seen: Vec<(u32, u64, u64)>,
}

impl View for SeenRequests {
    type V = Map<RequestKey, u64>;

    closed spec fn view(&self) -> Map<RequestKey, u64> {
        seen_map(self.seen@)
    }
}

impl SeenRequests {
    /// The cache's invariant: each request is held once.
    pub closed spec fn wf(&self) -> bool {
        keys_distinct(self.seen@)
    }

    /// An empty cache.
    pub fn new() -> (c: SeenRequests)
        ensures
            c.wf(),
            c@ == Map::<RequestKey, u64>::empty(),
    {
        let c = SeenRequests { seen: Vec::new() };
        assert(c@ =~= Map::<RequestKey, u64>::empty());
        c
    }

    /// Records request (`src_node_id`, `request_id`) as seen at `now`,
    /// after dropping the requests older than `ttl_ms`; keeps at most
    /// `max_entries` requests, evicting the oldest. Returns whether the
    /// request was new.
    pub fn mark_if_new(
        &mut self,
        src_node_id: u32,
        request_id: u64,
        now: u64,
        ttl_ms: u64,
        max_entries: usize,
    ) -> (is_new: bool)
        requires
            old(self).wf(),
        ensures
            final(self).wf(),
            (final(self)@, is_new) == mark_seen(
                old(self)@,
                (src_node_id, request_id),
                now,
                ttl_ms,
                max_entries as nat,
            ),
    {
        self.prune(now, ttl_ms);
        let ghost pruned = self@;
        let ghost s = self.seen@;
        let entry = (src_node_id, request_id, now);
        let found = match self.find_key(src_node_id, request_id) {
            Some(i) => {
                proof {
                    lemma_seen_map_represents(s);
                    lemma_seen_update(s, i as int, entry);
                }
                self.seen.set(i, entry);
                true
            },
            None => {
                proof {
                    lemma_seen_push(s, entry);
                }
                self.seen.push(entry);
                false
            },
        };
        self.enforce_max_entries(max_entries);
        !found
    }

    /// The position of request (`src_node_id`, `request_id`).
    fn find_key(&self, src_node_id: u32, request_id: u64) -> (res: Option<usize>)
        ensures
            match res {
                Some(i) => i < self.seen@.len() && key_of(self.seen@[i as int]) == (
                    src_node_id,
                    request_id,
                ),
                None => forall|j: int|
                    0 <= j < self.seen@.len() ==> key_of(#[trigger] self.seen@[j]) != (
                        src_node_id,
                        request_id,
                    ),
            },
    {
        let mut i: usize = 0;
        while i < self.seen.len()
            invariant
                i <= self.seen@.len(),
                forall|j: int|
                    0 <= j < i ==> key_of(#[trigger] self.seen@[j]) != (src_node_id, request_id),
            decreases self.seen@.len() - i,
        {
            if self.seen[i].0 == src_node_id && self.seen[i].1 == request_id {
                return Some(i);
            }
            i = i + 1;
        }
        None
    }

    /// The position of the request that is evicted first.
    fn oldest_index(&self) -> (b: usize)
        requires
            self.seen@.len() > 0,
        ensures
            b < self.seen@.len(),
            forall|j: int|
                0 <= j < self.seen@.len() ==> !evicted_before(
                    key_of(#[trigger] self.seen@[j]),
                    self.seen@[j].2,
                    key_of(self.seen@[b as int]),
                    self.seen@[b as int].2,
                ),
    {
        let ghost s = self.seen@;
        let mut best: usize = 0;
        let mut i: usize = 1;
        while i < self.seen.len()
            invariant
                1 <= i <= s.len(),
                best < i,
                self.seen@ == s,
                forall|j: int|
                    0 <= j < i ==> !evicted_before(
                        key_of(#[trigger] s[j]),
                        s[j].2,
                        key_of(s[best as int]),
                        s[best as int].2,
                    ),
            decreases s.len() - i,
        {
            let a = self.seen[i];
            let b = self.seen[best];
            if a.2 < b.2 || (a.2 == b.2 && (a.0 < b.0 || (a.0 == b.0 && a.1 < b.1))) {
                best = i;
            }
            i = i + 1;
        }
        best
    }

    /// Drops the requests seen more than `ttl_ms` before `now`.
    pub fn prune(&mut self, now: u64, ttl_ms: u64)
        requires
            old(self).wf(),
        ensures
            final(self).wf(),
            final(self)@ == prune_seen(old(self)@, now, ttl_ms),
    {
        let ghost s = self.seen@;
        let ghost m = self@;
        proof {
            lemma_seen_map_represents(s);
        }
        let mut kept: Vec<(u32, u64, u64)> = Vec::new();
        let mut i: usize = 0;
        while i < self.seen.len()
            invariant
                i <= s.len(),
                self.seen@ == s,
                keys_distinct(s),
                represents(s, m),
                keys_distinct(kept@),
                forall|j: int| 0 <= j < kept@.len() ==> exists|a: int| 0 <= a < i && #[trigger] kept@[j] == s[a]
                    && within_ttl(s[a].2, now, ttl_ms),
                forall|a: int| 0 <= a < i && within_ttl(#[trigger] s[a].2, now, ttl_ms) ==> exists|j: int|
                    0 <= j < kept@.len() && kept@[j] == s[a],
            decreases s.len() - i,
        {
            let e = self.seen[i];
            if now < e.2 || now - e.2 <= ttl_ms {
                let ghost before = kept@;
                kept.push(e);
                proof {
                    assert forall|a: int, b: int|
                        0 <= a < kept@.len() && 0 <= b < kept@.len() && key_of(#[trigger] kept@[a])
                            == key_of(#[trigger] kept@[b]) implies a == b by {
                        if a < before.len() && b == before.len() {
                            assert(kept@[a] == before[a]);
                            let x = choose|x: int| 0 <= x < i && #[trigger] before[a] == s[x] && within_ttl(s[x].2, now, ttl_ms);
                            assert(key_of(s[x]) == key_of(s[i as int]));
                        } else if b < before.len() && a == before.len() {
                            assert(kept@[b] == before[b]);
                            let x = choose|x: int| 0 <= x < i && #[trigger] before[b] == s[x] && within_ttl(s[x].2, now, ttl_ms);
                            assert(key_of(s[x]) == key_of(s[i as int]));
                        } else if a < before.len() && b < before.len() {
                            assert(kept@[a] == before[a]);
                            assert(kept@[b] == before[b]);
                        }
                    }
                    assert forall|j: int| 0 <= j < kept@.len() implies exists|a: int| 0 <= a < i + 1 && #[trigger] kept@[j] == s[a]
                        && within_ttl(s[a].2, now, ttl_ms) by {
                        if j < before.len() {
                            assert(kept@[j] == before[j]);
                        } else {
                            assert(kept@[j] == s[i as int]);
                        }
                    }
                    assert forall|a: int| 0 <= a < i + 1 && within_ttl(#[trigger] s[a].2, now, ttl_ms) implies exists|j: int|
                        0 <= j < kept@.len() && kept@[j] == s[a] by {
                        if a < i {
                            let j = choose|j: int| 0 <= j < before.len() && before[j] == s[a];
                            assert(kept@[j] == s[a]);
                        } else {
                            assert(kept@[before.len() as int] == s[a]);
                        }
                    }
                }
            }
            i = i + 1;
        }
        proof {
            let p = prune_seen(m, now, ttl_ms);
            assert forall|j: int| 0 <= j < kept@.len() implies #[trigger] p.contains_key(key_of(kept@[j]))
                && p[key_of(kept@[j])] == kept@[j].2 by {
                let a = choose|a: int| 0 <= a < s.len() && #[trigger] kept@[j] == s[a] && within_ttl(s[a].2, now, ttl_ms);
                assert(m.contains_key(key_of(s[a])));
            }
            assert forall|k: RequestKey| #[trigger] p.contains_key(k) implies exists|j: int|
                0 <= j < kept@.len() && key_of(#[trigger] kept@[j]) == k by {
                let a = choose|a: int| 0 <= a < s.len() && key_of(#[trigger] s[a]) == k;
                assert(m.contains_key(key_of(s[a])));
                assert(within_ttl(s[a].2, now, ttl_ms));
                let j = choose|j: int| 0 <= j < kept@.len() && kept@[j] == s[a];
                assert(key_of(kept@[j]) == k);
            }
            lemma_represents_seen_map(kept@, p);
        }
        self.seen = kept;
    }

    /// The number of requests held.
    pub fn len(&self) -> (n: usize)
        requires
            self.wf(),
        ensures
            n == self@.len(),
    {
        proof {
            lemma_seen_map_len(self.seen@);
        }
        self.seen.len()
    }

    /// Whether no request is held.
    pub fn is_empty(&self) -> (b: bool)
        requires
            self.wf(),
        ensures
            b == (self@.len() == 0),
    {
        proof {
            lemma_seen_map_len(self.seen@);
        }
        self.seen.len() == 0
    }

    /// Evicts the oldest requests until at most `max_entries` remain.
    fn enforce_max_entries(&mut self, max_entries: usize)
        requires
            old(self).wf(),
        ensures
            final(self).wf(),
            final(self)@ == evict_oldest(old(self)@, max_entries as nat),
    {
        let ghost target = evict_oldest(self@, max_entries as nat);
        while self.seen.len() > max_entries
            invariant
                self.wf(),
                evict_oldest(self@, max_entries as nat) == target,
            decreases self.seen@.len(),
        {
            let ghost s = self.seen@;
            let ghost m = self@;
            proof {
                lemma_seen_map_represents(s);
                lemma_seen_map_len(s);
            }
            let best = self.oldest_index();
            proof {
                let k = key_of(s[best as int]);
                assert forall|j: RequestKey| #[trigger] m.contains_key(j) implies !evicted_before(
                    j,
                    m[j],
                    k,
                    m[k],
                ) by {
                    let x = choose|x: int| 0 <= x < s.len() && key_of(#[trigger] s[x]) == j;
                    assert(m[key_of(s[x])] == s[x].2);
                }
                lemma_oldest_key(m, k);
                lemma_seen_swap_remove(s, best as int);
            }
            self.seen.swap_remove(best);
        }
        proof {
            lemma_seen_map_len(self.seen@);
        }
    }
}

impl Default for SeenRequests {
    fn default() -> (c: SeenRequests)
        ensures
            c.wf(),
            c@ == Map::<RequestKey, u64>::empty(),
    {
        SeenRequests::new()
    }
}

} // verus!
