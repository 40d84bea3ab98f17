//! The Neighbor Table (labels this node hands out to its neighbors) and
//! the Label Table (labels the neighbors handed out to this node).
use vstd::prelude::*;
use std::collections::HashMap;
use crate::error::DldsrError;
use crate::topology::Endpoint;

verus! {

broadcast use vstd::std_specs::hash::group_hash_axioms;

/// What this node knows of one neighbor, and the label it assigned to it.
#[derive(Debug, Clone)]
pub struct NeighborEntry {
    pub node_id: u32,
    pub label_assigned_by_me_to_neighbor: u8,
    pub last_seen_millis: u64,
    pub endpoint: Endpoint,
    pub alive: bool,
}

/// The value of a neighbor entry.
pub struct NeighborModel {
    pub node_id: u32,
    pub label: u8,
    pub last_seen_millis: u64,
    pub endpoint: Seq<char>,
    pub alive: bool,
}

impl View for NeighborEntry {
    type V = NeighborModel;

    open spec fn view(&self) -> NeighborModel {
        NeighborModel {
            node_id: self.node_id,
            label: self.label_assigned_by_me_to_neighbor,
            last_seen_millis: self.last_seen_millis,
            endpoint: self.endpoint@,
            alive: self.alive,
        }
    }
}

impl NeighborEntry {
    /// A copy of this entry.
    pub fn duplicate(&self) -> (e: NeighborEntry)
        ensures
            e@ == self@,
    {
        NeighborEntry {
            node_id: self.node_id,
            label_assigned_by_me_to_neighbor: self.label_assigned_by_me_to_neighbor,
            last_seen_millis: self.last_seen_millis,
            endpoint: self.endpoint.clone(),
            alive: self.alive,
        }
    }
}

/// Whether some alive neighbor in `m` holds `label`.
pub open spec fn label_in_use(m: Map<u32, NeighborModel>, label: u8) -> bool {
    exists|k: u32| #[trigger] m.contains_key(k) && m[k].alive && m[k].label == label
}

/// The lowest label in `from..=255` that no alive neighbor holds.
pub open spec fn lowest_free_label_from(m: Map<u32, NeighborModel>, from: int) -> Option<u8>
    decreases 256 - from,
{
    if from > 255 || from < 1 {
        None
    } else if !label_in_use(m, from as u8) {
        Some(from as u8)
    } else {
        lowest_free_label_from(m, from + 1)
    }
}

/// The lowest label in `1..=255` that no alive neighbor holds.
pub open spec fn lowest_free_label(m: Map<u32, NeighborModel>) -> Option<u8> {
    lowest_free_label_from(m, 1)
}

/// No two alive neighbors hold the same label.
pub open spec fn alive_labels_unique(m: Map<u32, NeighborModel>) -> bool {
    forall|a: u32, b: u32|
        #![trigger m[a], m[b]]
        m.contains_key(a) && m.contains_key(b) && m[a].alive && m[b].alive && m[a].label
            == m[b].label ==> a == b
}

/// Every neighbor is stored under its own node id, holds a label in `1..=255` and is alive.
pub open spec fn entries_consistent(m: Map<u32, NeighborModel>) -> bool {
    forall|k: u32| #[trigger] m.contains_key(k) ==> m[k].node_id == k && m[k].label >= 1 && m[k].alive
}

/// The entry stored for `node_id` after a Hello from it at `now` through `endpoint`.
pub open spec fn refreshed(e: NeighborModel, endpoint: Seq<char>, now: u64) -> NeighborModel {
    NeighborModel { endpoint: endpoint, last_seen_millis: now, alive: true, ..e }
}

/// The outcome of a Hello from `node_id` at `now` through `endpoint`:
/// the table afterwards and the label of that neighbor.
pub open spec fn assign_label(m: Map<u32, NeighborModel>, node_id: u32, endpoint: Seq<char>, now: u64) -> (
    Map<u32, NeighborModel>,
    Result<u8, DldsrError>,
) {
    if m.contains_key(node_id) {
        (m.insert(node_id, refreshed(m[node_id], endpoint, now)), Ok(m[node_id].label))
    } else {
        match lowest_free_label(m) {
            Some(label) => (
                m.insert(
                    node_id,
                    NeighborModel {
                        node_id,
                        label,
                        last_seen_millis: now,
                        endpoint,
                        alive: true,
                    },
                ),
                Ok(label),
            ),
            None => (m, Err(DldsrError::LabelSpaceExhausted)),
        }
    }
}

/// Node ids in `s` are pairwise distinct.
pub open spec fn ids_distinct(s: Seq<NeighborModel>) -> bool {
    forall|i: int, j: int|
        #![trigger s[i], s[j]]
        0 <= i < s.len() && 0 <= j < s.len() && s[i].node_id == s[j].node_id ==> i == j
}

/// The entries of `s` keyed by node id.
pub open spec fn neighbor_map(s: Seq<NeighborModel>) -> Map<u32, NeighborModel> {
    Map::new(
        |k: u32| exists|i: int| 0 <= i < s.len() && #[trigger] s[i].node_id == k,
        |k: u32| s[choose|i: int| 0 <= i < s.len() && #[trigger] s[i].node_id == k],
    )
}

proof fn lemma_neighbor_map_at(s: Seq<NeighborModel>, i: int)
    requires
        ids_distinct(s),
        0 <= i < s.len(),
    ensures
        neighbor_map(s).contains_key(s[i].node_id),
        neighbor_map(s)[s[i].node_id] == s[i],
{
    let k = s[i].node_id;
    assert(exists|j: int| 0 <= j < s.len() && #[trigger] s[j].node_id == k);
    let j = choose|j: int| 0 <= j < s.len() && #[trigger] s[j].node_id == k;
    assert(s[i].node_id == s[j].node_id);
}

proof fn lemma_neighbor_map_push(s: Seq<NeighborModel>, e: NeighborModel)
    requires
        ids_distinct(s),
        !neighbor_map(s).contains_key(e.node_id),
    ensures
        ids_distinct(s.push(e)),
        neighbor_map(s.push(e)) =~= neighbor_map(s).insert(e.node_id, e),
{
    let t = s.push(e);
    assert forall|i: int, j: int|
        0 <= i < t.len() && 0 <= j < t.len() && #[trigger] t[i].node_id == #[trigger] t[j].node_id
    implies i == j by {
        if i < s.len() && j == s.len() {
            assert(neighbor_map(s).contains_key(s[i].node_id)) by {
                lemma_neighbor_map_at(s, i);
            }
        } else if j < s.len() && i == s.len() {
            assert(neighbor_map(s).contains_key(s[j].node_id)) by {
                lemma_neighbor_map_at(s, j);
            }
        } else if i < s.len() && j < s.len() {
            assert(s[i].node_id == s[j].node_id);
        }
    }
    assert forall|k: u32|
        neighbor_map(t).contains_key(k) <==> neighbor_map(s).insert(e.node_id, e).contains_key(
            k,
        ) by {
        if neighbor_map(t).contains_key(k) {
            let i = choose|i: int| 0 <= i < t.len() && #[trigger] t[i].node_id == k;
            if i < s.len() {
                assert(s[i].node_id == k);
            }
        }
        if neighbor_map(s).contains_key(k) {
            let i = choose|i: int| 0 <= i < s.len() && #[trigger] s[i].node_id == k;
            assert(t[i].node_id == k);
        }
        if k == e.node_id {
            assert(t[s.len() as int].node_id == k);
        }
    }
    assert forall|k: u32| #[trigger] neighbor_map(t).contains_key(k) implies neighbor_map(t)[k]
        == neighbor_map(s).insert(e.node_id, e)[k] by {
        let i = choose|i: int| 0 <= i < t.len() && #[trigger] t[i].node_id == k;
        lemma_neighbor_map_at(t, i);
        if i < s.len() {
            assert(s[i] == t[i]);
            lemma_neighbor_map_at(s, i);
        }
    }
}

proof fn lemma_neighbor_map_update(s: Seq<NeighborModel>, i: int, e: NeighborModel)
    requires
        ids_distinct(s),
        0 <= i < s.len(),
        e.node_id == s[i].node_id,
    ensures
        ids_distinct(s.update(i, e)),
        neighbor_map(s.update(i, e)) =~= neighbor_map(s).insert(e.node_id, e),
{
    let t = s.update(i, e);
    assert forall|a: int, b: int|
        0 <= a < t.len() && 0 <= b < t.len() && #[trigger] t[a].node_id == #[trigger] t[b].node_id
    implies a == b by {
        assert(s[a].node_id == t[a].node_id);
        assert(s[b].node_id == t[b].node_id);
    }
    assert forall|k: u32|
        neighbor_map(t).contains_key(k) <==> neighbor_map(s).insert(e.node_id, e).contains_key(
            k,
        ) by {
        if neighbor_map(t).contains_key(k) {
            let j = choose|j: int| 0 <= j < t.len() && #[trigger] t[j].node_id == k;
            assert(s[j].node_id == k);
        }
        if neighbor_map(s).contains_key(k) {
            let j = choose|j: int| 0 <= j < s.len() && #[trigger] s[j].node_id == k;
            assert(t[j].node_id == k);
        }
        if k == e.node_id {
            assert(t[i].node_id == k);
        }
    }
    assert forall|k: u32| #[trigger] neighbor_map(t).contains_key(k) implies neighbor_map(t)[k]
        == neighbor_map(s).insert(e.node_id, e)[k] by {
        let j = choose|j: int| 0 <= j < t.len() && #[trigger] t[j].node_id == k;
        lemma_neighbor_map_at(t, j);
        if j != i {
            assert(s[j] == t[j]);
            lemma_neighbor_map_at(s, j);
        }
    }
}

/// The neighbors this node has heard from, each with the label this node assigned to it.
#[derive(Debug, Clone)]
pub struct NeighborTable {
    entries: Vec<NeighborEntry>,
}

impl View for NeighborTable {
    type V = Map<u32, NeighborModel>;

    closed spec fn view(&self) -> Map<u32, NeighborModel> {
        neighbor_map(self.entries@.map_values(|e: NeighborEntry| e@))
    }
}

impl NeighborTable {
    /// The table's invariant: one entry per node id, each under its own
    /// id with a label in `1..=255`, and no label held by two alive neighbors.
    pub closed spec fn wf(&self) -> bool {
        &&& ids_distinct(self.entries@.map_values(|e: NeighborEntry| e@))
        &&& entries_consistent(self@)
        &&& alive_labels_unique(self@)
    }

    /// An empty table.
    pub fn new() -> (t: NeighborTable)
        ensures
            t.wf(),
            t@ == Map::<u32, NeighborModel>::empty(),
    {
        let t = NeighborTable { entries: Vec::new() };
        assert(t@ =~= Map::<u32, NeighborModel>::empty());
        t
    }

    /// Whether some alive neighbor holds `label`.
    fn label_taken(&self, label: u8) -> (res: bool)
        requires
            self.wf(),
        ensures
            res == label_in_use(self@, label),
    {
        let ghost s = self.entries@.map_values(|e: NeighborEntry| e@);
        let mut i: usize = 0;
        while i < self.entries.len()
            invariant
                i <= self.entries@.len(),
                s == self.entries@.map_values(|e: NeighborEntry| e@),
                ids_distinct(s),
                forall|j: int| 0 <= j < i ==> !(#[trigger] s[j].alive && s[j].label == label),
            decreases self.entries@.len() - i,
        {
            let e = &self.entries[i];
            if e.alive && e.label_assigned_by_me_to_neighbor == label {
                proof {
                    lemma_neighbor_map_at(s, i as int);
                }
                return true;
            }
            i = i + 1;
        }
        assert forall|k: u32| #[trigger] self@.contains_key(k) implies !(self@[k].alive
            && self@[k].label == label) by {
            let j = choose|j: int| 0 <= j < s.len() && #[trigger] s[j].node_id == k;
            lemma_neighbor_map_at(s, j);
        }
        false
    }

    /// The position of `node_id`'s entry.
    fn position(&self, node_id: u32) -> (res: Option<usize>)
        requires
            self.wf(),
        ensures
            match res {
                Some(i) => i < self.entries@.len() && self.entries@[i as int].node_id == node_id,
                None => !self@.contains_key(node_id),
            },
    {
        let ghost s = self.entries@.map_values(|e: NeighborEntry| e@);
        let mut i: usize = 0;
        while i < self.entries.len()
            invariant
                i <= self.entries@.len(),
                s == self.entries@.map_values(|e: NeighborEntry| e@),
                forall|j: int| 0 <= j < i ==> #[trigger] s[j].node_id != node_id,
            decreases self.entries@.len() - i,
        {
            if self.entries[i].node_id == node_id {
                return Some(i);
            }
            i = i + 1;
        }
        assert(!self@.contains_key(node_id));
        None
    }

    /// Records a Hello from `node_id` at `now` through `endpoint` and
    /// returns its label: the label it already has, or else the lowest
    /// label that no alive neighbor holds.
    pub fn assign_or_reuse_label(&mut self, node_id: u32, endpoint: Endpoint, now: u64) -> (res:
        Result<u8, DldsrError>)
        requires
            old(self).wf(),
        ensures
            final(self).wf(),
            (final(self)@, res) == assign_label(old(self)@, node_id, endpoint@, now),
    {
        let ghost s = self.entries@.map_values(|e: NeighborEntry| e@);
        let ghost old_map = self@;
        match self.position(node_id) {
            Some(i) => {
                let label = self.entries[i].label_assigned_by_me_to_neighbor;
                let entry = NeighborEntry {
                    node_id,
                    label_assigned_by_me_to_neighbor: label,
                    last_seen_millis: now,
                    endpoint,
                    alive: true,
                };
                proof {
                    lemma_neighbor_map_at(s, i as int);
                    lemma_neighbor_map_update(s, i as int, entry@);
                }
                self.entries.set(i, entry);
                proof {
                    assert(self.entries@.map_values(|e: NeighborEntry| e@) =~= s.update(
                        i as int,
                        entry@,
                    ));
                    assert(self@ == old_map.insert(node_id, entry@));
                    assert(entry@ == refreshed(old_map[node_id], endpoint@, now));
                    assert forall|a: u32, b: u32|
                        #![trigger self@[a], self@[b]]
                        self@.contains_key(a) && self@.contains_key(b) && self@[a].alive
                            && self@[b].alive && self@[a].label == self@[b].label implies a == b by {
                        if a == node_id {
                            assert(old_map[a].label == self@[a].label && old_map[a].alive);
                        }
                        if b == node_id {
                            assert(old_map[b].label == self@[b].label && old_map[b].alive);
                        }
                    }
                }
                Ok(label)
            },
            None => {
                let mut candidate: u16 = 1;
                while candidate <= 255
                    invariant
                        1 <= candidate <= 256,
                        self.wf(),
                        self@ == old_map,
                        old_map == old(self)@,
                        s == self.entries@.map_values(|e: NeighborEntry| e@),
                        !old_map.contains_key(node_id),
                        lowest_free_label(old_map) == lowest_free_label_from(
                            old_map,
                            candidate as int,
                        ),
                    decreases 256 - candidate,
                {
                    let label = candidate as u8;
                    if !self.label_taken(label) {
                        let entry = NeighborEntry {
                            node_id,
                            label_assigned_by_me_to_neighbor: label,
                            last_seen_millis: now,
                            endpoint,
                            alive: true,
                        };
                        proof {
                            lemma_neighbor_map_push(s, entry@);
                            assert(lowest_free_label(old_map) == Some(label));
                        }
                        self.entries.push(entry);
                        proof {
                            assert(self.entries@.map_values(|e: NeighborEntry| e@) =~= s.push(
                                entry@,
                            ));
                            assert(self@ == old_map.insert(node_id, entry@));
                            assert(entry@ == NeighborModel {
                                node_id,
                                label,
                                last_seen_millis: now,
                                endpoint: endpoint@,
                                alive: true,
                            });
                            assert((self@, Ok::<u8, DldsrError>(label)) == assign_label(old_map, node_id, endpoint@, now));
                            assert forall|a: u32, b: u32|
                                #![trigger self@[a], self@[b]]
                                self@.contains_key(a) && self@.contains_key(b) && self@[a].alive
                                    && self@[b].alive && self@[a].label == self@[b].label implies a
                                == b by {
                                if a != node_id && b == node_id {
                                    assert(old_map.contains_key(a) && old_map[a].alive
                                        && old_map[a].label == label);
                                }
                                if a == node_id && b != node_id {
                                    assert(old_map.contains_key(b) && old_map[b].alive
                                        && old_map[b].label == label);
                                }
                            }
                        }
                        return Ok(label);
                    }
                    candidate = candidate + 1;
                }
                Err(DldsrError::LabelSpaceExhausted)
            },
        }
    }

    /// The alive neighbor that holds `label`.
    pub fn neighbor_by_label(&self, label: u8) -> (res: Option<&NeighborEntry>)
        requires
            self.wf(),
        ensures
            match res {
                Some(e) => self@.contains_key(e.node_id) && self@[e.node_id] == e@ && e.alive
                    && e.label_assigned_by_me_to_neighbor == label,
                None => !label_in_use(self@, label),
            },
    {
        let ghost s = self.entries@.map_values(|e: NeighborEntry| e@);
        let mut i: usize = 0;
        while i < self.entries.len()
            invariant
                i <= self.entries@.len(),
                s == self.entries@.map_values(|e: NeighborEntry| e@),
                ids_distinct(s),
                forall|j: int| 0 <= j < i ==> !(#[trigger] s[j].alive && s[j].label == label),
            decreases self.entries@.len() - i,
        {
            let e = &self.entries[i];
            if e.alive && e.label_assigned_by_me_to_neighbor == label {
                proof {
                    lemma_neighbor_map_at(s, i as int);
                }
                return Some(e);
            }
            i = i + 1;
        }
        assert forall|k: u32| #[trigger] self@.contains_key(k) implies !(self@[k].alive
            && self@[k].label == label) by {
            let j = choose|j: int| 0 <= j < s.len() && #[trigger] s[j].node_id == k;
            lemma_neighbor_map_at(s, j);
        }
        None
    }

    /// The entry of `node_id`.
    pub fn get(&self, node_id: u32) -> (res: Option<&NeighborEntry>)
        requires
            self.wf(),
        ensures
            match res {
                Some(e) => self@.contains_key(node_id) && self@[node_id] == e@,
                None => !self@.contains_key(node_id),
            },
    {
        match self.position(node_id) {
            Some(i) => {
                proof {
                    lemma_neighbor_map_at(self.entries@.map_values(|e: NeighborEntry| e@), i as int);
                }
                Some(&self.entries[i])
            },
            None => None,
        }
    }

    /// Every entry of the table, each once.
    pub fn entries(&self) -> (res: &[NeighborEntry])
        requires
            self.wf(),
        ensures
            forall|i: int|
                0 <= i < res@.len() ==> self@.contains_key(#[trigger] res@[i].node_id)
                    && self@[res@[i].node_id] == res@[i]@,
            forall|k: u32|
                #[trigger] self@.contains_key(k) ==> exists|i: int|
                    0 <= i < res@.len() && #[trigger] res@[i].node_id == k,
            forall|i: int, j: int|
                0 <= i < res@.len() && 0 <= j < res@.len() && #[trigger] res@[i].node_id
                    == #[trigger] res@[j].node_id ==> i == j,
    {
        let ghost s = self.entries@.map_values(|e: NeighborEntry| e@);
        proof {
            assert forall|i: int| 0 <= i < self.entries@.len() implies self@.contains_key(
                #[trigger] self.entries@[i].node_id,
            ) && self@[self.entries@[i].node_id] == self.entries@[i]@ by {
                lemma_neighbor_map_at(s, i);
            }
            assert forall|k: u32| #[trigger] self@.contains_key(k) implies exists|i: int|
                0 <= i < self.entries@.len() && #[trigger] self.entries@[i].node_id == k by {
                let j = choose|j: int| 0 <= j < s.len() && #[trigger] s[j].node_id == k;
                assert(self.entries@[j].node_id == k);
            }
            assert forall|i: int, j: int|
                0 <= i < self.entries@.len() && 0 <= j < self.entries@.len()
                    && #[trigger] self.entries@[i].node_id == #[trigger] self.entries@[j].node_id
                implies i == j by {
                assert(s[i].node_id == s[j].node_id);
            }
        }
        self.entries.as_slice()
    }
}

/// In every table the operations build, no two alive neighbors hold the
/// same label, and each neighbor holds a label in `1..=255`.
pub proof fn law_alive_labels_unique(t: &NeighborTable)
    requires
        t.wf(),
    ensures
        alive_labels_unique(t@),
        entries_consistent(t@),
{
}

impl Default for NeighborTable {
    fn default() -> (t: NeighborTable)
        ensures
            t.wf(),
            t@ == Map::<u32, NeighborModel>::empty(),
    {
        NeighborTable::new()
    }
}

/// The label a neighbor assigned to this node.
#[derive(Debug, Clone, Copy, PartialEq, Eq, Structural)]
pub struct LabelEntry {
    pub neighbor_node_id: u32,
    pub label_assigned_by_neighbor_to_me: u8,
    pub last_seen_millis: u64,
}

/// The labels the neighbors assigned to this node, by neighbor.
#[derive(Debug, Clone)]
pub struct LabelTable {
    entries: HashMap<u32, LabelEntry>,
}

impl View for LabelTable {
    type V = Map<u32, LabelEntry>;

    closed spec fn view(&self) -> Map<u32, LabelEntry> {
        self.entries@
    }
}

impl LabelTable {
    /// An empty table.
    pub fn new() -> (t: LabelTable)
        ensures
            t@ == Map::<u32, LabelEntry>::empty(),
    {
        LabelTable { entries: HashMap::new() }
    }

    /// Records that `neighbor_node_id` assigned `label` to this node at `now`.
    pub fn update_from_hello_reply(&mut self, neighbor_node_id: u32, label: u8, now: u64)
        ensures
            final(self)@ == old(self)@.insert(
                neighbor_node_id,
                LabelEntry {
                    neighbor_node_id,
                    label_assigned_by_neighbor_to_me: label,
                    last_seen_millis: now,
                },
            ),
    {
        self.entries.insert(
            neighbor_node_id,
            LabelEntry {
                neighbor_node_id,
                label_assigned_by_neighbor_to_me: label,
                last_seen_millis: now,
            },
        );
    }

    /// The label `neighbor_node_id` assigned to this node.
    pub fn label_assigned_by_neighbor(&self, neighbor_node_id: u32) -> (res: Option<u8>)
        ensures
            match res {
                Some(l) => self@.contains_key(neighbor_node_id) && self@[neighbor_node_id].label_assigned_by_neighbor_to_me == l,
                None => !self@.contains_key(neighbor_node_id),
            },
    {
        match self.entries.get(&neighbor_node_id) {
            Some(entry) => Some(entry.label_assigned_by_neighbor_to_me),
            None => None,
        }
    }
}

impl Default for LabelTable {
    fn default() -> (t: LabelTable)
        ensures
            t@ == Map::<u32, LabelEntry>::empty(),
    {
        LabelTable::new()
    }
}

} // verus!
