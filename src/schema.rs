use vstd::prelude::*;

use crate::error::Error;
use crate::types::{
    updates_view, CollectionDesc, DatabaseDesc, DeleteEvent, GroupDesc, GroupDescV, GroupState,
    GroupStateV, NodeCapacity, NodeDesc, NodeStatus, RaftRole, ReplicaDesc, ReplicaRole, ReplicaState, ShardDescV, UpdateEvent, UpdateEventV, copy_vec,
};

verus! {

/// Id of the group that holds the cluster's metadata.
pub const ROOT_GROUP_ID: u64 = 0;

/// First id handed out to a node, replica, database or collection.
pub const FIRST_ID: u64 = 1;

/// Mathematical value of a `Schema`: the metadata tables and the leadership
/// of the replica they are read through.
pub struct SchemaV {
    pub leader: bool,
    pub cluster_id: Option<Seq<u8>>,
    pub next_id: u64,
    pub databases: Seq<DatabaseDesc>,
    pub collections: Seq<CollectionDesc>,
    pub nodes: Seq<NodeDesc>,
    pub groups: Seq<GroupDescV>,
    pub states: Seq<ReplicaState>,
}

/// The cluster's metadata (databases, collections, nodes, groups and replica
/// states), read and written through the root group's replica.
#[derive(Debug)]
pub struct Schema {
    leader: bool,
    cluster_id: Option<Vec<u8>>,
    next_id: u64,
    databases: Vec<DatabaseDesc>,
    collections: Vec<CollectionDesc>,
    nodes: Vec<NodeDesc>,
    groups: Vec<GroupDesc>,
    states: Vec<ReplicaState>,
}

/// The values of a sequence of group descriptors.
pub open spec fn groups_view(s: Seq<GroupDesc>) -> Seq<GroupDescV> {
    s.map_values(|g: GroupDesc| g@)
}

/// Whether a database of that name exists.
pub open spec fn has_database(dbs: Seq<DatabaseDesc>, name: Seq<char>) -> bool {
    exists|i: int| 0 <= i < dbs.len() && (#[trigger] dbs[i]).name@ == name
}

/// The position of the database of that name (meaningful where it exists).
pub open spec fn database_index(dbs: Seq<DatabaseDesc>, name: Seq<char>) -> int {
    choose|i: int| 0 <= i < dbs.len() && (#[trigger] dbs[i]).name@ == name
}

/// The database of that name, if any.
pub open spec fn database_named(dbs: Seq<DatabaseDesc>, name: Seq<char>) -> Option<DatabaseDesc> {
    if has_database(dbs, name) {
        Some(dbs[database_index(dbs, name)])
    } else {
        None
    }
}

/// Whether the database with id `parent` has a collection of that name.
pub open spec fn has_collection(cols: Seq<CollectionDesc>, parent: u64, name: Seq<char>) -> bool {
    exists|i: int|
        0 <= i < cols.len() && (#[trigger] cols[i]).parent_id == parent && cols[i].name@ == name
}

/// The position of the collection of that name in the database with id
/// `parent` (meaningful where it exists).
pub open spec fn collection_index(cols: Seq<CollectionDesc>, parent: u64, name: Seq<char>) -> int {
    choose|i: int|
        0 <= i < cols.len() && (#[trigger] cols[i]).parent_id == parent && cols[i].name@ == name
}

/// The collection of that name in the database with id `parent`, if any.
pub open spec fn collection_named(cols: Seq<CollectionDesc>, parent: u64, name: Seq<char>) -> Option<
    CollectionDesc,
> {
    if has_collection(cols, parent, name) {
        Some(cols[collection_index(cols, parent, name)])
    } else {
        None
    }
}

/// The collection of that name in the database of that name, if both exist.
pub open spec fn collection_in(v: SchemaV, database: Seq<char>, name: Seq<char>) -> Option<
    CollectionDesc,
> {
    match database_named(v.databases, database) {
        Some(db) => collection_named(v.collections, db.id, name),
        None => None,
    }
}

/// Whether some node has that id.
pub open spec fn has_node(nodes: Seq<NodeDesc>, id: u64) -> bool {
    exists|i: int| 0 <= i < nodes.len() && (#[trigger] nodes[i]).id == id
}

/// Whether some group has that id.
pub open spec fn has_group(groups: Seq<GroupDescV>, id: u64) -> bool {
    exists|i: int| 0 <= i < groups.len() && (#[trigger] groups[i]).id == id
}

/// The position of the group with that id (meaningful where it exists).
pub open spec fn group_index(groups: Seq<GroupDescV>, id: u64) -> int {
    choose|i: int| 0 <= i < groups.len() && (#[trigger] groups[i]).id == id
}

/// The group table after writing `g`: it replaces the group with the same id,
/// or is appended.
pub open spec fn put_group(groups: Seq<GroupDescV>, g: GroupDescV) -> Seq<GroupDescV> {
    if has_group(groups, g.id) {
        groups.update(group_index(groups, g.id), g)
    } else {
        groups.push(g)
    }
}

/// Whether some replica state belongs to the replica with that id.
pub open spec fn has_state(states: Seq<ReplicaState>, replica_id: u64) -> bool {
    exists|i: int| 0 <= i < states.len() && (#[trigger] states[i]).replica_id == replica_id
}

/// The position of the state of that replica (meaningful where it exists).
pub open spec fn state_index(states: Seq<ReplicaState>, replica_id: u64) -> int {
    choose|i: int| 0 <= i < states.len() && (#[trigger] states[i]).replica_id == replica_id
}

/// The state table after writing `x`: it replaces the state of the same
/// replica, or is appended.
pub open spec fn put_state(states: Seq<ReplicaState>, x: ReplicaState) -> Seq<ReplicaState> {
    if has_state(states, x.replica_id) {
        states.update(state_index(states, x.replica_id), x)
    } else {
        states.push(x)
    }
}

/// The metadata after applying one group report.
pub open spec fn apply_group_update(
    v: SchemaV,
    desc: Option<GroupDescV>,
    state: Option<ReplicaState>,
) -> SchemaV {
    SchemaV {
        groups: match desc {
            Some(g) => put_group(v.groups, g),
            None => v.groups,
        },
        states: match state {
            Some(x) => put_state(v.states, x),
            None => v.states,
        },
        ..v
    }
}

/// The states of the replicas of group `g`, in table order.
pub open spec fn states_of_group(states: Seq<ReplicaState>, g: u64) -> Seq<ReplicaState>
    decreases states.len(),
{
    if states.len() == 0 {
        Seq::empty()
    } else {
        let prev = states_of_group(states.drop_last(), g);
        if states.last().group_id == g {
            prev.push(states.last())
        } else {
            prev
        }
    }
}

/// A node as it joins: active, holding nothing yet.
pub open spec fn new_node(id: u64, addr: String) -> NodeDesc {
    NodeDesc {
        id,
        addr,
        capacity: NodeCapacity { replica_count: 0, leader_count: 0 },
        status: NodeStatus::Active,
    }
}

/// The replica that a sequence of states names as leader; where several do,
/// the last one.
pub open spec fn leader_of(states: Seq<ReplicaState>) -> Option<u64>
    decreases states.len(),
{
    if states.len() == 0 {
        None
    } else if states.last().role == RaftRole::Leader {
        Some(states.last().replica_id)
    } else {
        leader_of(states.drop_last())
    }
}

/// The state of group `g`: the states of its replicas and its leader.
pub open spec fn group_state_of(states: Seq<ReplicaState>, g: u64) -> GroupStateV {
    GroupStateV {
        group_id: g,
        leader_id: leader_of(states_of_group(states, g)),
        replicas: states_of_group(states, g),
    }
}

/// The node with that id (meaningful where it exists).
pub open spec fn node_with_id(nodes: Seq<NodeDesc>, id: u64) -> NodeDesc {
    nodes[choose|i: int| 0 <= i < nodes.len() && (#[trigger] nodes[i]).id == id]
}

/// The nodes that hold the given replicas, in replica order; a replica whose
/// node is unknown is left out.
pub open spec fn replica_nodes(replicas: Seq<ReplicaDesc>, nodes: Seq<NodeDesc>) -> Seq<NodeDesc>
    decreases replicas.len(),
{
    if replicas.len() == 0 {
        Seq::empty()
    } else {
        let prev = replica_nodes(replicas.drop_last(), nodes);
        if has_node(nodes, replicas.last().node_id) {
            prev.push(node_with_id(nodes, replicas.last().node_id))
        } else {
            prev
        }
    }
}

/// The nodes that hold a replica of the root group.
pub open spec fn root_replica_nodes(v: SchemaV) -> Seq<NodeDesc> {
    if has_group(v.groups, ROOT_GROUP_ID) {
        replica_nodes(v.groups[group_index(v.groups, ROOT_GROUP_ID)].replicas, v.nodes)
    } else {
        Seq::empty()
    }
}

/// The first position of a node with that id, where there is one.
pub open spec fn first_with_id(s: Seq<NodeDesc>, id: u64) -> int {
    choose|k: int| 0 <= k < s.len() && (#[trigger] s[k]).id == id && forall|j: int| 0 <= j < k ==> s[j].id != id
}

/// `s` with its first node of that id moved to the front; `s` itself where
/// no node has that id.
pub open spec fn moved_first(s: Seq<NodeDesc>, id: u64) -> Seq<NodeDesc> {
    if has_node(s, id) {
        seq![s[first_with_id(s, id)]] + s.remove(first_with_id(s, id))
    } else {
        s
    }
}

/// The epoch that a watcher last saw of group `id`; the last entry for an id counts.
pub open spec fn known_epoch(cur: Seq<(u64, u64)>, id: u64) -> Option<u64>
    decreases cur.len(),
{
    if cur.len() == 0 {
        None
    } else if cur.last().0 == id {
        Some(cur.last().1)
    } else {
        known_epoch(cur.drop_last(), id)
    }
}

/// Whether a watcher that saw `cur` lacks the current descriptor of group `g`.
pub open spec fn is_stale(g: GroupDescV, cur: Seq<(u64, u64)>) -> bool {
    match known_epoch(cur, g.id) {
        Some(e) => e < g.epoch,
        None => true,
    }
}

/// An update for each group whose descriptor the watcher lacks, in table order.
pub open spec fn stale_group_events(gs: Seq<GroupDescV>, cur: Seq<(u64, u64)>) -> Seq<UpdateEventV>
    decreases gs.len(),
{
    if gs.len() == 0 {
        Seq::empty()
    } else {
        let prev = stale_group_events(gs.drop_last(), cur);
        if is_stale(gs.last(), cur) {
            prev.push(UpdateEventV::Group(gs.last()))
        } else {
            prev
        }
    }
}

/// A delete for each group that the watcher saw and that no longer exists.
pub open spec fn removed_group_events(cur: Seq<(u64, u64)>, gs: Seq<GroupDescV>) -> Seq<DeleteEvent>
    decreases cur.len(),
{
    if cur.len() == 0 {
        Seq::empty()
    } else {
        let prev = removed_group_events(cur.drop_last(), gs);
        if has_group(gs, cur.last().0) {
            prev
        } else {
            prev.push(DeleteEvent::Group(cur.last().0))
        }
    }
}

/// The updates that bring a watcher that saw the groups `cur` up to date: all
/// nodes, the groups it lacks, the state of every group, all databases and
/// all collections.
pub open spec fn snapshot_updates(v: SchemaV, cur: Seq<(u64, u64)>) -> Seq<UpdateEventV> {
    v.nodes.map_values(|n: NodeDesc| UpdateEventV::Node(n)) + stale_group_events(v.groups, cur)
        + v.groups.map_values(
        |g: GroupDescV| UpdateEventV::GroupState(group_state_of(v.states, g.id)),
    ) + v.databases.map_values(|d: DatabaseDesc| UpdateEventV::Database(d))
        + v.collections.map_values(|c: CollectionDesc| UpdateEventV::Collection(c))
}

/// The deletes that bring a watcher that saw the groups `cur` up to date.
pub open spec fn snapshot_deletes(v: SchemaV, cur: Seq<(u64, u64)>) -> Seq<DeleteEvent> {
    removed_group_events(cur, v.groups)
}

/// Whether bootstrapping succeeds: the replica leads, and the cluster is set
/// up already or two ids are left for its first node and replica.
pub open spec fn can_bootstrap(v: SchemaV) -> bool {
    v.leader && (v.cluster_id is Some || v.next_id < u64::MAX - 1)
}

/// The metadata after bootstrapping: unchanged where the cluster is set up;
/// else the cluster id, a first node at `addr` and the root group with one
/// replica on it.
pub open spec fn bootstrapped(v: SchemaV, addr: String, cluster_id: Seq<u8>) -> SchemaV {
    if v.cluster_id is Some {
        v
    } else {
        SchemaV {
            cluster_id: Some(cluster_id),
            next_id: (v.next_id + 2) as u64,
            nodes: v.nodes.push(new_node(v.next_id, addr)),
            groups: put_group(
                v.groups,
                GroupDescV {
                    id: ROOT_GROUP_ID,
                    epoch: 0,
                    shards: Seq::empty(),
                    replicas: seq![
                        ReplicaDesc {
                            id: (v.next_id + 1) as u64,
                            node_id: v.next_id,
                            role: ReplicaRole::Voter,
                        },
                    ],
                },
            ),
            ..v
        }
    }
}

impl SchemaV {
    /// Names are unique in their scope, ids are unique, and every id handed out
    /// lies below `next_id`.
    pub open spec fn wf(&self) -> bool {
        &&& FIRST_ID <= self.next_id
        &&& forall|i: int, j: int|
            0 <= i < j < self.databases.len() ==> #[trigger] self.databases[i].name@
                != #[trigger] self.databases[j].name@
        &&& forall|i: int|
            0 <= i < self.databases.len() ==> (#[trigger] self.databases[i]).id < self.next_id
        &&& forall|i: int, j: int|
            0 <= i < j < self.collections.len() ==> !(#[trigger] self.collections[i].parent_id
                == #[trigger] self.collections[j].parent_id && self.collections[i].name@
                == self.collections[j].name@)
        &&& forall|i: int|
            0 <= i < self.collections.len() ==> (#[trigger] self.collections[i]).id
                < self.next_id
        &&& forall|i: int| 0 <= i < self.nodes.len() ==> (#[trigger] self.nodes[i]).id < self.next_id
        &&& forall|i: int, j: int|
            0 <= i < j < self.nodes.len() ==> #[trigger] self.nodes[i].id != #[trigger] self.nodes[j].id
        &&& forall|i: int, j: int|
            0 <= i < j < self.groups.len() ==> #[trigger] self.groups[i].id
                != #[trigger] self.groups[j].id
        &&& forall|i: int, j: int|
            0 <= i < j < self.states.len() ==> #[trigger] self.states[i].replica_id
                != #[trigger] self.states[j].replica_id
    }
}

impl View for Schema {
    type V = SchemaV;

    closed spec fn view(&self) -> SchemaV {
        SchemaV {
            leader: self.leader,
            cluster_id: match self.cluster_id {
                Some(c) => Some(c@),
                None => None,
            },
            next_id: self.next_id,
            databases: self.databases@,
            collections: self.collections@,
            nodes: self.nodes@,
            groups: groups_view(self.groups@),
            states: self.states@,
        }
    }
}

impl Schema {
    /// Empty metadata, read through a replica that leads its group.
    pub fn new() -> (r: Schema)
        ensures
            r@.wf(),
            r@ == (SchemaV {
                leader: true,
                cluster_id: None,
                next_id: FIRST_ID,
                databases: Seq::empty(),
                collections: Seq::empty(),
                nodes: Seq::empty(),
                groups: Seq::empty(),
                states: Seq::empty(),
            }),
    {
        let r = Schema {
            leader: true,
            cluster_id: None,
            next_id: FIRST_ID,
            databases: Vec::new(),
            collections: Vec::new(),
            nodes: Vec::new(),
            groups: Vec::new(),
            states: Vec::new(),
        };
        assert(groups_view(r.groups@) =~= Seq::empty());
        r
    }

    /// Records that the replica behind this schema no longer leads its group:
    /// every later call fails with `NotLeader`.
    pub fn lose_leadership(&mut self)
        ensures
            final(self)@ == (SchemaV { leader: false, ..old(self)@ }),
    {
        self.leader = false;
    }

    /// Records that the replica behind this schema leads its group again, for
    /// a new term over the same metadata.
    pub fn regain_leadership(&mut self)
        ensures
            final(self)@ == (SchemaV { leader: true, ..old(self)@ }),
    {
        self.leader = true;
    }

    /// Whether the replica behind this schema still leads its group.
    pub fn is_leader(&self) -> (r: bool)
        ensures
            r == self@.leader,
    {
        self.leader
    }

    fn find_database(&self, name: &str) -> (r: Option<usize>)
        requires
            self@.wf(),
        ensures
            r is Some <==> has_database(self@.databases, name@),
            r is Some ==> {
                &&& r->0 < self@.databases.len()
                &&& self@.databases[r->0 as int].name@ == name@
                &&& r->0 == database_index(self@.databases, name@)
            },
    {
        let key = name.to_owned();
        let mut i: usize = 0;
        while i < self.databases.len()
            invariant
                i <= self.databases@.len(),
                key@ == name@,
                self@.wf(),
                forall|j: int| 0 <= j < i ==> (#[trigger] self.databases@[j]).name@ != name@,
            decreases self.databases@.len() - i,
        {
            if self.databases[i].name == key {
                proof {
                    let dbs = self@.databases;
                    let k = choose|j: int| 0 <= j < dbs.len() && (#[trigger] dbs[j]).name@ == name@;
                    assert(dbs[i as int].name@ == name@);
                    if k != i as int {
                        if k < i { assert(dbs[k].name@ != name@); }
                        else { assert(dbs[i as int].name@ != dbs[k].name@); }
                    }
                }
                return Some(i);
            }
            i = i + 1;
        }
        None
    }

    fn find_collection(&self, parent: u64, name: &str) -> (r: Option<usize>)
        requires
            self@.wf(),
        ensures
            r is Some <==> has_collection(self@.collections, parent, name@),
            r is Some ==> {
                &&& r->0 < self@.collections.len()
                &&& r->0 == collection_index(self@.collections, parent, name@)
            },
    {
        let key = name.to_owned();
        let mut i: usize = 0;
        while i < self.collections.len()
            invariant
                i <= self.collections@.len(),
                key@ == name@,
                self@.wf(),
                forall|j: int| 0 <= j < i ==> !((#[trigger] self.collections@[j]).parent_id == parent
                    && self.collections@[j].name@ == name@),
            decreases self.collections@.len() - i,
        {
            if self.collections[i].parent_id == parent && self.collections[i].name == key {
                proof {
                    let cols = self@.collections;
                    let k = collection_index(cols, parent, name@);
                    assert(cols[i as int].parent_id == parent && cols[i as int].name@ == name@);
                    if k != i as int {
                        if k < i {
                            assert(!(cols[k].parent_id == parent && cols[k].name@ == name@));
                        } else {
                            assert(!(cols[i as int].parent_id == cols[k].parent_id
                                && cols[i as int].name@ == cols[k].name@));
                        }
                    }
                }
                return Some(i);
            }
            i = i + 1;
        }
        None
    }

    /// Adds a database under a fresh id.
    pub fn create_database(&mut self, name: String) -> (r: Result<DatabaseDesc, Error>)
        requires
            old(self)@.wf(),
        ensures
            final(self)@.wf(),
            !old(self)@.leader ==> r == Err::<DatabaseDesc, Error>(Error::NotLeader),
            old(self)@.leader && has_database(old(self)@.databases, name@)
                ==> r == Err::<DatabaseDesc, Error>(Error::AlreadyExists(name)),
            old(self)@.leader && !has_database(old(self)@.databases, name@)
                && old(self)@.next_id == u64::MAX ==> r == Err::<DatabaseDesc, Error>(Error::IdExhausted),
            old(self)@.leader && !has_database(old(self)@.databases, name@)
                && old(self)@.next_id < u64::MAX ==> r is Ok,
            r is Err ==> final(self)@ == old(self)@,
            r is Ok ==> {
                let d = r->Ok_0;
                &&& old(self)@.leader
                &&& !has_database(old(self)@.databases, name@)
                &&& old(self)@.next_id < u64::MAX
                &&& d == (DatabaseDesc { id: old(self)@.next_id, name })
                &&& final(self)@ == (SchemaV {
                    next_id: (old(self)@.next_id + 1) as u64,
                    databases: old(self)@.databases.push(d),
                    ..old(self)@
                })
            },
    {
        if !self.leader {
            return Err(Error::NotLeader);
        }
        if self.find_database(name.as_str()).is_some() {
            return Err(Error::AlreadyExists(name));
        }
        if self.next_id == u64::MAX {
            return Err(Error::IdExhausted);
        }
        let d = DatabaseDesc { id: self.next_id, name };
        self.databases.push(d.duplicate());
        self.next_id = self.next_id + 1;
        proof {
            let v = self@;
            assert forall|i: int, j: int| 0 <= i < j < v.databases.len() implies
                #[trigger] v.databases[i].name@ != #[trigger] v.databases[j].name@ by {
                if j == v.databases.len() - 1 {
                    assert(v.databases[i] == old(self)@.databases[i]);
                }
            }
        }
        Ok(d)
    }

    /// The database of that name, if any.
    pub fn get_database(&self, name: &str) -> (r: Result<Option<DatabaseDesc>, Error>)
        requires
            self@.wf(),
        ensures
            !self@.leader ==> r == Err::<Option<DatabaseDesc>, Error>(Error::NotLeader),
            self@.leader ==> r == Ok::<Option<DatabaseDesc>, Error>(database_named(self@.databases, name@)),
    {
        if !self.leader {
            return Err(Error::NotLeader);
        }
        match self.find_database(name) {
            Some(i) => Ok(Some(self.databases[i].duplicate())),
            None => Ok(None),
        }
    }

    /// Removes the database of that name and returns its id; `None`, and no
    /// change, when there is none.
    pub fn delete_database(&mut self, name: &str) -> (r: Result<Option<u64>, Error>)
        requires
            old(self)@.wf(),
        ensures
            final(self)@.wf(),
            !old(self)@.leader ==> r == Err::<Option<u64>, Error>(Error::NotLeader),
            old(self)@.leader && !has_database(old(self)@.databases, name@)
                ==> r == Ok::<Option<u64>, Error>(None),
            old(self)@.leader && has_database(old(self)@.databases, name@) ==> {
                let k = database_index(old(self)@.databases, name@);
                &&& r == Ok::<Option<u64>, Error>(Some(old(self)@.databases[k].id))
                &&& final(self)@ == (SchemaV {
                    databases: old(self)@.databases.remove(k),
                    ..old(self)@
                })
            },
            !(old(self)@.leader && has_database(old(self)@.databases, name@)) ==> final(self)@ == old(self)@,
    {
        if !self.leader {
            return Err(Error::NotLeader);
        }
        match self.find_database(name) {
            Some(i) => {
                let d = self.databases.remove(i);
                proof {
                    let v = self@;
                    let o = old(self)@;
                    assert forall|a: int, b: int| 0 <= a < b < v.databases.len() implies
                        #[trigger] v.databases[a].name@ != #[trigger] v.databases[b].name@ by {
                        let a2 = if a < i { a } else { a + 1 };
                        let b2 = if b < i { b } else { b + 1 };
                        assert(v.databases[a] == o.databases[a2]);
                        assert(v.databases[b] == o.databases[b2]);
                    }
                    assert forall|a: int| 0 <= a < v.databases.len() implies
                        (#[trigger] v.databases[a]).id < v.next_id by {
                        let a2 = if a < i { a } else { a + 1 };
                        assert(v.databases[a] == o.databases[a2]);
                    }
                }
                Ok(Some(d.id))
            },
            None => Ok(None),
        }
    }

    /// Adds a collection to the database with id `parent_id` under a fresh id.
    pub fn create_collection(&mut self, name: String, parent_id: u64) -> (r: Result<CollectionDesc, Error>)
        requires
            old(self)@.wf(),
        ensures
            final(self)@.wf(),
            !old(self)@.leader ==> r == Err::<CollectionDesc, Error>(Error::NotLeader),
            old(self)@.leader && has_collection(old(self)@.collections, parent_id, name@)
                ==> r == Err::<CollectionDesc, Error>(Error::AlreadyExists(name)),
            old(self)@.leader && !has_collection(old(self)@.collections, parent_id, name@)
                && old(self)@.next_id == u64::MAX ==> r == Err::<CollectionDesc, Error>(Error::IdExhausted),
            old(self)@.leader && !has_collection(old(self)@.collections, parent_id, name@)
                && old(self)@.next_id < u64::MAX ==> r is Ok,
            r is Err ==> final(self)@ == old(self)@,
            r is Ok ==> {
                let c = r->Ok_0;
                &&& old(self)@.leader
                &&& !has_collection(old(self)@.collections, parent_id, name@)
                &&& old(self)@.next_id < u64::MAX
                &&& c == (CollectionDesc { id: old(self)@.next_id, name, parent_id })
                &&& final(self)@ == (SchemaV {
                    next_id: (old(self)@.next_id + 1) as u64,
                    collections: old(self)@.collections.push(c),
                    ..old(self)@
                })
            },
    {
        if !self.leader {
            return Err(Error::NotLeader);
        }
        if self.find_collection(parent_id, name.as_str()).is_some() {
            return Err(Error::AlreadyExists(name));
        }
        if self.next_id == u64::MAX {
            return Err(Error::IdExhausted);
        }
        let c = CollectionDesc { id: self.next_id, name, parent_id };
        self.collections.push(c.duplicate());
        self.next_id = self.next_id + 1;
        proof {
            let v = self@;
            assert forall|i: int, j: int| 0 <= i < j < v.collections.len() implies
                !(#[trigger] v.collections[i].parent_id == #[trigger] v.collections[j].parent_id
                    && v.collections[i].name@ == v.collections[j].name@) by {
                if j == v.collections.len() - 1 {
                    assert(v.collections[i] == old(self)@.collections[i]);
                }
            }
        }
        Ok(c)
    }

    /// The collection of that name in the database of that name, if both exist.
    pub fn get_collection(&self, database: &str, name: &str) -> (r: Result<Option<CollectionDesc>, Error>)
        requires
            self@.wf(),
        ensures
            !self@.leader ==> r == Err::<Option<CollectionDesc>, Error>(Error::NotLeader),
            self@.leader ==> r == Ok::<Option<CollectionDesc>, Error>(collection_in(self@, database@, name@)),
    {
        if !self.leader {
            return Err(Error::NotLeader);
        }
        match self.find_database(database) {
            Some(d) => match self.find_collection(self.databases[d].id, name) {
                Some(i) => Ok(Some(self.collections[i].duplicate())),
                None => Ok(None),
            },
            None => Ok(None),
        }
    }

    /// Removes the collection of that name from the database with id `parent`
    /// and returns its id; `None`, and no change, when there is none.
    pub fn delete_collection(&mut self, parent: u64, name: &str) -> (r: Result<Option<u64>, Error>)
        requires
            old(self)@.wf(),
        ensures
            final(self)@.wf(),
            !old(self)@.leader ==> r == Err::<Option<u64>, Error>(Error::NotLeader),
            old(self)@.leader && !has_collection(old(self)@.collections, parent, name@)
                ==> r == Ok::<Option<u64>, Error>(None),
            old(self)@.leader && has_collection(old(self)@.collections, parent, name@) ==> {
                let k = collection_index(old(self)@.collections, parent, name@);
                &&& r == Ok::<Option<u64>, Error>(Some(old(self)@.collections[k].id))
                &&& final(self)@ == (SchemaV {
                    collections: old(self)@.collections.remove(k),
                    ..old(self)@
                })
            },
            !(old(self)@.leader && has_collection(old(self)@.collections, parent, name@))
                ==> final(self)@ == old(self)@,
    {
        if !self.leader {
            return Err(Error::NotLeader);
        }
        match self.find_collection(parent, name) {
            Some(i) => {
                let c = self.collections.remove(i);
                proof {
                    let v = self@;
                    let o = old(self)@;
                    assert forall|a: int, b: int| 0 <= a < b < v.collections.len() implies
                        !(#[trigger] v.collections[a].parent_id == #[trigger] v.collections[b].parent_id
                            && v.collections[a].name@ == v.collections[b].name@) by {
                        let a2 = if a < i { a } else { a + 1 };
                        let b2 = if b < i { b } else { b + 1 };
                        assert(v.collections[a] == o.collections[a2]);
                        assert(v.collections[b] == o.collections[b2]);
                    }
                    assert forall|a: int| 0 <= a < v.collections.len() implies
                        (#[trigger] v.collections[a]).id < v.next_id by {
                        let a2 = if a < i { a } else { a + 1 };
                        assert(v.collections[a] == o.collections[a2]);
                    }
                }
                Ok(Some(c.id))
            },
            None => Ok(None),
        }
    }

    /// Adds a node under a fresh id, one that no node has had before.
    pub fn add_node(&mut self, addr: String) -> (r: Result<NodeDesc, Error>)
        requires
            old(self)@.wf(),
        ensures
            final(self)@.wf(),
            !old(self)@.leader ==> r == Err::<NodeDesc, Error>(Error::NotLeader),
            old(self)@.leader && old(self)@.next_id == u64::MAX
                ==> r == Err::<NodeDesc, Error>(Error::IdExhausted),
            old(self)@.leader && old(self)@.next_id < u64::MAX ==> r is Ok,
            r is Err ==> final(self)@ == old(self)@,
            r is Ok ==> {
                let n = r->Ok_0;
                &&& old(self)@.leader
                &&& old(self)@.next_id < u64::MAX
                &&& n == new_node(old(self)@.next_id, addr)
                &&& !has_node(old(self)@.nodes, n.id)
                &&& final(self)@ == (SchemaV {
                    next_id: (old(self)@.next_id + 1) as u64,
                    nodes: old(self)@.nodes.push(n),
                    ..old(self)@
                })
            },
    {
        if !self.leader {
            return Err(Error::NotLeader);
        }
        if self.next_id == u64::MAX {
            return Err(Error::IdExhausted);
        }
        let n = NodeDesc {
            id: self.next_id,
            addr,
            capacity: NodeCapacity { replica_count: 0, leader_count: 0 },
            status: NodeStatus::Active,
        };
        self.nodes.push(n.duplicate());
        self.next_id = self.next_id + 1;
        proof {
            let v = self@;
            let o = old(self)@;
            assert forall|i: int, j: int| 0 <= i < j < v.nodes.len() implies
                #[trigger] v.nodes[i].id != #[trigger] v.nodes[j].id by {
                assert(v.nodes[i] == o.nodes[i] || i == o.nodes.len());
            }
            assert(!has_node(o.nodes, n.id));
        }
        Ok(n)
    }

    fn find_group(&self, id: u64) -> (r: Option<usize>)
        requires
            self@.wf(),
        ensures
            r is Some <==> has_group(self@.groups, id),
            r is Some ==> r->0 < self@.groups.len() && r->0 == group_index(self@.groups, id),
    {
        let mut i: usize = 0;
        while i < self.groups.len()
            invariant
                i <= self.groups@.len(),
                self@.wf(),
                forall|j: int| 0 <= j < i ==> (#[trigger] self@.groups[j]).id != id,
            decreases self.groups@.len() - i,
        {
            if self.groups[i].id == id {
                proof {
                    let gs = self@.groups;
                    assert(gs[i as int].id == id);
                    let k = group_index(gs, id);
                    if k != i as int {
                        if k < i { assert(gs[k].id != id); } else { assert(gs[i as int].id != gs[k].id); }
                    }
                }
                return Some(i);
            }
            i = i + 1;
        }
        None
    }

    fn find_state(&self, replica_id: u64) -> (r: Option<usize>)
        requires
            self@.wf(),
        ensures
            r is Some <==> has_state(self@.states, replica_id),
            r is Some ==> r->0 < self@.states.len() && r->0 == state_index(self@.states, replica_id),
    {
        let mut i: usize = 0;
        while i < self.states.len()
            invariant
                i <= self.states@.len(),
                self@.wf(),
                forall|j: int| 0 <= j < i ==> (#[trigger] self@.states[j]).replica_id != replica_id,
            decreases self.states@.len() - i,
        {
            if self.states[i].replica_id == replica_id {
                proof {
                    let ss = self@.states;
                    assert(ss[i as int].replica_id == replica_id);
                    let k = state_index(ss, replica_id);
                    if k != i as int {
                        if k < i { assert(ss[k].replica_id != replica_id); }
                        else { assert(ss[i as int].replica_id != ss[k].replica_id); }
                    }
                }
                return Some(i);
            }
            i = i + 1;
        }
        None
    }

    fn put_group_desc(&mut self, g: GroupDesc)
        requires
            old(self)@.wf(),
        ensures
            final(self)@.wf(),
            final(self)@ == (SchemaV { groups: put_group(old(self)@.groups, g@), ..old(self)@ }),
    {
        let ghost gv = g@;
        match self.find_group(g.id) {
            Some(i) => {
                self.groups.set(i, g);
                proof {
                    assert(groups_view(self.groups@) =~= groups_view(old(self).groups@).update(i as int, gv));
                    let v = self@;
                    let o = old(self)@;
                    assert forall|a: int, b: int| 0 <= a < b < v.groups.len() implies
                        #[trigger] v.groups[a].id != #[trigger] v.groups[b].id by {
                        assert(v.groups[a].id == o.groups[a].id);
                        assert(v.groups[b].id == o.groups[b].id);
                    }
                }
            },
            None => {
                self.groups.push(g);
                proof {
                    assert(groups_view(self.groups@) =~= groups_view(old(self).groups@).push(gv));
                    let v = self@;
                    let o = old(self)@;
                    assert forall|a: int, b: int| 0 <= a < b < v.groups.len() implies
                        #[trigger] v.groups[a].id != #[trigger] v.groups[b].id by {
                        if b == o.groups.len() {
                            assert(v.groups[a] == o.groups[a]);
                        }
                    }
                }
            },
        }
    }

    fn put_replica_state(&mut self, x: ReplicaState)
        requires
            old(self)@.wf(),
        ensures
            final(self)@.wf(),
            final(self)@ == (SchemaV { states: put_state(old(self)@.states, x), ..old(self)@ }),
    {
        match self.find_state(x.replica_id) {
            Some(i) => {
                self.states.set(i, x);
                proof {
                    let v = self@;
                    let o = old(self)@;
                    assert forall|a: int, b: int| 0 <= a < b < v.states.len() implies
                        #[trigger] v.states[a].replica_id != #[trigger] v.states[b].replica_id by {
                        assert(v.states[a].replica_id == o.states[a].replica_id);
                        assert(v.states[b].replica_id == o.states[b].replica_id);
                    }
                }
            },
            None => {
                self.states.push(x);
                proof {
                    let v = self@;
                    let o = old(self)@;
                    assert forall|a: int, b: int| 0 <= a < b < v.states.len() implies
                        #[trigger] v.states[a].replica_id != #[trigger] v.states[b].replica_id by {
                        if b == o.states.len() {
                            assert(v.states[a] == o.states[a]);
                        }
                    }
                }
            },
        }
    }

    /// Writes a group's new descriptor and one replica's state, whichever are given.
    pub fn update_group_replica(&mut self, desc: Option<GroupDesc>, state: Option<ReplicaState>) -> (r:
        Result<(), Error>)
        requires
            old(self)@.wf(),
        ensures
            final(self)@.wf(),
            !old(self)@.leader ==> r == Err::<(), Error>(Error::NotLeader) && final(self)@ == old(self)@,
            old(self)@.leader ==> r == Ok::<(), Error>(()) && final(self)@ == apply_group_update(
                old(self)@,
                match desc {
                    Some(g) => Some(g@),
                    None => None,
                },
                state,
            ),
    {
        if !self.leader {
            return Err(Error::NotLeader);
        }
        match desc {
            Some(g) => self.put_group_desc(g),
            None => {},
        }
        match state {
            Some(x) => self.put_replica_state(x),
            None => {},
        }
        Ok(())
    }

    /// Sets up the cluster's first metadata, once: the cluster id, a first node
    /// at `addr`, and the root group with one replica on that node. Does
    /// nothing where the cluster is set up already.
    pub fn try_bootstrap(&mut self, addr: String, cluster_id: Vec<u8>) -> (r: Result<(), Error>)
        requires
            old(self)@.wf(),
        ensures
            final(self)@.wf(),
            !old(self)@.leader ==> r == Err::<(), Error>(Error::NotLeader),
            old(self)@.leader && old(self)@.cluster_id is None && old(self)@.next_id >= u64::MAX - 1
                ==> r == Err::<(), Error>(Error::IdExhausted),
            r is Ok <==> can_bootstrap(old(self)@),
            r is Err ==> final(self)@ == old(self)@,
            r is Ok ==> final(self)@ == bootstrapped(old(self)@, addr, cluster_id@),
    {
        if !self.leader {
            return Err(Error::NotLeader);
        }
        if self.cluster_id.is_some() {
            return Ok(());
        }
        if self.next_id >= u64::MAX - 1 {
            return Err(Error::IdExhausted);
        }
        let node_id = self.next_id;
        let replica_id = node_id + 1;
        let node = NodeDesc {
            id: node_id,
            addr,
            capacity: NodeCapacity { replica_count: 0, leader_count: 0 },
            status: NodeStatus::Active,
        };
        self.nodes.push(node);
        self.next_id = node_id + 2;
        proof {
            let v = self@;
            let o = old(self)@;
            assert forall|i: int, j: int| 0 <= i < j < v.nodes.len() implies
                #[trigger] v.nodes[i].id != #[trigger] v.nodes[j].id by {
                assert(v.nodes[i] == o.nodes[i] || i == o.nodes.len());
            }
        }
        let mut replicas: Vec<ReplicaDesc> = Vec::new();
        replicas.push(ReplicaDesc { id: replica_id, node_id, role: ReplicaRole::Voter });
        let root = GroupDesc { id: ROOT_GROUP_ID, epoch: 0, shards: Vec::new(), replicas };
        proof {
            assert(root@.replicas =~= seq![ReplicaDesc { id: replica_id, node_id, role: ReplicaRole::Voter }]);
            assert(root@.shards =~= Seq::<ShardDescV>::empty());
        }
        self.put_group_desc(root);
        self.cluster_id = Some(cluster_id);
        Ok(())
    }

    /// The cluster id, once the cluster is set up.
    pub fn cluster_id(&self) -> (r: Result<Option<Vec<u8>>, Error>)
        ensures
            !self@.leader ==> r is Err && r->Err_0 == Error::NotLeader,
            self@.leader ==> r is Ok && match r->Ok_0 {
                Some(c) => self@.cluster_id == Some(c@),
                None => self@.cluster_id is None,
            },
    {
        if !self.leader {
            return Err(Error::NotLeader);
        }
        match &self.cluster_id {
            Some(c) => Ok(Some(copy_vec(c))),
            None => Ok(None),
        }
    }

    /// The state of group `g`, as the replica state table holds it.
    pub fn group_state(&self, g: u64) -> (r: Result<GroupState, Error>)
        ensures
            !self@.leader ==> r is Err && r->Err_0 == Error::NotLeader,
            self@.leader ==> r is Ok && r->Ok_0@ == group_state_of(self@.states, g),
    {
        if !self.leader {
            return Err(Error::NotLeader);
        }
        Ok(self.state_of_group(g))
    }

    fn state_of_group(&self, g: u64) -> (r: GroupState)
        ensures
            r@ == group_state_of(self@.states, g),
    {
        let mut out: Vec<ReplicaState> = Vec::new();
        let mut leader: Option<u64> = None;
        let mut i: usize = 0;
        while i < self.states.len()
            invariant
                i <= self.states@.len(),
                out@ == states_of_group(self.states@.subrange(0, i as int), g),
                leader == leader_of(out@),
            decreases self.states@.len() - i,
        {
            proof {
                assert(self.states@.subrange(0, i as int + 1).drop_last() =~= self.states@.subrange(0, i as int));
            }
            if self.states[i].group_id == g {
                let ghost before = out@;
                out.push(self.states[i]);
                proof {
                    assert(out@.drop_last() =~= before);
                }
                if self.states[i].role == RaftRole::Leader {
                    leader = Some(self.states[i].replica_id);
                }
            }
            i = i + 1;
        }
        proof {
            assert(self.states@.subrange(0, self.states@.len() as int) =~= self.states@);
        }
        GroupState { group_id: g, leader_id: leader, replicas: out }
    }

    fn find_node(&self, id: u64) -> (r: Option<usize>)
        requires
            self@.wf(),
        ensures
            r is Some <==> has_node(self@.nodes, id),
            r is Some ==> r->0 < self@.nodes.len() && self@.nodes[r->0 as int] == node_with_id(self@.nodes, id),
    {
        let mut i: usize = 0;
        while i < self.nodes.len()
            invariant
                i <= self.nodes@.len(),
                self@.wf(),
                forall|j: int| 0 <= j < i ==> (#[trigger] self@.nodes[j]).id != id,
            decreases self.nodes@.len() - i,
        {
            if self.nodes[i].id == id {
                proof {
                    let ns = self@.nodes;
                    assert(ns[i as int].id == id);
                    let k = choose|j: int| 0 <= j < ns.len() && (#[trigger] ns[j]).id == id;
                    if k != i as int {
                        if k < i { assert(ns[k].id != id); } else { assert(ns[i as int].id != ns[k].id); }
                    }
                }
                return Some(i);
            }
            i = i + 1;
        }
        None
    }

    /// Every node, in the order they joined.
    pub fn list_nodes(&self) -> (r: Result<Vec<NodeDesc>, Error>)
        ensures
            !self@.leader ==> r is Err && r->Err_0 == Error::NotLeader,
            self@.leader ==> r is Ok && r->Ok_0@ == self@.nodes,
    {
        if !self.leader {
            return Err(Error::NotLeader);
        }
        let mut out: Vec<NodeDesc> = Vec::new();
        let mut i: usize = 0;
        while i < self.nodes.len()
            invariant
                i <= self.nodes@.len(),
                out@ == self.nodes@.subrange(0, i as int),
            decreases self.nodes@.len() - i,
        {
            out.push(self.nodes[i].duplicate());
            i = i + 1;
        }
        proof {
            assert(self.nodes@.subrange(0, self.nodes@.len() as int) =~= self.nodes@);
        }
        Ok(out)
    }

    /// The nodes that hold a replica of the root group, in replica order.
    pub fn get_root_replicas(&self) -> (r: Result<Vec<NodeDesc>, Error>)
        requires
            self@.wf(),
        ensures
            !self@.leader ==> r is Err && r->Err_0 == Error::NotLeader,
            self@.leader ==> r is Ok && r->Ok_0@ == root_replica_nodes(self@),
    {
        if !self.leader {
            return Err(Error::NotLeader);
        }
        let mut out: Vec<NodeDesc> = Vec::new();
        match self.find_group(ROOT_GROUP_ID) {
            None => Ok(out),
            Some(gi) => {
                let reps = &self.groups[gi].replicas;
                proof {
                    assert(self@.groups[gi as int].replicas == reps@);
                }
                let mut i: usize = 0;
                while i < reps.len()
                    invariant
                        i <= reps@.len(),
                        self@.wf(),
                        out@ == replica_nodes(reps@.subrange(0, i as int), self@.nodes),
                    decreases reps@.len() - i,
                {
                    proof {
                        assert(reps@.subrange(0, i as int + 1).drop_last() =~= reps@.subrange(0, i as int));
                    }
                    match self.find_node(reps[i].node_id) {
                        Some(k) => out.push(self.nodes[k].duplicate()),
                        None => {},
                    }
                    i = i + 1;
                }
                proof {
                    assert(reps@.subrange(0, reps@.len() as int) =~= reps@);
                }
                Ok(out)
            },
        }
    }

    fn push_nodes(&self, out: &mut Vec<UpdateEvent>)
        ensures
            updates_view(final(out)@) == updates_view(old(out)@) + self@.nodes.map_values(
                |n: NodeDesc| UpdateEventV::Node(n),
            ),
    {
        let ghost f = |n: NodeDesc| UpdateEventV::Node(n);
        let mut i: usize = 0;
        while i < self.nodes.len()
            invariant
                i <= self.nodes@.len(),
                f == (|n: NodeDesc| UpdateEventV::Node(n)),
                updates_view(out@) == updates_view(old(out)@) + self@.nodes.subrange(0, i as int).map_values(f),
            decreases self.nodes@.len() - i,
        {
            let ghost before = out@;
            out.push(UpdateEvent::Node(self.nodes[i].duplicate()));
            proof {
                assert(updates_view(out@) =~= updates_view(before).push(f(self@.nodes[i as int])));
                assert(self@.nodes.subrange(0, i as int + 1).map_values(f)
                    =~= self@.nodes.subrange(0, i as int).map_values(f).push(f(self@.nodes[i as int])));
            }
            i = i + 1;
        }
        proof {
            assert(self@.nodes.subrange(0, self@.nodes.len() as int) =~= self@.nodes);
        }
    }

    fn push_databases(&self, out: &mut Vec<UpdateEvent>)
        ensures
            updates_view(final(out)@) == updates_view(old(out)@) + self@.databases.map_values(
                |d: DatabaseDesc| UpdateEventV::Database(d),
            ),
    {
        let ghost f = |d: DatabaseDesc| UpdateEventV::Database(d);
        let mut i: usize = 0;
        while i < self.databases.len()
            invariant
                i <= self.databases@.len(),
                f == (|d: DatabaseDesc| UpdateEventV::Database(d)),
                updates_view(out@) == updates_view(old(out)@) + self@.databases.subrange(0, i as int).map_values(f),
            decreases self.databases@.len() - i,
        {
            let ghost before = out@;
            out.push(UpdateEvent::Database(self.databases[i].duplicate()));
            proof {
                assert(updates_view(out@) =~= updates_view(before).push(f(self@.databases[i as int])));
                assert(self@.databases.subrange(0, i as int + 1).map_values(f)
                    =~= self@.databases.subrange(0, i as int).map_values(f).push(f(self@.databases[i as int])));
            }
            i = i + 1;
        }
        proof {
            assert(self@.databases.subrange(0, self@.databases.len() as int) =~= self@.databases);
        }
    }

    fn push_collections(&self, out: &mut Vec<UpdateEvent>)
        ensures
            updates_view(final(out)@) == updates_view(old(out)@) + self@.collections.map_values(
                |c: CollectionDesc| UpdateEventV::Collection(c),
            ),
    {
        let ghost f = |c: CollectionDesc| UpdateEventV::Collection(c);
        let mut i: usize = 0;
        while i < self.collections.len()
            invariant
                i <= self.collections@.len(),
                f == (|c: CollectionDesc| UpdateEventV::Collection(c)),
                updates_view(out@) == updates_view(old(out)@) + self@.collections.subrange(0, i as int).map_values(f),
            decreases self.collections@.len() - i,
        {
            let ghost before = out@;
            out.push(UpdateEvent::Collection(self.collections[i].duplicate()));
            proof {
                assert(updates_view(out@) =~= updates_view(before).push(f(self@.collections[i as int])));
                assert(self@.collections.subrange(0, i as int + 1).map_values(f)
                    =~= self@.collections.subrange(0, i as int).map_values(f).push(f(self@.collections[i as int])));
            }
            i = i + 1;
        }
        proof {
            assert(self@.collections.subrange(0, self@.collections.len() as int) =~= self@.collections);
        }
    }

    fn push_group_states(&self, out: &mut Vec<UpdateEvent>)
        ensures
            updates_view(final(out)@) == updates_view(old(out)@) + self@.groups.map_values(
                |g: GroupDescV| UpdateEventV::GroupState(group_state_of(self@.states, g.id)),
            ),
    {
        let ghost f = |g: GroupDescV| UpdateEventV::GroupState(group_state_of(self@.states, g.id));
        let mut i: usize = 0;
        while i < self.groups.len()
            invariant
                i <= self.groups@.len(),
                f == (|g: GroupDescV| UpdateEventV::GroupState(group_state_of(self@.states, g.id))),
                updates_view(out@) == updates_view(old(out)@) + self@.groups.subrange(0, i as int).map_values(f),
            decreases self.groups@.len() - i,
        {
            let ghost before = out@;
            let st = self.state_of_group(self.groups[i].id);
            out.push(UpdateEvent::GroupState(st));
            proof {
                assert(self@.groups[i as int].id == self.groups@[i as int].id);
                assert(updates_view(out@) =~= updates_view(before).push(f(self@.groups[i as int])));
                assert(self@.groups.subrange(0, i as int + 1).map_values(f)
                    =~= self@.groups.subrange(0, i as int).map_values(f).push(f(self@.groups[i as int])));
            }
            i = i + 1;
        }
        proof {
            assert(self@.groups.subrange(0, self@.groups.len() as int) =~= self@.groups);
        }
    }

    fn push_stale_groups(&self, cur: &Vec<(u64, u64)>, out: &mut Vec<UpdateEvent>)
        ensures
            updates_view(final(out)@) == updates_view(old(out)@) + stale_group_events(self@.groups, cur@),
    {
        let mut i: usize = 0;
        while i < self.groups.len()
            invariant
                i <= self.groups@.len(),
                updates_view(out@) == updates_view(old(out)@) + stale_group_events(
                    self@.groups.subrange(0, i as int),
                    cur@,
                ),
            decreases self.groups@.len() - i,
        {
            proof {
                assert(self@.groups.subrange(0, i as int + 1).drop_last() =~= self@.groups.subrange(0, i as int));
            }
            let ghost before = out@;
            let stale = match epoch_of(cur, self.groups[i].id) {
                Some(e) => e < self.groups[i].epoch,
                None => true,
            };
            if stale {
                out.push(UpdateEvent::Group(self.groups[i].duplicate()));
                proof {
                    assert(updates_view(out@) =~= updates_view(before).push(UpdateEventV::Group(self@.groups[i as int])));
                }
            }
            i = i + 1;
        }
        proof {
            assert(self@.groups.subrange(0, self@.groups.len() as int) =~= self@.groups);
        }
    }

    fn removed_groups(&self, cur: &Vec<(u64, u64)>) -> (r: Vec<DeleteEvent>)
        requires
            self@.wf(),
        ensures
            r@ == removed_group_events(cur@, self@.groups),
    {
        let mut out: Vec<DeleteEvent> = Vec::new();
        let mut i: usize = 0;
        while i < cur.len()
            invariant
                i <= cur@.len(),
                self@.wf(),
                out@ == removed_group_events(cur@.subrange(0, i as int), self@.groups),
            decreases cur@.len() - i,
        {
            proof {
                assert(cur@.subrange(0, i as int + 1).drop_last() =~= cur@.subrange(0, i as int));
            }
            let (id, _) = cur[i];
            if self.find_group(id).is_none() {
                out.push(DeleteEvent::Group(id));
            }
            i = i + 1;
        }
        proof {
            assert(cur@.subrange(0, cur@.len() as int) =~= cur@);
        }
        out
    }

    /// What a new watcher needs to catch up, given the epoch it last saw of
    /// each group: the updates and deletes of the snapshot.
    pub fn list_all_events(&self, cur_groups: &Vec<(u64, u64)>) -> (r: Result<
        (Vec<UpdateEvent>, Vec<DeleteEvent>),
        Error,
    >)
        requires
            self@.wf(),
        ensures
            !self@.leader ==> r is Err && r->Err_0 == Error::NotLeader,
            self@.leader ==> r is Ok && updates_view(r->Ok_0.0@) == snapshot_updates(self@, cur_groups@)
                && r->Ok_0.1@ == snapshot_deletes(self@, cur_groups@),
    {
        if !self.leader {
            return Err(Error::NotLeader);
        }
        let mut out: Vec<UpdateEvent> = Vec::new();
        self.push_nodes(&mut out);
        self.push_stale_groups(cur_groups, &mut out);
        self.push_group_states(&mut out);
        self.push_databases(&mut out);
        self.push_collections(&mut out);
        let deletes = self.removed_groups(cur_groups);
        proof {
            assert(updates_view(Seq::<UpdateEvent>::empty()) =~= Seq::empty());
            assert(updates_view(out@) =~= snapshot_updates(self@, cur_groups@));
        }
        Ok((out, deletes))
    }
}

/// The epoch recorded for group `id` in `cur`; the last entry for an id counts.
fn epoch_of(cur: &Vec<(u64, u64)>, id: u64) -> (r: Option<u64>)
    ensures
        r == known_epoch(cur@, id),
{
    let mut found: Option<u64> = None;
    let mut i: usize = 0;
    while i < cur.len()
        invariant
            i <= cur@.len(),
            found == known_epoch(cur@.subrange(0, i as int), id),
        decreases cur@.len() - i,
    {
        proof {
            assert(cur@.subrange(0, i as int + 1).drop_last() =~= cur@.subrange(0, i as int));
        }
        if cur[i].0 == id {
            found = Some(cur[i].1);
        }
        i = i + 1;
    }
    proof {
        assert(cur@.subrange(0, cur@.len() as int) =~= cur@);
    }
    found
}

/// Moves the first node with id `node_id` to the front, keeping the order of
/// the others; leaves the list as it is where no node has that id.
pub fn move_first(nodes: &mut Vec<NodeDesc>, node_id: u64)
    ensures
        final(nodes)@ == moved_first(old(nodes)@, node_id),
{
    let mut i: usize = 0;
    while i < nodes.len()
        invariant
            i <= nodes@.len(),
            *nodes == *old(nodes),
            forall|j: int| 0 <= j < i ==> (#[trigger] nodes@[j]).id != node_id,
        decreases nodes@.len() - i,
    {
        if nodes[i].id == node_id {
            proof {
                let s = nodes@;
                let k = first_with_id(s, node_id);
                assert(0 <= i < s.len() && s[i as int].id == node_id && forall|j: int| 0 <= j < i ==> s[j].id != node_id);
                if k < i { assert(s[k].id != node_id); }
                if k > i { assert(s[i as int].id != node_id); }
            }
            let n = nodes.remove(i);
            nodes.insert(0, n);
            proof {
                let s = old(nodes)@;
                assert(nodes@ =~= seq![s[i as int]] + s.remove(i as int));
            }
            return;
        }
        i = i + 1;
    }
}

/// The metadata after a database was added as `d`.
pub open spec fn with_database(v: SchemaV, d: DatabaseDesc) -> SchemaV {
    SchemaV { next_id: (v.next_id + 1) as u64, databases: v.databases.push(d), ..v }
}

/// Once a database is created, looking it up by name finds exactly it.
pub proof fn lemma_get_after_create(v: SchemaV, d: DatabaseDesc)
    requires
        v.wf(),
        !has_database(v.databases, d.name@),
    ensures
        database_named(with_database(v, d).databases, d.name@) == Some(d),
{
    let dbs = v.databases.push(d);
    let last = v.databases.len() as int;
    assert(dbs[last].name@ == d.name@);
    let k = database_index(dbs, d.name@);
    if k != last {
        assert(v.databases[k] == dbs[k]);
    }
}

/// Once a database is deleted, looking it up by name finds nothing.
pub proof fn lemma_get_after_delete(v: SchemaV, name: Seq<char>)
    requires
        v.wf(),
        has_database(v.databases, name),
    ensures
        database_named(v.databases.remove(database_index(v.databases, name)), name) is None,
{
    let k = database_index(v.databases, name);
    let dbs = v.databases.remove(k);
    if has_database(dbs, name) {
        let j = choose|j: int| 0 <= j < dbs.len() && (#[trigger] dbs[j]).name@ == name;
        let j2 = if j < k { j } else { j + 1 };
        assert(dbs[j] == v.databases[j2]);
        if j2 < k {
            assert(v.databases[j2].name@ != v.databases[k].name@);
        } else {
            assert(v.databases[k].name@ != v.databases[j2].name@);
        }
    }
}

/// Moving a node first keeps every node: where one has the id, the result
/// starts with the first such node and goes on with the others in their
/// order; else nothing moves.
pub proof fn lemma_moved_first(s: Seq<NodeDesc>, id: u64)
    ensures
        moved_first(s, id).len() == s.len(),
        moved_first(s, id).to_multiset() == s.to_multiset(),
        has_node(s, id) ==> {
            let k = first_with_id(s, id);
            &&& 0 <= k < s.len()
            &&& moved_first(s, id)[0] == s[k]
            &&& moved_first(s, id)[0].id == id
            &&& moved_first(s, id).drop_first() == s.remove(k)
        },
{
    if has_node(s, id) {
        let i = choose|i: int| 0 <= i < s.len() && (#[trigger] s[i]).id == id;
        lemma_first_exists(s, id, i);
        let k = first_with_id(s, id);
        let r = moved_first(s, id);
        assert(r.drop_first() =~= s.remove(k));
        vstd::seq_lib::lemma_multiset_commutative(seq![s[k]], s.remove(k));
        assert(s =~= s.subrange(0, k) + s.subrange(k, s.len() as int));
        assert(s.remove(k) =~= s.subrange(0, k) + s.subrange(k + 1, s.len() as int));
        assert(s.subrange(k, s.len() as int) =~= seq![s[k]] + s.subrange(k + 1, s.len() as int));
        vstd::seq_lib::lemma_multiset_commutative(s.subrange(0, k), s.subrange(k, s.len() as int));
        vstd::seq_lib::lemma_multiset_commutative(seq![s[k]], s.subrange(k + 1, s.len() as int));
        vstd::seq_lib::lemma_multiset_commutative(s.subrange(0, k), s.subrange(k + 1, s.len() as int));
    }
}

proof fn lemma_first_exists(s: Seq<NodeDesc>, id: u64, i: int)
    requires
        0 <= i < s.len(),
        s[i].id == id,
    ensures
        exists|k: int| 0 <= k < s.len() && (#[trigger] s[k]).id == id && forall|j: int| 0 <= j < k ==> s[j].id != id,
    decreases i,
{
    if exists|j: int| 0 <= j < i && s[j].id == id {
        let j = choose|j: int| 0 <= j < i && s[j].id == id;
        lemma_first_exists(s, id, j);
    } else {
        assert(forall|j: int| 0 <= j < i ==> s[j].id != id);
    }
}

} // verus!
