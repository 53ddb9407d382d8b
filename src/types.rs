use vstd::prelude::*;

verus! {

/// A database: unique by name.
#[derive(Clone, Debug, PartialEq, Eq)]
pub struct DatabaseDesc {
    pub id: u64,
    pub name: String,
}

/// A collection of a database: unique by (database, name).
#[derive(Clone, Debug, PartialEq, Eq)]
pub struct CollectionDesc {
    pub id: u64,
    pub name: String,
    pub parent_id: u64,
}

/// How many replicas, and how many group leaders, a node holds.
#[derive(Clone, Copy, Debug, PartialEq, Eq, Structural)]
pub struct NodeCapacity {
    pub replica_count: u64,
    pub leader_count: u64,
}

/// Whether a node takes new replicas.
#[derive(Clone, Copy, Debug, PartialEq, Eq, Structural)]
pub enum NodeStatus {
    Active,
    Cordoned,
    Draining,
    Drained,
}

/// A member of the cluster.
#[derive(Clone, Debug, PartialEq, Eq)]
pub struct NodeDesc {
    pub id: u64,
    pub addr: String,
    pub capacity: NodeCapacity,
    pub status: NodeStatus,
}

/// The part a replica plays in its group's membership.
#[derive(Clone, Copy, Debug, PartialEq, Eq, Structural)]
pub enum ReplicaRole {
    Voter,
    Learner,
    IncomingVoter,
    DemotingVoter,
}

/// The consensus role a replica currently has.
#[derive(Clone, Copy, Debug, PartialEq, Eq, Structural)]
pub enum RaftRole {
    Follower,
    Candidate,
    Leader,
    PreCandidate,
}

/// One replica of a replication group, placed on a node.
#[derive(Clone, Copy, Debug, PartialEq, Eq, Structural)]
pub struct ReplicaDesc {
    pub id: u64,
    pub node_id: u64,
    pub role: ReplicaRole,
}

/// The volatile consensus state that one replica reports about itself.
#[derive(Clone, Copy, Debug, PartialEq, Eq, Structural)]
pub struct ReplicaState {
    pub replica_id: u64,
    pub group_id: u64,
    pub term: u64,
    pub voted_for: u64,
    pub role: RaftRole,
    pub node_id: u64,
}

/// How a shard partitions the keys of its collection.
#[derive(Clone, Debug, PartialEq, Eq)]
pub enum Partition {
    /// Slot `slot_id` of `slots` hash slots.
    Hash { slot_id: u32, slots: u32 },
    /// The keys from `start` up to `end`.
    Range { start: Vec<u8>, end: Vec<u8> },
}

/// A shard of a collection, served by a group.
#[derive(Clone, Debug, PartialEq, Eq)]
pub struct ShardDesc {
    pub id: u64,
    pub collection_id: u64,
    pub partition: Partition,
}

/// A replication group, its shards and its replicas.
#[derive(Clone, Debug, PartialEq, Eq)]
pub struct GroupDesc {
    pub id: u64,
    pub epoch: u64,
    pub shards: Vec<ShardDesc>,
    pub replicas: Vec<ReplicaDesc>,
}

/// The states of all replicas of one group, and its leader, if known.
#[derive(Clone, Debug, PartialEq, Eq)]
pub struct GroupState {
    pub group_id: u64,
    pub leader_id: Option<u64>,
    pub replicas: Vec<ReplicaState>,
}

/// What a group reports: a new descriptor, the state of one replica, or both.
#[derive(Clone, Debug, PartialEq, Eq)]
pub struct GroupUpdates {
    pub group_desc: Option<GroupDesc>,
    pub replica_state: Option<ReplicaState>,
}

/// An entity that was created or changed.
#[derive(Clone, Debug, PartialEq, Eq)]
pub enum UpdateEvent {
    Database(DatabaseDesc),
    Collection(CollectionDesc),
    Node(NodeDesc),
    Group(GroupDesc),
    GroupState(GroupState),
}

/// An entity that was removed, by id.
#[derive(Clone, Copy, Debug, PartialEq, Eq, Structural)]
pub enum DeleteEvent {
    Database(u64),
    Collection(u64),
    Node(u64),
    Group(u64),
    GroupState(u64),
}

/// One batch handed to a watcher.
#[derive(Clone, Debug, PartialEq, Eq)]
pub struct WatchResponse {
    pub updates: Vec<UpdateEvent>,
    pub deletes: Vec<DeleteEvent>,
}

/// Mathematical value of a `Partition`.
pub enum PartitionV {
    Hash { slot_id: u32, slots: u32 },
    Range { start: Seq<u8>, end: Seq<u8> },
}

/// Mathematical value of a `ShardDesc`.
pub struct ShardDescV {
    pub id: u64,
    pub collection_id: u64,
    pub partition: PartitionV,
}

/// Mathematical value of a `GroupDesc`.
pub struct GroupDescV {
    pub id: u64,
    pub epoch: u64,
    pub shards: Seq<ShardDescV>,
    pub replicas: Seq<ReplicaDesc>,
}

/// Mathematical value of a `GroupState`.
pub struct GroupStateV {
    pub group_id: u64,
    pub leader_id: Option<u64>,
    pub replicas: Seq<ReplicaState>,
}

/// Mathematical value of an `UpdateEvent`.
pub enum UpdateEventV {
    Database(DatabaseDesc),
    Collection(CollectionDesc),
    Node(NodeDesc),
    Group(GroupDescV),
    GroupState(GroupStateV),
}

/// Mathematical value of a `WatchResponse`.
pub struct WatchResponseV {
    pub updates: Seq<UpdateEventV>,
    pub deletes: Seq<DeleteEvent>,
}

impl View for Partition {
    type V = PartitionV;

    open spec fn view(&self) -> PartitionV {
        match self {
            Partition::Hash { slot_id, slots } => PartitionV::Hash { slot_id: *slot_id, slots: *slots },
            Partition::Range { start, end } => PartitionV::Range { start: start@, end: end@ },
        }
    }
}

impl View for ShardDesc {
    type V = ShardDescV;

    open spec fn view(&self) -> ShardDescV {
        ShardDescV { id: self.id, collection_id: self.collection_id, partition: self.partition@ }
    }
}

/// The values of a sequence of shard descriptors.
pub open spec fn shards_view(s: Seq<ShardDesc>) -> Seq<ShardDescV> {
    s.map_values(|d: ShardDesc| d@)
}

impl View for GroupDesc {
    type V = GroupDescV;

    open spec fn view(&self) -> GroupDescV {
        GroupDescV {
            id: self.id,
            epoch: self.epoch,
            shards: shards_view(self.shards@),
            replicas: self.replicas@,
        }
    }
}

impl View for GroupState {
    type V = GroupStateV;

    open spec fn view(&self) -> GroupStateV {
        GroupStateV { group_id: self.group_id, leader_id: self.leader_id, replicas: self.replicas@ }
    }
}

impl View for UpdateEvent {
    type V = UpdateEventV;

    open spec fn view(&self) -> UpdateEventV {
        match self {
            UpdateEvent::Database(d) => UpdateEventV::Database(*d),
            UpdateEvent::Collection(c) => UpdateEventV::Collection(*c),
            UpdateEvent::Node(n) => UpdateEventV::Node(*n),
            UpdateEvent::Group(g) => UpdateEventV::Group(g@),
            UpdateEvent::GroupState(s) => UpdateEventV::GroupState(s@),
        }
    }
}

/// The values of a sequence of update events.
pub open spec fn updates_view(s: Seq<UpdateEvent>) -> Seq<UpdateEventV> {
    s.map_values(|e: UpdateEvent| e@)
}

impl View for WatchResponse {
    type V = WatchResponseV;

    open spec fn view(&self) -> WatchResponseV {
        WatchResponseV { updates: updates_view(self.updates@), deletes: self.deletes@ }
    }
}

impl DatabaseDesc {
    /// A copy with the same fields.
    pub fn duplicate(&self) -> (r: DatabaseDesc)
        ensures
            r == *self,
    {
        DatabaseDesc { id: self.id, name: self.name.clone() }
    }
}

impl CollectionDesc {
    /// A copy with the same fields.
    pub fn duplicate(&self) -> (r: CollectionDesc)
        ensures
            r == *self,
    {
        CollectionDesc { id: self.id, name: self.name.clone(), parent_id: self.parent_id }
    }
}

impl NodeDesc {
    /// A copy with the same fields.
    pub fn duplicate(&self) -> (r: NodeDesc)
        ensures
            r == *self,
    {
        NodeDesc {
            id: self.id,
            addr: self.addr.clone(),
            capacity: self.capacity,
            status: self.status,
        }
    }
}

/// A copy of a vector of plain values.
pub fn copy_vec<T: Copy>(v: &Vec<T>) -> (r: Vec<T>)
    ensures
        r@ == v@,
{
    let mut r: Vec<T> = Vec::new();
    let mut i: usize = 0;
    while i < v.len()
        invariant
            i <= v.len(),
            r@ == v@.subrange(0, i as int),
        decreases v.len() - i,
    {
        r.push(v[i]);
        i = i + 1;
    }
    assert(v@.subrange(0, v.len() as int) =~= v@);
    r
}

impl ShardDesc {
    /// A copy with the same value.
    pub fn duplicate(&self) -> (r: ShardDesc)
        ensures
            r@ == self@,
    {
        let partition = match &self.partition {
            Partition::Hash { slot_id, slots } => Partition::Hash { slot_id: *slot_id, slots: *slots },
            Partition::Range { start, end } => Partition::Range { start: copy_vec(start), end: copy_vec(end) },
        };
        ShardDesc { id: self.id, collection_id: self.collection_id, partition }
    }
}

/// A copy of a vector of shard descriptors.
pub fn copy_shards(v: &Vec<ShardDesc>) -> (r: Vec<ShardDesc>)
    ensures
        shards_view(r@) == shards_view(v@),
{
    let mut r: Vec<ShardDesc> = Vec::new();
    let mut i: usize = 0;
    while i < v.len()
        invariant
            i <= v.len(),
            r@.len() == i,
            forall|j: int| 0 <= j < i ==> (#[trigger] r@[j])@ == v@[j]@,
        decreases v.len() - i,
    {
        r.push(v[i].duplicate());
        i = i + 1;
    }
    assert(shards_view(r@) =~= shards_view(v@));
    r
}

impl GroupDesc {
    /// A copy with the same value.
    pub fn duplicate(&self) -> (r: GroupDesc)
        ensures
            r@ == self@,
    {
        GroupDesc {
            id: self.id,
            epoch: self.epoch,
            shards: copy_shards(&self.shards),
            replicas: copy_vec(&self.replicas),
        }
    }
}

impl GroupState {
    /// A copy with the same value.
    pub fn duplicate(&self) -> (r: GroupState)
        ensures
            r@ == self@,
    {
        GroupState {
            group_id: self.group_id,
            leader_id: self.leader_id,
            replicas: copy_vec(&self.replicas),
        }
    }
}

impl UpdateEvent {
    /// A copy with the same value.
    pub fn duplicate(&self) -> (r: UpdateEvent)
        ensures
            r@ == self@,
    {
        match self {
            UpdateEvent::Database(d) => UpdateEvent::Database(d.duplicate()),
            UpdateEvent::Collection(c) => UpdateEvent::Collection(c.duplicate()),
            UpdateEvent::Node(n) => UpdateEvent::Node(n.duplicate()),
            UpdateEvent::Group(g) => UpdateEvent::Group(g.duplicate()),
            UpdateEvent::GroupState(s) => UpdateEvent::GroupState(s.duplicate()),
        }
    }
}

/// A copy of a vector of update events.
pub fn copy_updates(v: &Vec<UpdateEvent>) -> (r: Vec<UpdateEvent>)
    ensures
        updates_view(r@) == updates_view(v@),
{
    let mut r: Vec<UpdateEvent> = Vec::new();
    let mut i: usize = 0;
    while i < v.len()
        invariant
            i <= v.len(),
            r@.len() == i,
            forall|j: int| 0 <= j < i ==> (#[trigger] r@[j])@ == v@[j]@,
        decreases v.len() - i,
    {
        r.push(v[i].duplicate());
        i = i + 1;
    }
    assert(updates_view(r@) =~= updates_view(v@));
    r
}

impl WatchResponse {
    /// A copy with the same value.
    pub fn duplicate(&self) -> (r: WatchResponse)
        ensures
            r@ == self@,
    {
        WatchResponse { updates: copy_updates(&self.updates), deletes: copy_vec(&self.deletes) }
    }
}

} // verus!
