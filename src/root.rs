use vstd::prelude::*;

use crate::error::Error;
use crate::schema::{
    with_database,
    bootstrapped, can_bootstrap,
    apply_group_update, collection_in, database_named, has_collection, has_database, has_node,
    moved_first, move_first, root_replica_nodes, group_state_of, snapshot_deletes,
    snapshot_updates, Schema, SchemaV,
};
use crate::types::{
    copy_vec, CollectionDesc, DatabaseDesc, DeleteEvent, GroupDescV, GroupUpdates, NodeDesc,
    UpdateEvent, UpdateEventV, WatchResponseV, updates_view,
};
use crate::watch::{
    delete_batch, published, update_batch, updates_only, WatchHub, Watcher,
};

verus! {

/// Who this process is: the cluster it belongs to and its node id.
pub struct NodeIdent {
    pub cluster_id: Vec<u8>,
    pub node_id: u64,
}

/// The active metadata handle, present only while this process leads the
/// metadata group.
struct RootCore {
    schema: Schema,
}

/// The root service: the leadership state of this process, the metadata it
/// serves while it leads, and the hub that tells watchers of every change.
pub struct Root {
    node_ident: NodeIdent,
    local_addr: String,
    core: Option<RootCore>,
    watcher_hub: WatchHub,
    bootstrapped: bool,
}

/// The descriptor that a group report carries, as a value.
pub open spec fn desc_of(u: GroupUpdates) -> Option<GroupDescV> {
    match u.group_desc {
        Some(g) => Some(g@),
        None => None,
    }
}

/// The metadata after applying the reports in order.
pub open spec fn applied(v: SchemaV, us: Seq<GroupUpdates>) -> SchemaV
    decreases us.len(),
{
    if us.len() == 0 {
        v
    } else {
        apply_group_update(applied(v, us.drop_last()), desc_of(us.last()), us.last().replica_state)
    }
}

/// The ids of the groups that a replica state was reported for, each once,
/// in order of first report.
pub open spec fn reported_groups(us: Seq<GroupUpdates>) -> Seq<u64>
    decreases us.len(),
{
    if us.len() == 0 {
        Seq::empty()
    } else {
        let prev = reported_groups(us.drop_last());
        match us.last().replica_state {
            Some(x) => if prev.contains(x.group_id) {
                prev
            } else {
                prev.push(x.group_id)
            },
            None => prev,
        }
    }
}

/// A group update for each reported descriptor, in order.
pub open spec fn desc_events(us: Seq<GroupUpdates>) -> Seq<UpdateEventV>
    decreases us.len(),
{
    if us.len() == 0 {
        Seq::empty()
    } else {
        let prev = desc_events(us.drop_last());
        match desc_of(us.last()) {
            Some(g) => prev.push(UpdateEventV::Group(g)),
            None => prev,
        }
    }
}

/// The events of a report: the reported descriptors, then the state (as the
/// metadata `v` holds it) of each group that a replica state was reported for.
pub open spec fn report_events(v: SchemaV, us: Seq<GroupUpdates>) -> Seq<UpdateEventV> {
    desc_events(us) + reported_groups(us).map_values(
        |g: u64| UpdateEventV::GroupState(group_state_of(v.states, g)),
    )
}

impl Root {
    /// What a call that registers no watcher keeps: what every call keeps,
    /// and the id for the next watcher.
    pub open spec fn keeps(&self, before: &Root) -> bool {
        &&& self.frames(before)
        &&& self.hub_next_key() == before.hub_next_key()
    }

    /// What every call keeps: consistency, the bootstrap flag, the local node
    /// and whether a core is installed.
    pub open spec fn frames(&self, before: &Root) -> bool {
        &&& self.wf()
        &&& self.is_bootstrapped() == before.is_bootstrapped()
        &&& self.node_id() == before.node_id()
        &&& (self.schema_view() is Some <==> before.schema_view() is Some)
    }

    /// Neither the metadata nor any watcher's queue changed.
    pub open spec fn unchanged(&self, before: &Root) -> bool {
        &&& self.schema_view() == before.schema_view()
        &&& self.hub_view() == before.hub_view()
    }

    /// The metadata being served, where a root core is installed.
    pub closed spec fn schema_view(&self) -> Option<SchemaV> {
        match self.core {
            Some(c) => Some(c.schema@),
            None => None,
        }
    }

    /// The queues of the registered watchers.
    pub closed spec fn hub_view(&self) -> Map<u64, Seq<WatchResponseV>> {
        self.watcher_hub@
    }

    /// The id that the hub will give the next watcher.
    pub closed spec fn hub_next_key(&self) -> u64 {
        self.watcher_hub.next_key()
    }

    /// Whether the hub can still register a watcher.
    pub open spec fn hub_can_register(&self) -> bool {
        self.hub_next_key() < u64::MAX
    }

    /// The address of the local node.
    pub closed spec fn local_addr(&self) -> String {
        self.local_addr
    }

    /// The cluster id that this process was started with.
    pub closed spec fn ident_cluster_id(&self) -> Seq<u8> {
        self.node_ident.cluster_id@
    }

    /// Whether this process has set up the cluster's metadata once already.
    pub closed spec fn is_bootstrapped(&self) -> bool {
        self.bootstrapped
    }

    /// The id of the local node.
    pub closed spec fn node_id(&self) -> u64 {
        self.node_ident.node_id
    }

    /// The hub is consistent; an installed core serves consistent metadata of
    /// a cluster that is set up.
    pub closed spec fn wf(&self) -> bool {
        &&& self.watcher_hub.wf()
        &&& match self.core {
            Some(c) => c.schema@.wf() && c.schema@.cluster_id is Some && self.bootstrapped,
            None => true,
        }
    }

    /// The metadata that a consistent root serves is itself consistent, and
    /// belongs to a cluster that is set up.
    pub proof fn lemma_served_metadata(&self)
        requires
            self.wf(),
            self.schema_view() is Some,
        ensures
            self.schema_view()->0.wf(),
            self.schema_view()->0.cluster_id is Some,
            self.is_bootstrapped(),
    {
    }

    /// A root that does not lead yet, with no watcher.
    pub fn new(node_ident: &NodeIdent, local_addr: String) -> (r: Root)
        ensures
            r.wf(),
            r.schema_view() is None,
            r.hub_view() == Map::<u64, Seq<WatchResponseV>>::empty(),
            r.hub_next_key() == 0,
            !r.is_bootstrapped(),
            r.node_id() == node_ident.node_id,
    {
        Root {
            node_ident: NodeIdent {
                cluster_id: copy_vec(&node_ident.cluster_id),
                node_id: node_ident.node_id,
            },
            local_addr,
            core: None,
            watcher_hub: WatchHub::new(),
            bootstrapped: false,
        }
    }

    /// Whether this process currently leads the metadata group.
    pub fn is_root(&self) -> (r: bool)
        ensures
            r == self.schema_view() is Some,
    {
        self.core.is_some()
    }

    /// The id of the local node.
    pub fn current_node_id(&self) -> (r: u64)
        ensures
            r == self.node_id(),
    {
        self.node_ident.node_id
    }

    /// The metadata being served; `NotRootLeader` where no core is installed.
    pub fn schema(&self) -> (r: Result<&Schema, Error>)
        ensures
            self.schema_view() is None ==> r is Err && r->Err_0 == Error::NotRootLeader,
            self.schema_view() is Some ==> r is Ok && Some(r->Ok_0@) == self.schema_view(),
            self.wf() && r is Ok ==> r->Ok_0@.wf() && r->Ok_0@.cluster_id is Some,
    {
        match &self.core {
            Some(c) => Ok(&c.schema),
            None => Err(Error::NotRootLeader),
        }
    }

    /// The hub that fans events out to watchers.
    pub fn watcher_hub(&self) -> (r: &WatchHub)
        ensures
            r@ == self.hub_view(),
    {
        &self.watcher_hub
    }

    /// The hub, for publishing and consuming batches directly.
    pub fn watcher_hub_mut(&mut self) -> (r: &mut WatchHub)
        ensures
            r@ == old(self).hub_view(),
            old(self).wf() ==> r.wf(),
            r.next_key() == old(self).hub_next_key(),
            final(self).hub_next_key() == final(r).next_key(),
            final(self).hub_view() == final(r)@,
            final(self).schema_view() == old(self).schema_view(),
            final(self).is_bootstrapped() == old(self).is_bootstrapped(),
            old(self).wf() && final(r).wf() ==> final(self).wf(),
    {
        &mut self.watcher_hub
    }

    /// Creates a database and tells every watcher of it.
    pub fn create_database(&mut self, name: String) -> (r: Result<DatabaseDesc, Error>)
        requires
            old(self).wf(),
        ensures
            final(self).keeps(old(self)),
            r is Err ==> final(self).unchanged(old(self)),
            old(self).schema_view() is None ==> r == Err::<DatabaseDesc, Error>(Error::NotRootLeader),
            old(self).schema_view() is Some ==> {
                let v = old(self).schema_view()->0;
                &&& !v.leader ==> r == Err::<DatabaseDesc, Error>(Error::NotLeader)
                &&& v.leader && has_database(v.databases, name@)
                    ==> r == Err::<DatabaseDesc, Error>(Error::AlreadyExists(name))
                &&& v.leader && !has_database(v.databases, name@) && v.next_id == u64::MAX
                    ==> r == Err::<DatabaseDesc, Error>(Error::IdExhausted)
                &&& v.leader && !has_database(v.databases, name@) && v.next_id < u64::MAX ==> {
                    let d = DatabaseDesc { id: v.next_id, name };
                    &&& r == Ok::<DatabaseDesc, Error>(d)
                    &&& final(self).schema_view() == Some(with_database(v, d))
                    &&& published(
                        old(self).hub_view(),
                        final(self).hub_view(),
                        updates_only(seq![UpdateEventV::Database(d)]),
                    )
                }
            },
    {
        let res = match &mut self.core {
            None => Err(Error::NotRootLeader),
            Some(c) => c.schema.create_database(name),
        };
        match res {
            Ok(d) => {
                let mut evs: Vec<UpdateEvent> = Vec::new();
                evs.push(UpdateEvent::Database(d.duplicate()));
                proof {
                    assert(updates_view(evs@) =~= seq![UpdateEventV::Database(d)]);
                    assert(update_batch(evs@) =~= updates_only(seq![UpdateEventV::Database(d)]));
                }
                self.watcher_hub.notify_updates(evs);
                Ok(d)
            },
            Err(e) => Err(e),
        }
    }

    /// Deletes the database of that name and tells every watcher; where there
    /// is none, succeeds and tells nobody.
    pub fn delete_database(&mut self, name: &str) -> (r: Result<(), Error>)
        requires
            old(self).wf(),
        ensures
            final(self).keeps(old(self)),
            r is Err ==> final(self).unchanged(old(self)),
            old(self).schema_view() is None ==> r == Err::<(), Error>(Error::NotRootLeader),
            old(self).schema_view() is Some ==> {
                let v = old(self).schema_view()->0;
                &&& !v.leader ==> r == Err::<(), Error>(Error::NotLeader)
                &&& v.leader && !has_database(v.databases, name@) ==> r == Ok::<(), Error>(())
                    && final(self).unchanged(old(self))
                &&& v.leader && has_database(v.databases, name@) ==> {
                    let k = crate::schema::database_index(v.databases, name@);
                    &&& r == Ok::<(), Error>(())
                    &&& final(self).schema_view() == Some(SchemaV { databases: v.databases.remove(k), ..v })
                    &&& published(
                        old(self).hub_view(),
                        final(self).hub_view(),
                        delete_batch(seq![DeleteEvent::Database(v.databases[k].id)]),
                    )
                }
            },
    {
        let res = match &mut self.core {
            None => Err(Error::NotRootLeader),
            Some(c) => c.schema.delete_database(name),
        };
        match res {
            Ok(Some(id)) => {
                let mut dels: Vec<DeleteEvent> = Vec::new();
                dels.push(DeleteEvent::Database(id));
                proof {
                    assert(dels@ =~= seq![DeleteEvent::Database(id)]);
                }
                self.watcher_hub.notify_deletes(dels);
                Ok(())
            },
            Ok(None) => Ok(()),
            Err(e) => Err(e),
        }
    }

    /// Creates a collection in the database of that name and tells every
    /// watcher of it; `DatabaseNotFound` where the database does not exist.
    pub fn create_collection(&mut self, name: String, database: String) -> (r: Result<CollectionDesc, Error>)
        requires
            old(self).wf(),
        ensures
            final(self).keeps(old(self)),
            r is Err ==> final(self).unchanged(old(self)),
            old(self).schema_view() is None ==> r == Err::<CollectionDesc, Error>(Error::NotRootLeader),
            old(self).schema_view() is Some ==> {
                let v = old(self).schema_view()->0;
                let db = database_named(v.databases, database@);
                &&& !v.leader ==> r == Err::<CollectionDesc, Error>(Error::NotLeader)
                &&& v.leader && db is None
                    ==> r == Err::<CollectionDesc, Error>(Error::DatabaseNotFound(database))
                &&& v.leader && db is Some && has_collection(v.collections, db->0.id, name@)
                    ==> r == Err::<CollectionDesc, Error>(Error::AlreadyExists(name))
                &&& v.leader && db is Some && !has_collection(v.collections, db->0.id, name@)
                    && v.next_id == u64::MAX ==> r == Err::<CollectionDesc, Error>(Error::IdExhausted)
                &&& v.leader && db is Some && !has_collection(v.collections, db->0.id, name@)
                    && v.next_id < u64::MAX ==> {
                    let c = CollectionDesc { id: v.next_id, name, parent_id: db->0.id };
                    &&& r == Ok::<CollectionDesc, Error>(c)
                    &&& final(self).schema_view() == Some(SchemaV {
                        next_id: (v.next_id + 1) as u64,
                        collections: v.collections.push(c),
                        ..v
                    })
                    &&& published(
                        old(self).hub_view(),
                        final(self).hub_view(),
                        updates_only(seq![UpdateEventV::Collection(c)]),
                    )
                }
            },
    {
        let res = match &mut self.core {
            None => Err(Error::NotRootLeader),
            Some(c) => match c.schema.get_database(database.as_str()) {
                Err(e) => Err(e),
                Ok(None) => Err(Error::DatabaseNotFound(database)),
                Ok(Some(db)) => c.schema.create_collection(name, db.id),
            },
        };
        match res {
            Ok(c) => {
                let mut evs: Vec<UpdateEvent> = Vec::new();
                evs.push(UpdateEvent::Collection(c.duplicate()));
                proof {
                    assert(updates_view(evs@) =~= seq![UpdateEventV::Collection(c)]);
                    assert(update_batch(evs@) =~= updates_only(seq![UpdateEventV::Collection(c)]));
                }
                self.watcher_hub.notify_updates(evs);
                Ok(c)
            },
            Err(e) => Err(e),
        }
    }

    /// Deletes the collection of that name from the database of that name and
    /// tells every watcher; `DatabaseNotFound` where the database does not
    /// exist; where the collection does not, succeeds and tells nobody.
    pub fn delete_collection(&mut self, name: &str, database: &str) -> (r: Result<(), Error>)
        requires
            old(self).wf(),
        ensures
            final(self).keeps(old(self)),
            r is Err ==> final(self).unchanged(old(self)),
            old(self).schema_view() is None ==> r == Err::<(), Error>(Error::NotRootLeader),
            old(self).schema_view() is Some ==> {
                let v = old(self).schema_view()->0;
                let db = database_named(v.databases, database@);
                &&& !v.leader ==> r == Err::<(), Error>(Error::NotLeader)
                &&& v.leader && db is None ==> r is Err && r->Err_0 is DatabaseNotFound
                    && r->Err_0->DatabaseNotFound_0@ == database@
                &&& v.leader && db is Some && !has_collection(v.collections, db->0.id, name@)
                    ==> r == Ok::<(), Error>(()) && final(self).unchanged(old(self))
                &&& v.leader && db is Some && has_collection(v.collections, db->0.id, name@) ==> {
                    let k = crate::schema::collection_index(v.collections, db->0.id, name@);
                    &&& r == Ok::<(), Error>(())
                    &&& final(self).schema_view() == Some(SchemaV { collections: v.collections.remove(k), ..v })
                    &&& published(
                        old(self).hub_view(),
                        final(self).hub_view(),
                        delete_batch(seq![DeleteEvent::Collection(v.collections[k].id)]),
                    )
                }
            },
    {
        let res = match &mut self.core {
            None => Err(Error::NotRootLeader),
            Some(c) => match c.schema.get_database(database) {
                Err(e) => Err(e),
                Ok(None) => Err(Error::DatabaseNotFound(database.to_owned())),
                Ok(Some(db)) => c.schema.delete_collection(db.id, name),
            },
        };
        match res {
            Ok(Some(id)) => {
                let mut dels: Vec<DeleteEvent> = Vec::new();
                dels.push(DeleteEvent::Collection(id));
                proof {
                    assert(dels@ =~= seq![DeleteEvent::Collection(id)]);
                }
                self.watcher_hub.notify_deletes(dels);
                Ok(())
            },
            Ok(None) => Ok(()),
            Err(e) => Err(e),
        }
    }

    /// The database of that name, if any.
    pub fn get_database(&self, name: &str) -> (r: Result<Option<DatabaseDesc>, Error>)
        requires
            self.wf(),
        ensures
            self.schema_view() is None ==> r == Err::<Option<DatabaseDesc>, Error>(Error::NotRootLeader),
            self.schema_view() is Some && !self.schema_view()->0.leader
                ==> r == Err::<Option<DatabaseDesc>, Error>(Error::NotLeader),
            self.schema_view() is Some && self.schema_view()->0.leader ==> r == Ok::<
                Option<DatabaseDesc>,
                Error,
            >(database_named(self.schema_view()->0.databases, name@)),
    {
        match &self.core {
            None => Err(Error::NotRootLeader),
            Some(c) => c.schema.get_database(name),
        }
    }

    /// The collection of that name in the database of that name, if both exist.
    pub fn get_collection(&self, name: &str, database: &str) -> (r: Result<Option<CollectionDesc>, Error>)
        requires
            self.wf(),
        ensures
            self.schema_view() is None ==> r == Err::<Option<CollectionDesc>, Error>(Error::NotRootLeader),
            self.schema_view() is Some && !self.schema_view()->0.leader
                ==> r == Err::<Option<CollectionDesc>, Error>(Error::NotLeader),
            self.schema_view() is Some && self.schema_view()->0.leader ==> r == Ok::<
                Option<CollectionDesc>,
                Error,
            >(collection_in(self.schema_view()->0, database@, name@)),
    {
        match &self.core {
            None => Err(Error::NotRootLeader),
            Some(c) => c.schema.get_collection(database, name),
        }
    }

    /// Takes the lead: sets up the cluster where the metadata shows it is not
    /// set up yet, then installs a core over `schema`, which makes this
    /// process serve as root. On failure the metadata is handed back as it was.
    pub fn step_leader(&mut self, schema: Schema) -> (r: Result<(), (Error, Schema)>)
        requires
            old(self).wf(),
            old(self).schema_view() is None,
            schema@.wf(),
        ensures
            final(self).wf(),
            final(self).node_id() == old(self).node_id(),
            final(self).local_addr() == old(self).local_addr(),
            final(self).ident_cluster_id() == old(self).ident_cluster_id(),
            final(self).hub_view() == old(self).hub_view(),
            final(self).hub_next_key() == old(self).hub_next_key(),
            r is Ok <==> can_bootstrap(schema@),
            r is Ok ==> final(self).is_bootstrapped() && final(self).schema_view() == Some(
                bootstrapped(schema@, old(self).local_addr(), old(self).ident_cluster_id()),
            ),
            r is Err ==> final(self).schema_view() is None && final(self).is_bootstrapped()
                == old(self).is_bootstrapped() && r->Err_0.1@ == schema@ && r->Err_0.1@.wf(),
    {
        let mut schema = schema;
        let res = schema.try_bootstrap(self.local_addr.clone(), copy_vec(&self.node_ident.cluster_id));
        match res {
            Err(e) => Err((e, schema)),
            Ok(()) => {
                self.bootstrapped = true;
                self.core = Some(RootCore { schema });
                Ok(())
            },
        }
    }

    /// Steps down: clears the core, so that every call fails with
    /// `NotRootLeader`, and hands back the metadata it served.
    pub fn step_follower(&mut self) -> (r: Option<Schema>)
        requires
            old(self).wf(),
        ensures
            final(self).wf(),
            final(self).schema_view() is None,
            final(self).hub_view() == old(self).hub_view(),
            final(self).hub_next_key() == old(self).hub_next_key(),
            final(self).is_bootstrapped() == old(self).is_bootstrapped(),
            final(self).node_id() == old(self).node_id(),
            final(self).local_addr() == old(self).local_addr(),
            final(self).ident_cluster_id() == old(self).ident_cluster_id(),
            match r {
                Some(s) => old(self).schema_view() == Some(s@) && s@.wf(),
                None => old(self).schema_view() is None,
            },
    {
        let core = self.core.take();
        match core {
            Some(c) => Some(c.schema),
            None => None,
        }
    }

    /// Records that the replica behind the installed core lost its
    /// leadership: calls fail with `NotLeader` until the core is cleared.
    pub fn on_leadership_lost(&mut self)
        requires
            old(self).wf(),
        ensures
            final(self).keeps(old(self)),
            final(self).hub_view() == old(self).hub_view(),
            final(self).schema_view() == match old(self).schema_view() {
                Some(v) => Some(SchemaV { leader: false, ..v }),
                None => None,
            },
    {
        match &mut self.core {
            Some(c) => c.schema.lose_leadership(),
            None => {},
        }
    }

    /// Subscribes a new watcher. Its first batch is the snapshot that brings
    /// a watcher that saw the groups `cur_groups` (id, epoch) up to date;
    /// every batch published afterwards follows.
    pub fn watch(&mut self, cur_groups: &Vec<(u64, u64)>) -> (r: Result<Watcher, Error>)
        requires
            old(self).wf(),
        ensures
            final(self).frames(old(self)),
            r is Err ==> final(self).hub_next_key() == old(self).hub_next_key(),
            r is Ok ==> r->Ok_0.key() == old(self).hub_next_key() && final(self).hub_next_key()
                == old(self).hub_next_key() + 1,
            final(self).schema_view() == old(self).schema_view(),
            r is Err ==> final(self).unchanged(old(self)),
            old(self).schema_view() is None ==> r == Err::<Watcher, Error>(Error::NotRootLeader),
            old(self).schema_view() is Some ==> {
                let v = old(self).schema_view()->0;
                &&& !v.leader ==> r == Err::<Watcher, Error>(Error::NotLeader)
                &&& v.leader && !old(self).hub_can_register()
                    ==> r == Err::<Watcher, Error>(Error::IdExhausted)
                &&& v.leader && old(self).hub_can_register() ==> {
                    &&& r is Ok
                    &&& !old(self).hub_view().contains_key(r->Ok_0.key())
                    &&& final(self).hub_view() == old(self).hub_view().insert(
                        r->Ok_0.key(),
                        seq![WatchResponseV {
                            updates: snapshot_updates(v, cur_groups@),
                            deletes: snapshot_deletes(v, cur_groups@),
                        }],
                    )
                }
            },
    {
        let schema = match &self.core {
            None => { return Err(Error::NotRootLeader); },
            Some(c) => &c.schema,
        };
        if !schema.is_leader() {
            return Err(Error::NotLeader);
        }
        if !self.watcher_hub_has_room() {
            return Err(Error::IdExhausted);
        }
        let (watcher, initializer) = self.watcher_hub.create_watcher();
        let schema = match &self.core {
            None => { return Err(Error::NotRootLeader); },
            Some(c) => &c.schema,
        };
        match schema.list_all_events(cur_groups) {
            Ok((updates, deletes)) => {
                self.watcher_hub.set_init_resp(initializer, updates, deletes);
                proof {
                    assert(seq![WatchResponseV {
                        updates: snapshot_updates(old(self).schema_view()->0, cur_groups@),
                        deletes: snapshot_deletes(old(self).schema_view()->0, cur_groups@),
                    }] + Seq::<WatchResponseV>::empty() =~= seq![WatchResponseV {
                        updates: snapshot_updates(old(self).schema_view()->0, cur_groups@),
                        deletes: snapshot_deletes(old(self).schema_view()->0, cur_groups@),
                    }]);
                    assert(self.watcher_hub@ =~= old(self).watcher_hub@.insert(
                        watcher.key(),
                        seq![WatchResponseV {
                            updates: snapshot_updates(old(self).schema_view()->0, cur_groups@),
                            deletes: snapshot_deletes(old(self).schema_view()->0, cur_groups@),
                        }],
                    ));
                }
                Ok(watcher)
            },
            Err(e) => {
                self.watcher_hub.remove_watcher(watcher);
                proof {
                    assert(self.watcher_hub@ =~= old(self).watcher_hub@);
                }
                Err(e)
            },
        }
    }

    fn watcher_hub_has_room(&self) -> (r: bool)
        ensures
            r == self.hub_can_register(),
    {
        self.watcher_hub.has_room()
    }

    /// Admits a node at `addr` under an id that no node has had, tells every
    /// watcher of it, and returns the cluster id, the new node and the nodes
    /// holding a root replica, the new node first where it holds one.
    pub fn join(&mut self, addr: String) -> (r: Result<(Vec<u8>, NodeDesc, Vec<NodeDesc>), Error>)
        requires
            old(self).wf(),
        ensures
            final(self).keeps(old(self)),
            r is Err ==> final(self).unchanged(old(self)),
            old(self).schema_view() is None ==> r is Err && r->Err_0 == Error::NotRootLeader,
            old(self).schema_view() is Some ==> {
                let v = old(self).schema_view()->0;
                &&& !v.leader ==> r is Err && r->Err_0 == Error::NotLeader
                &&& v.leader && v.next_id == u64::MAX ==> r is Err && r->Err_0 == Error::IdExhausted
                &&& v.leader && v.next_id < u64::MAX ==> {
                    let n = crate::schema::new_node(v.next_id, addr);
                    let after = SchemaV {
                        next_id: (v.next_id + 1) as u64,
                        nodes: v.nodes.push(n),
                        ..v
                    };
                    &&& r is Ok
                    &&& !has_node(v.nodes, n.id)
                    &&& r->Ok_0.1 == n
                    &&& v.cluster_id == Some(r->Ok_0.0@)
                    &&& r->Ok_0.2@ == moved_first(root_replica_nodes(after), n.id)
                    &&& final(self).schema_view() == Some(after)
                    &&& published(
                        old(self).hub_view(),
                        final(self).hub_view(),
                        updates_only(seq![UpdateEventV::Node(n)]),
                    )
                }
            },
    {
        let res = match &mut self.core {
            None => Err(Error::NotRootLeader),
            Some(c) => c.schema.add_node(addr),
        };
        let node = match res {
            Ok(n) => n,
            Err(e) => { return Err(e); },
        };
        let mut evs: Vec<UpdateEvent> = Vec::new();
        evs.push(UpdateEvent::Node(node.duplicate()));
        proof {
            assert(updates_view(evs@) =~= seq![UpdateEventV::Node(node)]);
            assert(update_batch(evs@) =~= updates_only(seq![UpdateEventV::Node(node)]));
        }
        self.watcher_hub.notify_updates(evs);
        let schema = match &self.core {
            Some(c) => &c.schema,
            None => { return Err(Error::NotRootLeader); },
        };
        let cluster_id = match schema.cluster_id() {
            Ok(Some(c)) => c,
            _ => { return Err(Error::NotBootstrapped); },
        };
        let mut roots = match schema.get_root_replicas() {
            Ok(v) => v,
            Err(e) => { return Err(e); },
        };
        move_first(&mut roots, node.id);
        Ok((cluster_id, node, roots))
    }

    /// Applies the reports in order, then tells every watcher, in one batch,
    /// of each reported descriptor and of the state of each group that a
    /// replica state was reported for, and of no other group. The batch is
    /// published even where it is empty.
    pub fn report(&mut self, updates: Vec<GroupUpdates>) -> (r: Result<(), Error>)
        requires
            old(self).wf(),
        ensures
            final(self).keeps(old(self)),
            r is Err ==> final(self).unchanged(old(self)),
            old(self).schema_view() is None ==> r == Err::<(), Error>(Error::NotRootLeader),
            old(self).schema_view() is Some ==> {
                let v = old(self).schema_view()->0;
                let after = applied(v, updates@);
                let evs = report_events(after, updates@);
                &&& !v.leader ==> r == Err::<(), Error>(Error::NotLeader)
                &&& v.leader ==> {
                    &&& r == Ok::<(), Error>(())
                    &&& final(self).schema_view() == Some(after)
                    &&& published(old(self).hub_view(), final(self).hub_view(), updates_only(evs))
                }
            },
    {
        let c = match &mut self.core {
            None => { return Err(Error::NotRootLeader); },
            Some(c) => c,
        };
        if !c.schema.is_leader() {
            return Err(Error::NotLeader);
        }
        let ghost v = c.schema@;
        let mut evs: Vec<UpdateEvent> = Vec::new();
        let mut changed: Vec<u64> = Vec::new();
        let mut i: usize = 0;
        while i < updates.len()
            invariant
                i <= updates@.len(),
                c.schema@.wf(),
                c.schema@.leader,
                c.schema@.cluster_id is Some,
                c.schema@ == applied(v, updates@.subrange(0, i as int)),
                updates_view(evs@) == desc_events(updates@.subrange(0, i as int)),
                changed@ == reported_groups(updates@.subrange(0, i as int)),
            decreases updates@.len() - i,
        {
            proof {
                assert(updates@.subrange(0, i as int + 1).drop_last() =~= updates@.subrange(0, i as int));
            }
            let u = &updates[i];
            let desc = match &u.group_desc {
                Some(g) => Some(g.duplicate()),
                None => None,
            };
            let ghost before = evs@;
            match &u.group_desc {
                Some(g) => {
                    evs.push(UpdateEvent::Group(g.duplicate()));
                    proof {
                        assert(updates_view(evs@) =~= updates_view(before).push(UpdateEventV::Group(g@)));
                    }
                },
                None => {},
            }
            match c.schema.update_group_replica(desc, u.replica_state) {
                Ok(()) => {},
                Err(e) => { return Err(e); },
            }
            match u.replica_state {
                Some(x) => {
                    if !contains_id(&changed, x.group_id) {
                        changed.push(x.group_id);
                    }
                },
                None => {},
            }
            i = i + 1;
        }
        proof {
            assert(updates@.subrange(0, updates@.len() as int) =~= updates@);
        }
        let ghost after = c.schema@;
        let ghost descs = updates_view(evs@);
        let mut j: usize = 0;
        while j < changed.len()
            invariant
                j <= changed@.len(),
                c.schema@ == after,
                after.leader,
                updates_view(evs@) == descs + changed@.subrange(0, j as int).map_values(
                    |g: u64| UpdateEventV::GroupState(group_state_of(after.states, g)),
                ),
            decreases changed@.len() - j,
        {
            let ghost before = evs@;
            let st = match c.schema.group_state(changed[j]) {
                Ok(st) => st,
                Err(e) => { return Err(e); },
            };
            evs.push(UpdateEvent::GroupState(st));
            proof {
                let f = |g: u64| UpdateEventV::GroupState(group_state_of(after.states, g));
                assert(updates_view(evs@) =~= updates_view(before).push(f(changed@[j as int])));
                assert(changed@.subrange(0, j as int + 1).map_values(f)
                    =~= changed@.subrange(0, j as int).map_values(f).push(f(changed@[j as int])));
            }
            j = j + 1;
        }
        proof {
            assert(changed@.subrange(0, changed@.len() as int) =~= changed@);
        }
        proof {
            assert(update_batch(evs@) =~= updates_only(updates_view(evs@)));
        }
        self.watcher_hub.notify_updates(evs);
        Ok(())
    }
}

/// Whether `ids` holds `id`.
fn contains_id(ids: &Vec<u64>, id: u64) -> (r: bool)
    ensures
        r == ids@.contains(id),
{
    let mut i: usize = 0;
    while i < ids.len()
        invariant
            i <= ids@.len(),
            forall|j: int| 0 <= j < i ==> ids@[j] != id,
        decreases ids@.len() - i,
    {
        if ids[i] == id {
            return true;
        }
        i = i + 1;
    }
    false
}

/// A report publishes the state of a group exactly when some replica state
/// of that group was reported, and once; the reported descriptors never
/// yield a group state.
pub proof fn lemma_report_group_states(us: Seq<GroupUpdates>, g: u64)
    ensures
        reported_groups(us).contains(g) <==> exists|i: int|
            0 <= i < us.len() && (#[trigger] us[i]).replica_state is Some
                && us[i].replica_state->0.group_id == g,
        reported_groups(us).no_duplicates(),
        forall|k: int| 0 <= k < desc_events(us).len() ==> !(#[trigger] desc_events(us)[k] is GroupState),
    decreases us.len(),
{
    if us.len() > 0 {
        let prev = us.drop_last();
        lemma_report_group_states(prev, g);
        let last = us.len() - 1;
        assert forall|i: int| 0 <= i < prev.len() implies #[trigger] prev[i] == us[i] by {}
        if reported_groups(us).contains(g) {
            if !reported_groups(prev).contains(g) {
                assert(us[last].replica_state is Some && us[last].replica_state->0.group_id == g);
            } else {
                let i = choose|i: int|
                    0 <= i < prev.len() && (#[trigger] prev[i]).replica_state is Some
                        && prev[i].replica_state->0.group_id == g;
                assert(us[i] == prev[i]);
            }
        }
        if exists|i: int|
            0 <= i < us.len() && (#[trigger] us[i]).replica_state is Some
                && us[i].replica_state->0.group_id == g {
            let i = choose|i: int|
                0 <= i < us.len() && (#[trigger] us[i]).replica_state is Some
                    && us[i].replica_state->0.group_id == g;
            if i < last {
                assert(prev[i] == us[i]);
                assert(reported_groups(prev).contains(g));
                let k = choose|k: int| 0 <= k < reported_groups(prev).len() && reported_groups(prev)[k] == g;
                assert(reported_groups(us)[k] == g);
            } else {
                if !reported_groups(prev).contains(g) {
                    assert(reported_groups(us).last() == g);
                } else {
                    let k = choose|k: int| 0 <= k < reported_groups(prev).len() && reported_groups(prev)[k] == g;
                    assert(reported_groups(us)[k] == g);
                }
            }
        }
    }
}

/// The events of a report carry a group state exactly after the reported
/// descriptors, one for each group that a replica state was reported for, in
/// order of first report; with `lemma_report_group_states`, the group states
/// published are those of exactly the reported groups, each once.
pub proof fn lemma_report_events(v: SchemaV, us: Seq<GroupUpdates>)
    ensures
        report_events(v, us).len() == desc_events(us).len() + reported_groups(us).len(),
        forall|k: int|
            0 <= k < report_events(v, us).len() ==> ((#[trigger] report_events(v, us)[k] is GroupState)
                <==> k >= desc_events(us).len()),
        forall|j: int|
            0 <= j < reported_groups(us).len() ==> #[trigger] report_events(v, us)[desc_events(
                us,
            ).len() + j] == UpdateEventV::GroupState(group_state_of(v.states, reported_groups(us)[j])),
{
    lemma_report_group_states(us, 0);
    let d = desc_events(us);
    let gs = reported_groups(us).map_values(
        |g: u64| UpdateEventV::GroupState(group_state_of(v.states, g)),
    );
    assert forall|k: int| 0 <= k < report_events(v, us).len() implies ((#[trigger] report_events(
        v,
        us,
    )[k] is GroupState) <==> k >= d.len()) by {
        if k < d.len() {
            assert(report_events(v, us)[k] == d[k]);
        } else {
            assert(report_events(v, us)[k] == gs[k - d.len()]);
        }
    }
    assert forall|j: int| 0 <= j < reported_groups(us).len() implies #[trigger] report_events(
        v,
        us,
    )[d.len() + j] == UpdateEventV::GroupState(group_state_of(v.states, reported_groups(us)[j])) by {
        assert(report_events(v, us)[d.len() + j] == gs[j]);
    }
}

} // verus!
