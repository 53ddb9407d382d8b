//! Metadata-leader ("root") service of a storage cluster: the metadata schema,
//! the watch hub that fans change events out to subscribers, the leadership
//! state machine and the root API that ties them together.
pub mod admin;
pub mod error;
pub mod leader;
pub mod root;
pub mod schema;
pub mod types;
pub mod watch;

pub use admin::{make_admin_service, AdminHandle, AdminService, Route, Router};
pub use error::Error;
pub use leader::{next_phase, LeaderAction, LeaderEvent, LeaderPhase};
pub use root::{NodeIdent, Root};
pub use schema::{move_first, Schema};
pub use types::{
    CollectionDesc, DatabaseDesc, DeleteEvent, GroupDesc, GroupState, GroupUpdates, NodeCapacity,
    NodeDesc, NodeStatus, Partition, RaftRole, ReplicaDesc, ReplicaRole, ReplicaState, ShardDesc,
    UpdateEvent, WatchResponse,
};
pub use watch::{WatchHub, Watcher, WatcherInitializer};
