use vstd::prelude::*;

verus! {

/// The handlers of the admin service.
#[derive(Clone, Copy, Debug, PartialEq, Eq, Structural)]
pub enum AdminHandle {
    Metrics,
    Job,
    Metadata,
    Health,
    Cordon,
    Uncordon,
    Drain,
    NodeStatus,
}

/// A path and the handler that serves it.
pub struct Route {
    pub path: String,
    pub handle: AdminHandle,
}

/// Routes, in the order they were added, under a path prefix made of segments.
pub struct Router {
    pub prefix: Vec<String>,
    pub routes: Vec<Route>,
}

/// The admin HTTP service's routing.
pub struct AdminService {
    pub router: Router,
}

/// The segments of a prefix, joined.
pub open spec fn joined(segs: Seq<String>) -> Seq<char>
    decreases segs.len(),
{
    if segs.len() == 0 {
        Seq::empty()
    } else {
        segs[0]@ + joined(segs.drop_first())
    }
}

/// The (path, handler) pairs of a list of routes.
pub open spec fn route_pairs(routes: Seq<Route>) -> Seq<(Seq<char>, AdminHandle)> {
    routes.map_values(|r: Route| (r.path@, r.handle))
}

impl Router {
    /// The full path of each route, with its handler, in order.
    pub open spec fn table(&self) -> Seq<(Seq<char>, AdminHandle)> {
        self.routes@.map_values(|r: Route| (joined(self.prefix@) + r.path@, r.handle))
    }

    /// A router with no prefix and no route.
    pub fn empty() -> (r: Router)
        ensures
            r.prefix@.len() == 0,
            r.routes@.len() == 0,
    {
        Router { prefix: Vec::new(), routes: Vec::new() }
    }

    /// This router with one more route, served by `handle`.
    pub fn route(self, path: &str, handle: AdminHandle) -> (r: Router)
        ensures
            r.prefix@ == self.prefix@,
            route_pairs(r.routes@) == route_pairs(self.routes@).push((path@, handle)),
    {
        let mut me = self;
        let ghost before = me.routes@;
        me.routes.push(Route { path: path.to_owned(), handle });
        proof {
            assert(route_pairs(me.routes@) =~= route_pairs(before).push((path@, handle)));
        }
        me
    }

    /// `router` with every path under `prefix`.
    pub fn nest(prefix: &str, router: Router) -> (r: Router)
        ensures
            r.prefix@.len() == router.prefix@.len() + 1,
            r.prefix@[0]@ == prefix@,
            r.prefix@.drop_first() == router.prefix@,
            r.routes@ == router.routes@,
    {
        let mut me = router;
        let ghost before = me.prefix@;
        me.prefix.insert(0, prefix.to_owned());
        proof {
            assert(me.prefix@.drop_first() =~= before);
        }
        me
    }
}

impl AdminService {
    /// A service that serves the routes of `router`.
    pub fn new(router: Router) -> (r: AdminService)
        ensures
            r.router == router,
    {
        AdminService { router }
    }
}

/// The admin service: metrics, jobs, metadata, health and the node
/// management handlers, all under `/admin`.
pub fn make_admin_service() -> (r: AdminService)
    ensures
        r.router.prefix@.len() == 1,
        r.router.prefix@[0]@ == "/admin"@,
        route_pairs(r.router.routes@) == seq![
            ("/metrics"@, AdminHandle::Metrics),
            ("/job"@, AdminHandle::Job),
            ("/metadata"@, AdminHandle::Metadata),
            ("/health"@, AdminHandle::Health),
            ("/cordon"@, AdminHandle::Cordon),
            ("/uncordon"@, AdminHandle::Uncordon),
            ("/drain"@, AdminHandle::Drain),
            ("/node_status"@, AdminHandle::NodeStatus),
        ],
{
    let router = Router::empty()
        .route("/metrics", AdminHandle::Metrics)
        .route("/job", AdminHandle::Job)
        .route("/metadata", AdminHandle::Metadata)
        .route("/health", AdminHandle::Health)
        .route("/cordon", AdminHandle::Cordon)
        .route("/uncordon", AdminHandle::Uncordon)
        .route("/drain", AdminHandle::Drain)
        .route("/node_status", AdminHandle::NodeStatus);
    proof {
        assert(route_pairs(Seq::<Route>::empty()) =~= Seq::empty());
    }
    let api = Router::nest("/admin", router);
    proof {
        assert(route_pairs(api.routes@) =~= seq![
            ("/metrics"@, AdminHandle::Metrics),
            ("/job"@, AdminHandle::Job),
            ("/metadata"@, AdminHandle::Metadata),
            ("/health"@, AdminHandle::Health),
            ("/cordon"@, AdminHandle::Cordon),
            ("/uncordon"@, AdminHandle::Uncordon),
            ("/drain"@, AdminHandle::Drain),
            ("/node_status"@, AdminHandle::NodeStatus),
        ]);
    }
    AdminService::new(api)
}

} // verus!
