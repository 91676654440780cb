use vstd::prelude::*;
use vstd::string::*;

verus! {

/// The validated claims of one connection's token: the path scope it was
/// issued for, what it may subscribe to and publish under (either may be
/// absent), and whether the connection originates from within the cluster
/// rather than from an edge client.
pub struct Claims {
    pub path: String,
    pub subscribe: Option<String>,
    pub publish: Option<String>,
    pub cluster: bool,
}

/// Whether a registration matches every path sharing a prefix, or one exact path.
#[derive(Clone, Copy, Debug, PartialEq, Eq, Structural)]
pub enum ScopeMode {
    Prefix,
    Exact,
}

/// Which of the two origin scopes a registration targets: the primary (local)
/// origin or the secondary (cluster-visible) one.
#[derive(Clone, Copy, Debug, PartialEq, Eq, Structural)]
pub enum OriginId {
    Primary,
    Secondary,
}

/// One subscribe-side registration: the session is fed everything the primary
/// origin produces under `full`, and — for edge clients only — everything the
/// secondary origin produces there as well.
pub struct SubscribePlan {
    pub full: String,
    pub mode: ScopeMode,
    pub secondary: bool,
}

/// One publish-side registration: everything the session produces under its
/// publish scope is published into `origin` under `full`.
pub struct PublishPlan {
    pub full: String,
    pub mode: ScopeMode,
    pub origin: OriginId,
}

/// The registrations a connection makes right after its handshake, one
/// subscribe-side and one publish-side, either possibly absent.
pub struct RoutePlan {
    pub subscribe: Option<SubscribePlan>,
    pub publish: Option<PublishPlan>,
}

/// A combined path names a prefix scope when it is empty or ends with the
/// path separator; otherwise it names one exact path.
pub open spec fn is_prefix_scope(full: Seq<char>) -> bool {
    full.len() == 0 || full.last() == '/'
}

/// The registration mode a combined path calls for.
pub open spec fn spec_scope_mode(full: Seq<char>) -> ScopeMode {
    if is_prefix_scope(full) {
        ScopeMode::Prefix
    } else {
        ScopeMode::Exact
    }
}

/// Decide prefix-vs-exact from the combined path alone.
fn scope_mode(full: &String) -> (m: ScopeMode)
    ensures
        m == spec_scope_mode(full@),
{
    let n = full.as_str().unicode_len();
    if n == 0 {
        ScopeMode::Prefix
    } else if full.as_str().get_char(n - 1) == '/' {
        ScopeMode::Prefix
    } else {
        ScopeMode::Exact
    }
}

/// Translate a connection's claims into its registrations.
///
/// The subscribe side always draws from the primary origin; it also draws from
/// the secondary origin exactly when the connection is an edge client, so that
/// edge subscribers see the union of local and cluster-wide broadcasts while a
/// cluster peer never reads back its own replicated traffic. The publish side
/// goes into the secondary origin for cluster peers and into the primary
/// origin otherwise. Prefix-vs-exact is decided by the combined path alone,
/// never by the subscribe or publish fragment by itself.
pub fn route(claims: &Claims) -> (r: RoutePlan)
    ensures
        match claims.subscribe {
            Some(s) => r.subscribe matches Some(sp) && sp.full@ == claims.path@ + s@ && sp.mode
                == spec_scope_mode(claims.path@ + s@) && sp.secondary == !claims.cluster,
            None => r.subscribe is None,
        },
        match claims.publish {
            Some(p) => r.publish matches Some(pp) && pp.full@ == claims.path@ + p@ && pp.mode
                == spec_scope_mode(claims.path@ + p@) && pp.origin == (if claims.cluster {
                OriginId::Secondary
            } else {
                OriginId::Primary
            }),
            None => r.publish is None,
        },
{
    let subscribe = match &claims.subscribe {
        Some(s) => {
            let full = claims.path.clone().concat(s.as_str());
            let mode = scope_mode(&full);
            Some(SubscribePlan { full, mode, secondary: !claims.cluster })
        },
        None => None,
    };
    let publish = match &claims.publish {
        Some(p) => {
            let full = claims.path.clone().concat(p.as_str());
            let mode = scope_mode(&full);
            let origin = if claims.cluster {
                OriginId::Secondary
            } else {
                OriginId::Primary
            };
            Some(PublishPlan { full, mode, origin })
        },
        None => None,
    };
    RoutePlan { subscribe, publish }
}

} // verus!
