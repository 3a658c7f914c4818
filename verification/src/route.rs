//! Route records: the unit of the routing table.
//!
//! A route maps a path pattern to an upstream URL, with method gating, a
//! per-route timeout and an active flag. Routes are validated on every write
//! into the store and never mutated in place inside a published table.

use vstd::prelude::*;
use crate::errors::ConfigError;
use crate::strutil::spec_starts_with;

verus! {

/// Default traffic weight of a new route.
pub const DEFAULT_WEIGHT: u32 = 100;

/// Default per-route upstream timeout in milliseconds.
pub const DEFAULT_TIMEOUT_MS: u64 = 30000;

/// A single routing rule mapping a path pattern to an upstream service.
#[derive(Debug)]
pub struct Route {
    /// Unique identifier of the route.
    pub id: String,
    /// Path pattern to match; must begin with `/`, may end with `/` (prefix)
    /// or `/*` (wildcard).
    pub path: String,
    /// Upstream service URL; must carry an `http://` or `https://` scheme.
    pub upstream: String,
    /// Traffic weight reserved for load balancing (0-100).
    pub weight: u32,
    /// Whether this route takes part in routing.
    pub active: bool,
    /// Allowed methods, uppercase verbs; an empty set admits every method.
    pub methods: Vec<String>,
    /// Upstream dispatch timeout in milliseconds.
    pub timeout_ms: u64,
    /// Free-form description.
    pub description: String,
}

/// The mathematical model of a route: every string is a character sequence.
pub struct RouteView {
    /// Identifier.
    pub id: Seq<char>,
    /// Path pattern.
    pub path: Seq<char>,
    /// Upstream URL.
    pub upstream: Seq<char>,
    /// Traffic weight.
    pub weight: u32,
    /// Active flag.
    pub active: bool,
    /// Allowed methods.
    pub methods: Seq<Seq<char>>,
    /// Upstream timeout in milliseconds.
    pub timeout_ms: u64,
    /// Description.
    pub description: Seq<char>,
}

impl View for Route {
    type V = RouteView;

    open spec fn view(&self) -> RouteView {
        RouteView {
            id: self.id@,
            path: self.path@,
            upstream: self.upstream@,
            weight: self.weight,
            active: self.active,
            methods: self.methods@.map_values(|m: String| m@),
            timeout_ms: self.timeout_ms,
            description: self.description@,
        }
    }
}

/// ASCII-case-insensitive equality of two characters.
pub open spec fn spec_char_ieq(a: char, b: char) -> bool {
    (a as u32) == (b as u32)
    || (65 <= a as u32 <= 90 && b as u32 == a as u32 + 32)
    || (65 <= b as u32 <= 90 && a as u32 == b as u32 + 32)
}

/// ASCII-case-insensitive equality of two strings.
pub open spec fn spec_str_ieq(a: Seq<char>, b: Seq<char>) -> bool {
    a.len() == b.len() && forall|i: int| 0 <= i < a.len() ==> spec_char_ieq(a[i], b[i])
}

/// ASCII-case-insensitive string comparison.
pub fn str_eq_ignore_ascii_case(a: &str, b: &str) -> (r: bool)
    ensures
        r == spec_str_ieq(a@, b@),
{
    let alen = a.unicode_len();
    let blen = b.unicode_len();
    if alen != blen {
        return false;
    }
    let mut i: usize = 0;
    while i < alen
        invariant
            alen == a@.len(),
            blen == b@.len(),
            alen == blen,
            i <= alen,
            forall|j: int| 0 <= j < i ==> spec_char_ieq(a@[j], b@[j]),
        decreases alen - i,
    {
        let ca = a.get_char(i) as u32;
        let cb = b.get_char(i) as u32;
        let ieq = ca == cb
            || (65 <= ca && ca <= 90 && cb == ca + 32)
            || (65 <= cb && cb <= 90 && ca == cb + 32);
        if !ieq {
            return false;
        }
        i += 1;
    }
    true
}

impl Route {
    /// A new active route with default weight and timeout and no method
    /// restriction.
    pub fn new(id: &str, path: &str, upstream: &str) -> (r: Route)
        ensures
            r@.id == id@,
            r@.path == path@,
            r@.upstream == upstream@,
            r@.weight == DEFAULT_WEIGHT,
            r@.active,
            r@.methods.len() == 0,
            r@.timeout_ms == DEFAULT_TIMEOUT_MS,
            r@.description.len() == 0,
    {
        let r = Route {
            id: id.to_owned(),
            path: path.to_owned(),
            upstream: upstream.to_owned(),
            weight: DEFAULT_WEIGHT,
            active: true,
            methods: Vec::new(),
            timeout_ms: DEFAULT_TIMEOUT_MS,
            description: String::new(),
        };
        proof {
            assert(r@.methods =~= Seq::<Seq<char>>::empty());
        }
        r
    }

    /// An exact copy of this route.
    pub fn duplicate(&self) -> (r: Route)
        ensures
            r@ == self@,
    {
        let mut methods: Vec<String> = Vec::new();
        let mut i: usize = 0;
        while i < self.methods.len()
            invariant
                i <= self.methods@.len(),
                methods@.len() == i,
                forall|j: int| 0 <= j < i ==> #[trigger] methods@[j]@ == self.methods@[j]@,
            decreases self.methods@.len() - i,
        {
            methods.push(self.methods[i].clone());
            i += 1;
        }
        proof {
            assert(methods@.map_values(|m: String| m@)
                =~= self.methods@.map_values(|m: String| m@));
        }
        let r = Route {
            id: self.id.clone(),
            path: self.path.clone(),
            upstream: self.upstream.clone(),
            weight: self.weight,
            active: self.active,
            methods,
            timeout_ms: self.timeout_ms,
            description: self.description.clone(),
        };
        proof {
            assert(r@ == self@);
        }
        r
    }

    /// The method gate: an empty method set admits every method, otherwise
    /// the set must contain the method up to ASCII case.
    pub open spec fn spec_allows_method(rv: RouteView, method: Seq<char>) -> bool {
        rv.methods.len() == 0
        || exists|i: int| 0 <= i < rv.methods.len() && spec_str_ieq(rv.methods[i], method)
    }

    /// Whether this route admits the given method.
    pub fn allows_method(&self, method: &str) -> (r: bool)
        ensures
            r == Route::spec_allows_method(self@, method@),
    {
        if self.methods.len() == 0 {
            return true;
        }
        let mut i: usize = 0;
        while i < self.methods.len()
            invariant
                i <= self.methods@.len(),
                forall|j: int| 0 <= j < i ==> !spec_str_ieq(self@.methods[j], method@),
        decreases self.methods@.len() - i,
    {
            if str_eq_ignore_ascii_case(self.methods[i].as_str(), method) {
                proof {
                    assert(self@.methods[i as int] == self.methods@[i as int]@);
                }
                return true;
            }
            i += 1;
        }
        false
    }
}

/// A route with an empty method set admits every method.
pub proof fn lemma_empty_method_set_admits_all(rv: RouteView, method: Seq<char>)
    requires
        rv.methods.len() == 0,
    ensures
        Route::spec_allows_method(rv, method),
{
}

/// Validity of a route document: non-empty id and path, path begins with
/// `/`, upstream carries an `http://` or `https://` scheme.
pub open spec fn spec_route_valid(rv: RouteView) -> bool {
    &&& rv.id.len() > 0
    &&& rv.path.len() > 0
    &&& rv.path[0] == '/'
    &&& rv.upstream.len() > 0
    &&& (spec_starts_with(rv.upstream, "http://"@) || spec_starts_with(rv.upstream, "https://"@))
}

/// Validate a route document; `Ok` exactly on valid routes, and every
/// rejection is a typed `InvalidRoute`.
pub fn validate_route(route: &Route) -> (r: Result<(), ConfigError>)
    ensures
        r.is_ok() <==> spec_route_valid(route@),
        match r {
            Err(e) => e is InvalidRoute,
            Ok(_) => true,
        },
{
    if route.id.unicode_len() == 0 {
        return Err(ConfigError::InvalidRoute { reason: "Route ID cannot be empty".to_owned() });
    }
    if route.path.unicode_len() == 0 {
        return Err(ConfigError::InvalidRoute { reason: "Route path cannot be empty".to_owned() });
    }
    if route.path.get_char(0) != '/' {
        return Err(ConfigError::InvalidRoute {
            reason: "Route path must start with '/'".to_owned(),
        });
    }
    if route.upstream.unicode_len() == 0 {
        return Err(ConfigError::InvalidRoute { reason: "Upstream URL cannot be empty".to_owned() });
    }
    if !crate::strutil::str_starts_with(route.upstream.as_str(), "http://")
        && !crate::strutil::str_starts_with(route.upstream.as_str(), "https://") {
        return Err(ConfigError::InvalidRoute {
            reason: "Upstream must be a valid HTTP/HTTPS URL".to_owned(),
        });
    }
    Ok(())
}

} // verus!
