//! Route tables: registration of route templates per method, and
//! resolution of a request's method and path to a route, a
//! `405 Method Not Allowed` answer or a miss. Path matching itself is the
//! `matchit` crate's.
use vstd::prelude::*;

use crate::errors::FrameworkError;
use crate::http::{method_text, Method, MethodModel};
use crate::path::{law_normalize_idempotent, normalize_chars, normalize_path_template, spec_normalize};
use crate::text::{chars_of, extend_chars, extend_str, join, string_of};

verus! {

// ---------------------------------------------------------------------------
// Route contracts
// ---------------------------------------------------------------------------
/// The kind of request body a route accepts.
#[derive(Clone, Copy, Debug, PartialEq, Eq, Structural)]
pub enum RequestBodyKind {
    NoBody,
    Bytes,
    Text,
    Json,
}

/// What a route requires of a request's body.
#[derive(Clone, Copy, Debug, PartialEq, Eq, Structural)]
pub struct RouteContract {
    pub body: RequestBodyKind,
}

impl Default for RequestBodyKind {
    fn default() -> (r: Self)
        ensures
            r == RequestBodyKind::NoBody,
    {
        RequestBodyKind::NoBody
    }
}

impl Default for RouteContract {
    fn default() -> (r: Self)
        ensures
            r == (RouteContract { body: RequestBodyKind::NoBody }),
    {
        RouteContract { body: RequestBodyKind::NoBody }
    }
}

/// The content type a body kind requires, if any.
pub open spec fn spec_required_content_type(body: RequestBodyKind) -> Option<Seq<char>> {
    match body {
        RequestBodyKind::Text => Some("text/plain"@),
        RequestBodyKind::Json => Some("application/json"@),
        _ => None,
    }
}

impl RouteContract {
    /// A contract for the given body kind.
    pub fn new(body: RequestBodyKind) -> (r: Self)
        ensures
            r == (RouteContract { body }),
    {
        RouteContract { body }
    }

    /// Whether the route accepts a body at all.
    pub fn allows_body(self) -> (r: bool)
        ensures
            r == (self.body != RequestBodyKind::NoBody),
    {
        match self.body {
            RequestBodyKind::NoBody => false,
            _ => true,
        }
    }

    /// The content type the route requires of a body: `text/plain` for
    /// text, `application/json` for JSON, none otherwise.
    pub fn required_content_type(self) -> (r: Option<&'static str>)
        ensures
            match spec_required_content_type(self.body) {
                Some(t) => r matches Some(x) && x@ == t,
                None => r is None,
            },
    {
        match self.body {
            RequestBodyKind::Text => Some("text/plain"),
            RequestBodyKind::Json => Some("application/json"),
            _ => None,
        }
    }
}

// ---------------------------------------------------------------------------
// The path matcher
// ---------------------------------------------------------------------------
#[verifier::external_type_specification]
#[verifier::external_body]
#[verifier::reject_recursive_types(T)]
pub struct ExMatchitRouter<T>(matchit::Router<T>);

/// The routes a `matchit` router holds: each route template it accepted,
/// with its value.
pub uninterp spec fn matcher_routes(m: matchit::Router<usize>) -> Map<Seq<char>, usize>;

/// What `matchit::Router::at` answers for a path, given the routes the
/// router holds: the matched route's value and the path parameters it
/// binds, in order.
pub uninterp spec fn route_match(routes: Map<Seq<char>, usize>, path: Seq<char>) -> Option<
    (usize, Seq<(Seq<char>, Seq<char>)>),
>;

/// Why `matchit` refused a route.
#[derive(Debug)]
pub enum RouteInsertError {
    /// The route conflicts with the one already registered as `with`.
    Conflict { with: String },
    InvalidParamSegment,
    InvalidParam,
    InvalidCatchAll,
    /// A refusal of a kind added after this list was written.
    Other,
}

/// No routes.
pub open spec fn no_routes() -> Map<Seq<char>, usize> {
    Map::empty()
}

/// `matchit::Router::new`: a router that holds no routes.
#[verifier::external_body]
fn matcher_new() -> (r: matchit::Router<usize>)
    ensures
        matcher_routes(r) == no_routes(),
{
    matchit::Router::new()
}

/// `matchit::Router::insert`: on success the router holds the route with
/// its value. A refused route leaves the routes the router holds as they
/// were (the insertion may reshape the tree's nodes, which splits a prefix
/// without moving any value, before it finds the refusal). A route the
/// router already holds is refused: the walk ends at the node that holds
/// its value. Which other routes are refused, and the text of a conflict,
/// depend on the tree's shape and are left unsaid.
#[verifier::external_body]
fn matcher_insert(m: &mut matchit::Router<usize>, route: &str, value: usize) -> (r: Result<
    (),
    RouteInsertError,
>)
    ensures
        r is Ok ==> matcher_routes(*final(m)) == matcher_routes(*old(m)).insert(route@, value),
        r is Err ==> matcher_routes(*final(m)) == matcher_routes(*old(m)),
        matcher_routes(*old(m)).dom().contains(route@) ==> r is Err,
{
    match m.insert(route, value) {
        Ok(()) => Ok(()),
        Err(matchit::InsertError::Conflict { with }) => Err(RouteInsertError::Conflict { with }),
        Err(matchit::InsertError::InvalidParamSegment) => Err(RouteInsertError::InvalidParamSegment),
        Err(matchit::InsertError::InvalidParam) => Err(RouteInsertError::InvalidParam),
        Err(matchit::InsertError::InvalidCatchAll) => Err(RouteInsertError::InvalidCatchAll),
        Err(_) => Err(RouteInsertError::Other),
    }
}

/// A route template without parameters: no `{` or `}` in it.
pub open spec fn is_static_route(path: Seq<char>) -> bool {
    !path.contains('{') && !path.contains('}')
}

/// The abstract value of a matcher's answer.
pub open spec fn answer_model(r: Option<(usize, Vec<(String, String)>)>) -> Option<(usize, Seq<(Seq<char>, Seq<char>)>)> {
    match r {
        Some((v, ps)) => Some((v, crate::config::entry_pairs(ps@))),
        None => None,
    }
}

/// No path parameters.
pub open spec fn no_params() -> Seq<(Seq<char>, Seq<char>)> {
    Seq::empty()
}

/// `matchit::Router::at`: the answer is `route_match` of the routes the
/// router holds. A path that equals a stored route without parameters
/// matches that route with no parameters (static routes take priority).
#[verifier::external_body]
fn matcher_at(m: &matchit::Router<usize>, path: &str) -> (r: Option<(usize, Vec<(String, String)>)>)
    ensures
        answer_model(r) == route_match(matcher_routes(*m), path@),
        matcher_routes(*m).dom().contains(path@) && is_static_route(path@) ==> answer_model(r)
            == Some((matcher_routes(*m)[path@], no_params())),
{
    match m.at(path) {
        Ok(found) => Some(
            (
                *found.value,
                found.params.iter().map(|(k, v)| (k.to_string(), v.to_string())).collect(),
            ),
        ),
        Err(_) => None,
    }
}


// ---------------------------------------------------------------------------
// Method order
// ---------------------------------------------------------------------------
/// The rank of a method in `Allow` lists: GET, HEAD, POST, PUT, DELETE,
/// PATCH, OPTIONS, then any other.
pub open spec fn method_rank(m: MethodModel) -> nat {
    match m {
        MethodModel::Get => 0,
        MethodModel::Head => 1,
        MethodModel::Post => 2,
        MethodModel::Put => 3,
        MethodModel::Delete => 4,
        MethodModel::Patch => 5,
        MethodModel::Options => 6,
        MethodModel::Other(_) => 7,
    }
}

/// The rank of a method in `Allow` lists.
pub fn method_sort_key(method: &Method) -> (r: u8)
    ensures
        r == method_rank(method@),
{
    match method {
        Method::Get => 0,
        Method::Head => 1,
        Method::Post => 2,
        Method::Put => 3,
        Method::Delete => 4,
        Method::Patch => 5,
        Method::Options => 6,
        Method::Other(_) => 7,
    }
}

/// The methods of `s` whose rank is `k`, in order.
pub open spec fn with_rank(s: Seq<MethodModel>, k: nat) -> Seq<MethodModel>
    decreases s.len(),
{
    if s.len() == 0 {
        Seq::empty()
    } else if method_rank(s.last()) == k {
        with_rank(s.drop_last(), k).push(s.last())
    } else {
        with_rank(s.drop_last(), k)
    }
}

/// The methods of `s` whose rank is below `k`, ordered by rank; equal
/// ranks keep their order (a stable sort when `k` is 8).
pub open spec fn ranked_below(s: Seq<MethodModel>, k: nat) -> Seq<MethodModel>
    decreases k,
{
    if k == 0 {
        Seq::empty()
    } else {
        ranked_below(s, (k - 1) as nat) + with_rank(s, (k - 1) as nat)
    }
}

/// `s` stably sorted by rank.
pub open spec fn sort_by_rank(s: Seq<MethodModel>) -> Seq<MethodModel> {
    ranked_below(s, 8)
}

/// `s` with each run of equal neighbours reduced to one.
pub open spec fn dedup(s: Seq<MethodModel>) -> Seq<MethodModel>
    decreases s.len(),
{
    if s.len() <= 1 {
        s
    } else if s.last() == s[s.len() - 2] {
        dedup(s.drop_last())
    } else {
        dedup(s.drop_last()).push(s.last())
    }
}

/// The abstract value of a list of methods.
pub open spec fn method_models(v: Seq<Method>) -> Seq<MethodModel> {
    v.map_values(|m: Method| m@)
}

/// Sorts methods stably by rank and removes neighbouring duplicates.
pub fn sort_dedup_methods(methods: &[Method]) -> (r: Vec<Method>)
    ensures
        method_models(r@) == dedup(sort_by_rank(method_models(methods@))),
{
    let ghost ms = method_models(methods@);
    let mut sorted: Vec<Method> = Vec::new();
    let mut k: u8 = 0;
    assert(method_models(sorted@) =~= ranked_below(ms, 0));
    while k < 8
        invariant
            k <= 8,
            ms == method_models(methods@),
            method_models(sorted@) == ranked_below(ms, k as nat),
        decreases 8 - k,
    {
        let ghost before = method_models(sorted@);
        let mut i: usize = 0;
        assert(ms.take(0) =~= Seq::<MethodModel>::empty());
        assert(before + with_rank(ms.take(0), k as nat) =~= before);
        while i < methods.len()
            invariant
                k < 8,
                i <= methods.len(),
                ms == method_models(methods@),
                method_models(sorted@) == before + with_rank(ms.take(i as int), k as nat),
            decreases methods.len() - i,
        {
            assert(ms.take(i + 1).drop_last() =~= ms.take(i as int));
            assert(ms.take(i + 1).last() == methods@[i as int]@);
            if method_sort_key(&methods[i]) == k {
                let ghost pre = sorted@;
                sorted.push(methods[i].duplicate());
                assert(method_models(sorted@) =~= method_models(pre).push(methods@[i as int]@));
            }
            i += 1;
        }
        assert(ms.take(methods.len() as int) =~= ms);
        k += 1;
    }
    let ghost ss = method_models(sorted@);
    let mut out: Vec<Method> = Vec::new();
    let mut j: usize = 0;
    assert(dedup(ss.take(0)) =~= method_models(out@));
    while j < sorted.len()
        invariant
            j <= sorted.len(),
            ss == method_models(sorted@),
            method_models(out@) == dedup(ss.take(j as int)),
            j > 0 ==> out@.len() > 0 && out@.last()@ == ss[j - 1],
        decreases sorted.len() - j,
    {
        assert(ss.take(j + 1).drop_last() =~= ss.take(j as int));
        proof {
            if j > 0 {
                assert(ss.take(j + 1)[j - 1] == ss[j - 1]);
            }
            lemma_dedup_last(ss.take(j as int));
        }
        if j == 0 || !out[out.len() - 1].same(&sorted[j]) {
            let ghost pre = out@;
            out.push(sorted[j].duplicate());
            assert(method_models(out@) =~= method_models(pre).push(ss[j as int]));
        }
        j += 1;
    }
    assert(ss.take(sorted.len() as int) =~= ss);
    out
}

/// A non-empty run's reduction ends with its last element.
proof fn lemma_dedup_last(s: Seq<MethodModel>)
    ensures
        s.len() > 0 ==> dedup(s).len() > 0 && dedup(s).last() == s.last(),
    decreases s.len(),
{
    if s.len() > 1 {
        lemma_dedup_last(s.drop_last());
    }
}

/// The `Allow` header value for a set of methods: sorted by rank, without
/// neighbouring duplicates, joined with `, `.
pub open spec fn spec_allow_header(methods: Seq<MethodModel>) -> Seq<char> {
    join(dedup(sort_by_rank(methods)).map_values(|m: MethodModel| method_text(m)), ", "@)
}

/// Whether no method of `s` is outside the standard seven.
pub open spec fn standard_methods(s: Seq<MethodModel>) -> bool {
    forall|i: int| 0 <= i < s.len() ==> !(#[trigger] s[i] is Other)
}

/// The standard method of rank `k`.
pub open spec fn method_of_rank(k: nat) -> MethodModel {
    if k == 0 {
        MethodModel::Get
    } else if k == 1 {
        MethodModel::Head
    } else if k == 2 {
        MethodModel::Post
    } else if k == 3 {
        MethodModel::Put
    } else if k == 4 {
        MethodModel::Delete
    } else if k == 5 {
        MethodModel::Patch
    } else {
        MethodModel::Options
    }
}

/// The standard methods of rank below `k` that occur in `s`, once each, in
/// rank order.
pub open spec fn present_below(s: Seq<MethodModel>, k: nat) -> Seq<MethodModel>
    decreases k,
{
    if k == 0 {
        Seq::empty()
    } else if k - 1 < 7 && s.contains(method_of_rank((k - 1) as nat)) {
        present_below(s, (k - 1) as nat).push(method_of_rank((k - 1) as nat))
    } else {
        present_below(s, (k - 1) as nat)
    }
}

/// A rank that some method of `s` has is kept by `with_rank`.
proof fn lemma_with_rank_found(s: Seq<MethodModel>, k: nat)
    ensures
        (exists|i: int| 0 <= i < s.len() && method_rank(#[trigger] s[i]) == k) ==> with_rank(s, k).len()
            > 0,
    decreases s.len(),
{
    if s.len() > 0 {
        let t = s.drop_last();
        lemma_with_rank_found(t, k);
        if exists|i: int| 0 <= i < s.len() && method_rank(#[trigger] s[i]) == k {
            let i = choose|i: int| 0 <= i < s.len() && method_rank(#[trigger] s[i]) == k;
            if i < s.len() - 1 {
                assert(t[i] == s[i]);
            }
        }
    }
}

proof fn lemma_ranked_below_ranks(s: Seq<MethodModel>, k: nat)
    ensures
        forall|i: int| 0 <= i < ranked_below(s, k).len() ==> method_rank(#[trigger] ranked_below(s, k)[i]) < k,
    decreases k,
{
    if k > 0 {
        lemma_ranked_below_ranks(s, (k - 1) as nat);
        lemma_with_rank_members(s, (k - 1) as nat);
        let a = ranked_below(s, (k - 1) as nat);
        let b = with_rank(s, (k - 1) as nat);
        assert forall|i: int| 0 <= i < ranked_below(s, k).len() implies method_rank(
            #[trigger] ranked_below(s, k)[i],
        ) < k by {
            if i < a.len() {
                assert(ranked_below(s, k)[i] == a[i]);
            } else {
                assert(ranked_below(s, k)[i] == b[i - a.len()]);
            }
        }
    }
}

proof fn lemma_dedup_run(a: Seq<MethodModel>, r: Seq<MethodModel>, x: MethodModel)
    requires
        r.len() > 0,
        forall|i: int| 0 <= i < r.len() ==> #[trigger] r[i] == x,
        a.len() > 0 ==> a.last() != x,
    ensures
        dedup(a + r) == dedup(a).push(x),
    decreases r.len(),
{
    if r.len() == 1 {
        assert(r =~= seq![x]);
        assert(a + r =~= a.push(x));
        if a.len() > 0 {
            assert((a + r).drop_last() =~= a);
        } else {
            assert(dedup(a) =~= Seq::<MethodModel>::empty());
            assert(a + r =~= seq![x]);
        }
    } else {
        let r0 = r.drop_last();
        assert(r0[0] == x);
        lemma_dedup_run(a, r0, x);
        assert((a + r).drop_last() =~= a + r0);
        assert((a + r).last() == x);
        assert((a + r)[(a + r).len() - 2] == r[r.len() - 2]);
    }
}

proof fn lemma_standard_rank(m: MethodModel, k: nat)
    requires
        !(m is Other),
        k < 7,
    ensures
        (method_rank(m) == k) == (m == method_of_rank(k)),
{
}

proof fn lemma_allow_order(s: Seq<MethodModel>, k: nat)
    requires
        standard_methods(s),
        k <= 8,
    ensures
        dedup(ranked_below(s, k)) == present_below(s, k),
    decreases k,
{
    if k > 0 {
        let j = (k - 1) as nat;
        lemma_allow_order(s, j);
        lemma_ranked_below_ranks(s, j);
        lemma_with_rank_members(s, j);
        lemma_with_rank_found(s, j);
        let a = ranked_below(s, j);
        let r = with_rank(s, j);
        if r.len() == 0 {
            assert(a + r =~= a);
            if j < 7 && s.contains(method_of_rank(j)) {
                let i = choose|i: int| 0 <= i < s.len() && s[i] == method_of_rank(j);
                assert(method_rank(s[i]) == j);
            }
        } else {
            let x0 = r[0];
            assert(s.contains(x0));
            let i0 = choose|i: int| 0 <= i < s.len() && s[i] == x0;
            assert(!(s[i0] is Other));
            assert(j < 7);
            let x = method_of_rank(j);
            assert forall|i: int| 0 <= i < r.len() implies #[trigger] r[i] == x by {
                assert(s.contains(r[i]));
                let i1 = choose|i1: int| 0 <= i1 < s.len() && s[i1] == r[i];
                assert(!(s[i1] is Other));
                lemma_standard_rank(r[i], j);
            }
            if a.len() > 0 {
                assert(method_rank(a[a.len() - 1]) < j);
            }
            lemma_dedup_run(a, r, x);
            assert(s.contains(x)) by {
                assert(r[0] == x);
            }
        }
    }
}

proof fn lemma_present_below_members(a: Seq<MethodModel>, b: Seq<MethodModel>, k: nat)
    requires
        forall|m: MethodModel| a.contains(m) <==> b.contains(m),
    ensures
        present_below(a, k) == present_below(b, k),
    decreases k,
{
    if k > 0 {
        lemma_present_below_members(a, b, (k - 1) as nat);
    }
}

/// For standard methods the `Allow` list is the methods present, once each,
/// in the order GET, HEAD, POST, PUT, DELETE, PATCH, OPTIONS.
pub proof fn law_allow_list_is_ranked_set(s: Seq<MethodModel>)
    requires
        standard_methods(s),
    ensures
        dedup(sort_by_rank(s)) == present_below(s, 7),
{
    lemma_allow_order(s, 8);
}

/// The `Allow` header depends only on which standard methods are given:
/// any order or repetition of the same methods gives the same header.
pub proof fn law_allow_header_depends_on_method_set(a: Seq<MethodModel>, b: Seq<MethodModel>)
    requires
        standard_methods(a),
        standard_methods(b),
        forall|m: MethodModel| a.contains(m) <==> b.contains(m),
    ensures
        spec_allow_header(a) == spec_allow_header(b),
{
    lemma_allow_order(a, 8);
    lemma_allow_order(b, 8);
    lemma_present_below_members(a, b, 8);
}

/// Formats the `Allow` header value for a set of methods.
pub fn format_allow_header(methods: &[Method]) -> (r: String)
    ensures
        r@ == spec_allow_header(method_models(methods@)),
{
    let unique = sort_dedup_methods(methods);
    let ghost us = dedup(sort_by_rank(method_models(methods@)));
    let mut names: Vec<Vec<char>> = Vec::new();
    let mut i: usize = 0;
    while i < unique.len()
        invariant
            i <= unique.len(),
            method_models(unique@) == us,
            names@.map_values(|p: Vec<char>| p@) == us.take(i as int).map_values(
                |m: MethodModel| method_text(m),
            ),
        decreases unique.len() - i,
    {
        let t = unique[i].to_string();
        let ghost pre = names@;
        names.push(chars_of(t.as_str()));
        assert(us[i as int] == unique@[i as int]@);
        assert(names@.map_values(|p: Vec<char>| p@) =~= pre.map_values(|p: Vec<char>| p@).push(t@));
        assert(us.take(i + 1).map_values(|m: MethodModel| method_text(m)) =~= us.take(
            i as int,
        ).map_values(|m: MethodModel| method_text(m)).push(method_text(us[i as int])));
        i += 1;
    }
    assert(us.take(unique.len() as int) =~= us);
    let sep = chars_of(", ");
    let joined = crate::text::join_chars(&names, sep.as_slice());
    string_of(joined.as_slice())
}

// ---------------------------------------------------------------------------
// Route tables
// ---------------------------------------------------------------------------
/// A route declaration: method, path template, the slot of its handler in
/// the caller's handler table, and its body contract.
#[derive(Clone, Debug)]
pub struct RouteDefinition {
    pub method: Method,
    pub path: String,
    pub handler: usize,
    pub contract: RouteContract,
}

impl RouteDefinition {
    /// A declaration with the default contract (no body).
    pub fn new(method: Method, path: &str, handler: usize) -> (r: Self)
        ensures
            r.method@ == method@,
            r.path@ == path@,
            r.handler == handler,
            r.contract == (RouteContract { body: RequestBodyKind::NoBody }),
    {
        RouteDefinition {
            method,
            path: path.to_string(),
            handler,
            contract: RouteContract { body: RequestBodyKind::NoBody },
        }
    }

    /// The declaration with another body contract.
    pub fn with_contract(self, contract: RouteContract) -> (r: Self)
        ensures
            r.method@ == self.method@,
            r.path@ == self.path@,
            r.handler == self.handler,
            r.contract == contract,
    {
        RouteDefinition { contract, ..self }
    }
}

/// A registered route.
#[derive(Clone, Debug)]
pub struct RouteRecord {
    pub path: String,
    pub handler: usize,
    pub contract: RouteContract,
}

/// The abstract value of a registered route.
pub struct RecordModel {
    pub path: Seq<char>,
    pub handler: usize,
    pub contract: RouteContract,
}

/// The routes of one method: the matcher and the routes its values index.
struct MethodRoutes {
    method: Method,
    matcher: matchit::Router<usize>,
    routes: Vec<RouteRecord>,
}

/// The abstract value of one method's routes.
pub struct IndexModel {
    pub method: MethodModel,
    pub table: Map<Seq<char>, usize>,
    pub routes: Seq<RecordModel>,
}

/// Route tables, one per method, in the order methods were first
/// registered.
pub struct RouteTable {
    indexes: Vec<MethodRoutes>,
}

/// The abstract value of a route record.
pub open spec fn record_model(r: RouteRecord) -> RecordModel {
    RecordModel { path: r.path@, handler: r.handler, contract: r.contract }
}

impl MethodRoutes {
    closed spec fn model(self) -> IndexModel {
        IndexModel {
            method: self.method@,
            table: matcher_routes(self.matcher),
            routes: self.routes@.map_values(|r: RouteRecord| record_model(r)),
        }
    }
}

impl View for RouteTable {
    type V = Seq<IndexModel>;

    closed spec fn view(&self) -> Seq<IndexModel> {
        self.indexes@.map_values(|ix: MethodRoutes| ix.model())
    }
}

/// Route tables are well formed: each method has one table, and every
/// value a matcher holds indexes a route of its table.
pub open spec fn router_wf(ix: Seq<IndexModel>) -> bool {
    &&& forall|i: int, j: int|
        0 <= i < j < ix.len() ==> #[trigger] ix[i].method != #[trigger] ix[j].method
    &&& forall|i: int, k: Seq<char>|
        0 <= i < ix.len() && #[trigger] ix[i].table.dom().contains(k) ==> ix[i].table[k]
            < ix[i].routes.len()
}

/// The position of a method's table.
pub open spec fn method_position(ix: Seq<IndexModel>, m: MethodModel) -> Option<int>
    decreases ix.len(),
{
    if ix.len() == 0 {
        None
    } else {
        match method_position(ix.drop_last(), m) {
            Some(i) => Some(i),
            None => if ix.last().method == m {
                Some(ix.len() - 1)
            } else {
                None
            },
        }
    }
}

/// The route of a table that a normalized path reaches, with the path
/// parameters it binds.
pub open spec fn table_hit(t: IndexModel, path: Seq<char>) -> Option<(RecordModel, Seq<(Seq<char>, Seq<char>)>)> {
    match route_match(t.table, path) {
        Some((v, ps)) => if v < t.routes.len() {
            Some((t.routes[v as int], ps))
        } else {
            None
        },
        None => None,
    }
}

/// The methods other than `m` whose tables match a normalized path, in
/// table order.
pub open spec fn other_matches(ix: Seq<IndexModel>, m: MethodModel, path: Seq<char>) -> Seq<MethodModel>
    decreases ix.len(),
{
    if ix.len() == 0 {
        Seq::empty()
    } else {
        let before = other_matches(ix.drop_last(), m, path);
        if ix.last().method != m && route_match(ix.last().table, path) is Some {
            before.push(ix.last().method)
        } else {
            before
        }
    }
}

/// The outcome of resolving a request.
pub enum ResolutionModel {
    Matched {
        handler: usize,
        params: Seq<(Seq<char>, Seq<char>)>,
        pattern: Seq<char>,
        contract: RouteContract,
    },
    MethodNotAllowed { allow: Seq<MethodModel> },
    NotFound,
}

/// How a method and path resolve: a path that does not normalize is not
/// found; a route of the method's own table that matches the normalized
/// path is taken; else the other methods whose tables match it are
/// allowed, sorted by rank; with none, the path is not found.
pub open spec fn spec_resolve(ix: Seq<IndexModel>, m: MethodModel, path: Seq<char>) -> ResolutionModel {
    match spec_normalize(path, false) {
        Err(_) => ResolutionModel::NotFound,
        Ok(p) => {
            let own = match method_position(ix, m) {
                Some(i) => table_hit(ix[i], p),
                None => None,
            };
            match own {
                Some((rec, ps)) => ResolutionModel::Matched {
                    handler: rec.handler,
                    params: ps,
                    pattern: rec.path,
                    contract: rec.contract,
                },
                None => {
                    let allow = dedup(sort_by_rank(other_matches(ix, m, p)));
                    if allow.len() == 0 {
                        ResolutionModel::NotFound
                    } else {
                        ResolutionModel::MethodNotAllowed { allow }
                    }
                },
            }
        },
    }
}

/// Whether a request reaches a registered route without parameters: its
/// path normalizes to a parameterless template that the method's table
/// holds (the tables being well formed).
pub open spec fn static_hit(ix: Seq<IndexModel>, m: MethodModel, path: Seq<char>) -> bool {
    &&& router_wf(ix)
    &&& spec_normalize(path, false) is Ok
    &&& method_position(ix, m) is Some
    &&& ix[method_position(ix, m)->0].table.dom().contains(spec_normalize(path, false)->Ok_0)
    &&& is_static_route(spec_normalize(path, false)->Ok_0)
}

/// The answer for a request that reaches a parameterless route: that
/// route, with no path parameters.
pub open spec fn static_answer(ix: Seq<IndexModel>, m: MethodModel, path: Seq<char>) -> ResolutionModel {
    let t = ix[method_position(ix, m)->0];
    let rec = t.routes[t.table[spec_normalize(path, false)->Ok_0] as int];
    ResolutionModel::Matched {
        handler: rec.handler,
        params: Seq::empty(),
        pattern: rec.path,
        contract: rec.contract,
    }
}

/// A matched route: its handler slot, the path parameters, the route
/// template and its body contract.
#[derive(Clone, Debug)]
pub struct RouteMatch {
    pub handler: usize,
    pub path_params: Vec<(String, String)>,
    pub route_pattern: String,
    pub contract: RouteContract,
}

/// How a request resolves against the route tables.
#[derive(Debug)]
pub enum RouteResolution {
    Matched(RouteMatch),
    MethodNotAllowed { allow: Vec<Method> },
    NotFound,
}

/// The abstract value of a resolution.
pub open spec fn resolution_model(r: RouteResolution) -> ResolutionModel {
    match r {
        RouteResolution::Matched(m) => ResolutionModel::Matched {
            handler: m.handler,
            params: crate::config::entry_pairs(m.path_params@),
            pattern: m.route_pattern@,
            contract: m.contract,
        },
        RouteResolution::MethodNotAllowed { allow } => ResolutionModel::MethodNotAllowed {
            allow: method_models(allow@),
        },
        RouteResolution::NotFound => ResolutionModel::NotFound,
    }
}

/// The abstract value of a route-insertion refusal.
pub enum InsertRefusal {
    Conflict(Seq<char>),
    InvalidParamSegment,
    Other,
}

/// The kind of a refusal, with the conflicting route's text.
pub open spec fn refusal_model(e: RouteInsertError) -> InsertRefusal {
    match e {
        RouteInsertError::Conflict { with } => InsertRefusal::Conflict(with@),
        RouteInsertError::InvalidParamSegment => InsertRefusal::InvalidParamSegment,
        _ => InsertRefusal::Other,
    }
}

/// The startup error a refused route becomes: a conflict names both routes
/// and the method; a segment with two parameters, and any other refusal,
/// is a startup error about the route path.
pub open spec fn insert_error_outcome(e: InsertRefusal, method: MethodModel, new_path: Seq<char>, r: FrameworkError) -> bool {
    match e {
        InsertRefusal::Conflict(with) => r matches FrameworkError::RouteConflict {
            method: m,
            existing_path: x,
            new_path: n,
        } && m@ == method_text(method) && x@ == with && n@ == new_path,
        InsertRefusal::InvalidParamSegment => r matches FrameworkError::Startup { context }
            && context@ == "invalid route path segment: only one parameter is allowed per path segment"@,
        InsertRefusal::Other => r matches FrameworkError::Startup { context } && context@
            == "invalid route path: "@ + new_path,
    }
}

/// Turns a refused route into the framework's error.
pub fn map_insert_error(error: RouteInsertError, method: &Method, new_path: &str) -> (r: FrameworkError)
    ensures
        insert_error_outcome(refusal_model(error), method@, new_path@, r),
{
    match error {
        RouteInsertError::Conflict { with } => FrameworkError::RouteConflict {
            method: method.to_string(),
            existing_path: with,
            new_path: new_path.to_string(),
        },
        RouteInsertError::InvalidParamSegment => FrameworkError::Startup {
            context: "invalid route path segment: only one parameter is allowed per path segment".to_string(),
        },
        _ => {
            let mut v: Vec<char> = Vec::new();
            extend_str(&mut v, "invalid route path: ");
            extend_str(&mut v, new_path);
            FrameworkError::Startup { context: string_of(v.as_slice()) }
        },
    }
}

/// Where a method's table is: the first table for it.
proof fn lemma_method_position(ix: Seq<IndexModel>, m: MethodModel, i: int)
    requires
        0 <= i <= ix.len(),
        forall|j: int| 0 <= j < i ==> #[trigger] ix[j].method != m,
        i < ix.len() ==> ix[i].method == m,
    ensures
        i < ix.len() ==> method_position(ix, m) == Some(i),
        i == ix.len() ==> method_position(ix, m) is None,
    decreases ix.len(),
{
    if ix.len() > 0 {
        if i < ix.len() - 1 {
            lemma_method_position(ix.drop_last(), m, i);
        } else if i == ix.len() - 1 {
            lemma_method_position(ix.drop_last(), m, i);
        } else {
            lemma_method_position(ix.drop_last(), m, i - 1);
        }
    }
}

/// A method without a table is the method of no table.
proof fn lemma_method_position_none(ix: Seq<IndexModel>, m: MethodModel)
    requires
        method_position(ix, m) is None,
    ensures
        forall|j: int| 0 <= j < ix.len() ==> #[trigger] ix[j].method != m,
    decreases ix.len(),
{
    if ix.len() > 0 {
        lemma_method_position_none(ix.drop_last(), m);
        assert forall|j: int| 0 <= j < ix.len() implies #[trigger] ix[j].method != m by {
            if j < ix.len() - 1 {
                assert(ix.drop_last()[j] == ix[j]);
            }
        }
    }
}

/// The table for `m` once a route is added at normalized path `p`: a new
/// table when `m` had none.
pub open spec fn with_route(ix: Seq<IndexModel>, m: MethodModel, rec: RecordModel) -> Seq<IndexModel> {
    match method_position(ix, m) {
        Some(i) => ix.update(
            i,
            IndexModel {
                method: ix[i].method,
                table: ix[i].table.insert(rec.path, ix[i].routes.len() as usize),
                routes: ix[i].routes.push(rec),
            },
        ),
        None => ix.push(
            IndexModel {
                method: m,
                table: Map::<Seq<char>, usize>::empty().insert(rec.path, 0usize),
                routes: seq![rec],
            },
        ),
    }
}

/// Whether the table of `m` already holds the template `p`.
pub open spec fn route_taken(ix: Seq<IndexModel>, m: MethodModel, p: Seq<char>) -> bool {
    match method_position(ix, m) {
        Some(i) => ix[i].table.dom().contains(p),
        None => false,
    }
}

/// The tables once `m` has one, empty if it is new.
pub open spec fn with_table(ix: Seq<IndexModel>, m: MethodModel) -> Seq<IndexModel> {
    match method_position(ix, m) {
        Some(_) => ix,
        None => ix.push(
            IndexModel { method: m, table: Map::<Seq<char>, usize>::empty(), routes: Seq::empty() },
        ),
    }
}

impl RouteTable {
    /// Empty route tables.
    pub fn new() -> (r: Self)
        ensures
            r@ == Seq::<IndexModel>::empty(),
            router_wf(r@),
    {
        let r = RouteTable { indexes: Vec::new() };
        assert(r@ =~= Seq::<IndexModel>::empty());
        r
    }

    fn find_method(&self, method: &Method) -> (r: Option<usize>)
        ensures
            match r {
                Some(i) => method_position(self@, method@) == Some(i as int) && i < self@.len(),
                None => method_position(self@, method@) is None,
            },
    {
        let mut i: usize = 0;
        while i < self.indexes.len()
            invariant
                i <= self.indexes.len(),
                self@.len() == self.indexes@.len(),
                forall|j: int| 0 <= j < i ==> #[trigger] self@[j].method != method@,
            decreases self.indexes.len() - i,
        {
            assert(self@[i as int].method == self.indexes@[i as int].method@);
            if self.indexes[i].method.same(method) {
                proof {
                    lemma_method_position(self@, method@, i as int);
                }
                return Some(i);
            }
            i += 1;
        }
        proof {
            lemma_method_position(self@, method@, i as int);
        }
        None
    }

    /// Registers a route. Its template is normalized first (a refusal is
    /// that error, with the tables unchanged); then the method's matcher
    /// takes it (its table is created first when the method is new). A
    /// refusal by the matcher leaves the routes as they were and becomes the
    /// error `map_insert_error` gives for it.
    pub fn add_definition(&mut self, definition: RouteDefinition) -> (r: Result<(), FrameworkError>)
        ensures
            router_wf(old(self)@) ==> router_wf(final(self)@),
            match spec_normalize(definition.path@, true) {
                Err(j) => final(self)@ == old(self)@ && (r matches Err(FrameworkError::Startup { context })
                    && context@ == crate::path::rejection_text(definition.path@, true, j)),
                Ok(p) => {
                    &&& route_taken(old(self)@, definition.method@, p) ==> r is Err && final(self)@
                        == old(self)@
                    &&& r is Ok ==> final(self)@ == with_route(
                        old(self)@,
                        definition.method@,
                        RecordModel { path: p, handler: definition.handler, contract: definition.contract },
                    )
                    &&& r matches Err(e) ==> final(self)@ == with_table(old(self)@, definition.method@)
                        && exists|f: InsertRefusal| insert_error_outcome(f, definition.method@, p, e)
                },
            },
    {
        let path = match normalize_path_template(definition.path.as_str()) {
            Ok(p) => p,
            Err(e) => {
                return Err(e);
            },
        };
        let ghost old_ix = self@;
        let ghost m = definition.method@;
        let pos = self.find_method(&definition.method);
        proof {
            if pos is None {
                lemma_method_position_none(old_ix, m);
            }
        }
        let i = match pos {
            Some(i) => i,
            None => {
                let fresh = MethodRoutes {
                    method: definition.method.duplicate(),
                    matcher: matcher_new(),
                    routes: Vec::new(),
                };
                self.indexes.push(fresh);
                proof {
                    assert(fresh.model().routes =~= Seq::<RecordModel>::empty());
                    assert(self@ =~= with_table(old_ix, m));
                    lemma_method_position(self@, m, old_ix.len() as int);
                }
                self.indexes.len() - 1
            },
        };
        let ghost opened = self@;
        assert(opened == with_table(old_ix, m));
        let mut ix = self.indexes.remove(i);
        let route_id = ix.routes.len();
        match matcher_insert(&mut ix.matcher, path.as_str(), route_id) {
            Ok(()) => {},
            Err(e) => {
                let ghost f = refusal_model(e);
                let err = map_insert_error(e, &definition.method, path.as_str());
                self.indexes.insert(i, ix);
                proof {
                    assert(self@ =~= opened);
                    assert(insert_error_outcome(f, m, path@, err));
                }
                return Err(err);
            },
        }
        let ghost rec = RecordModel {
            path: path@,
            handler: definition.handler,
            contract: definition.contract,
        };
        ix.routes.push(RouteRecord { path, handler: definition.handler, contract: definition.contract });
        self.indexes.insert(i, ix);
        proof {
            assert(ix.model().routes =~= opened[i as int].routes.push(rec));
            assert(self@ =~= opened.update(i as int, ix.model()));
            assert(self@ =~= with_route(old_ix, m, rec));
        }
        Ok(())
    }

    /// Resolves a method and path: the matched route, the methods that
    /// would be allowed, or not found.
    pub fn resolve(&self, method: &Method, path: &str) -> (r: RouteResolution)
        ensures
            resolution_model(r) == spec_resolve(self@, method@, path@),
            static_hit(self@, method@, path@) ==> resolution_model(r) == static_answer(
                self@,
                method@,
                path@,
            ),
    {
        let pc = chars_of(path);
        let norm = match normalize_chars(pc.as_slice(), false) {
            Ok(v) => v,
            Err(_) => {
                return RouteResolution::NotFound;
            },
        };
        let p = string_of(norm.as_slice());
        match self.find_method(method) {
            Some(i) => {
                assert(self@[i as int] == self.indexes@[i as int].model());
                match matcher_at(&self.indexes[i].matcher, p.as_str()) {
                    Some((v, params)) => {
                        if v < self.indexes[i].routes.len() {
                            let rec = &self.indexes[i].routes[v];
                            assert(self@[i as int].routes[v as int] == record_model(*rec));
                            return RouteResolution::Matched(
                                RouteMatch {
                                    handler: rec.handler,
                                    path_params: params,
                                    route_pattern: rec.path.clone(),
                                    contract: rec.contract,
                                },
                            );
                        }
                    },
                    None => {},
                }
            },
            None => {},
        }
        let mut allow: Vec<Method> = Vec::new();
        let mut j: usize = 0;
        assert(self@.take(0) =~= Seq::<IndexModel>::empty());
        assert(method_models(allow@) =~= Seq::<MethodModel>::empty());
        while j < self.indexes.len()
            invariant
                j <= self.indexes.len(),
                self@.len() == self.indexes@.len(),
                p@ == norm@,
                method_models(allow@) == other_matches(self@.take(j as int), method@, p@),
            decreases self.indexes.len() - j,
        {
            assert(self@.take(j + 1).drop_last() =~= self@.take(j as int));
            assert(self@.take(j + 1).last() == self.indexes@[j as int].model());
            if !self.indexes[j].method.same(method) {
                match matcher_at(&self.indexes[j].matcher, p.as_str()) {
                    Some(_) => {
                        let ghost pre = allow@;
                        allow.push(self.indexes[j].method.duplicate());
                        assert(method_models(allow@) =~= method_models(pre).push(
                            self.indexes@[j as int].method@,
                        ));
                    },
                    None => {},
                }
            }
            j += 1;
        }
        assert(self@.take(self.indexes.len() as int) =~= self@);
        let sorted = sort_dedup_methods(allow.as_slice());
        if sorted.len() == 0 {
            RouteResolution::NotFound
        } else {
            RouteResolution::MethodNotAllowed { allow: sorted }
        }
    }

    /// The matched route, if the method and path resolve to one.
    pub fn route(&self, method: &Method, path: &str) -> (r: Option<RouteMatch>)
        ensures
            match spec_resolve(self@, method@, path@) {
                ResolutionModel::Matched { handler, params, pattern, contract } => r matches Some(x)
                    && x.handler == handler && crate::config::entry_pairs(x.path_params@) == params
                    && x.route_pattern@ == pattern && x.contract == contract,
                _ => r is None,
            },
    {
        match self.resolve(method, path) {
            RouteResolution::Matched(m) => Some(m),
            _ => None,
        }
    }
}


// ---------------------------------------------------------------------------
// Laws of resolution
// ---------------------------------------------------------------------------
/// Adding a route keeps the tables well formed.
pub proof fn lemma_with_route_wf(ix: Seq<IndexModel>, m: MethodModel, rec: RecordModel)
    requires
        router_wf(ix),
    ensures
        router_wf(with_route(ix, m, rec)),
{
    match method_position(ix, m) {
        Some(i) => {
            lemma_method_position_bounds(ix, m);
        },
        None => {
            lemma_method_position_none(ix, m);
        },
    }
}

/// A found table position is in range, holds the method, and is the
/// first that does.
proof fn lemma_method_position_bounds(ix: Seq<IndexModel>, m: MethodModel)
    ensures
        method_position(ix, m) matches Some(i) ==> 0 <= i < ix.len() && ix[i].method == m
            && forall|j: int| 0 <= j < i ==> #[trigger] ix[j].method != m,
    decreases ix.len(),
{
    if ix.len() > 0 {
        let front = ix.drop_last();
        lemma_method_position_bounds(front, m);
        match method_position(front, m) {
            Some(i) => {
                assert forall|j: int| 0 <= j < i implies #[trigger] ix[j].method != m by {
                    assert(front[j] == ix[j]);
                }
            },
            None => {
                lemma_method_position_none(front, m);
                assert forall|j: int| 0 <= j < ix.len() - 1 implies #[trigger] ix[j].method != m by {
                    assert(front[j] == ix[j]);
                }
            },
        }
    }
}

/// A registered route without parameters is found: after a route is added
/// at a parameterless template, a request whose path normalizes to that
/// template resolves to that route, with no path parameters.
pub proof fn law_registered_static_route_resolves(
    ix: Seq<IndexModel>,
    m: MethodModel,
    rec: RecordModel,
    path: Seq<char>,
)
    requires
        router_wf(ix),
        spec_normalize(path, false) == Ok::<Seq<char>, crate::path::PathRejection>(rec.path),
        is_static_route(rec.path),
        method_position(ix, m) matches Some(i) ==> ix[i].routes.len() < usize::MAX,
    ensures
        static_hit(with_route(ix, m, rec), m, path),
        static_answer(with_route(ix, m, rec), m, path) == (ResolutionModel::Matched {
            handler: rec.handler,
            params: Seq::empty(),
            pattern: rec.path,
            contract: rec.contract,
        }),
{
    let nx = with_route(ix, m, rec);
    lemma_with_route_wf(ix, m, rec);
    lemma_method_position_bounds(ix, m);
    match method_position(ix, m) {
        Some(i) => {
            assert forall|j: int| 0 <= j < i implies #[trigger] nx[j].method != m by {
                assert(nx[j] == ix[j]);
                if ix[j].method == m {
                    assert(ix[i].method == ix[j].method);
                }
            }
            lemma_method_position(nx, m, i);
            assert(nx[i].table[rec.path] == ix[i].routes.len());
            assert(nx[i].routes[ix[i].routes.len() as int] == rec);
        },
        None => {
            lemma_method_position_none(ix, m);
            assert forall|j: int| 0 <= j < ix.len() implies #[trigger] nx[j].method != m by {
                assert(nx[j] == ix[j]);
            }
            lemma_method_position(nx, m, ix.len() as int);
        },
    }
}

/// What is in `s` without its last element is in `s`.
proof fn lemma_drop_last_contains(s: Seq<MethodModel>)
    requires
        s.len() > 0,
    ensures
        forall|y: MethodModel| s.drop_last().contains(y) ==> s.contains(y),
{
    assert forall|y: MethodModel| s.drop_last().contains(y) implies s.contains(y) by {
        let j = choose|j: int| 0 <= j < s.drop_last().len() && s.drop_last()[j] == y;
        assert(s[j] == y);
    }
}

/// The methods of one rank come from `s` and have that rank.
proof fn lemma_with_rank_members(s: Seq<MethodModel>, k: nat)
    ensures
        forall|i: int|
            0 <= i < with_rank(s, k).len() ==> s.contains(#[trigger] with_rank(s, k)[i])
                && method_rank(with_rank(s, k)[i]) == k,
    decreases s.len(),
{
    if s.len() > 0 {
        let d = s.drop_last();
        lemma_with_rank_members(d, k);
        lemma_drop_last_contains(s);
        let w = with_rank(d, k);
        if method_rank(s.last()) == k {
            assert(with_rank(s, k) == w.push(s.last()));
            assert forall|i: int| 0 <= i < with_rank(s, k).len() implies s.contains(
                #[trigger] with_rank(s, k)[i],
            ) && method_rank(with_rank(s, k)[i]) == k by {
                if i < w.len() {
                    assert(with_rank(s, k)[i] == w[i]);
                    assert(d.contains(w[i]));
                } else {
                    assert(s[s.len() - 1] == s.last());
                }
            }
        } else {
            assert(with_rank(s, k) == w);
            assert forall|i: int| 0 <= i < with_rank(s, k).len() implies s.contains(
                #[trigger] with_rank(s, k)[i],
            ) && method_rank(with_rank(s, k)[i]) == k by {
                assert(d.contains(w[i]));
            }
        }
    }
}

/// Every method that ranking keeps below `k` comes from `s`.
proof fn lemma_ranked_members(s: Seq<MethodModel>, k: nat)
    ensures
        forall|i: int|
            0 <= i < ranked_below(s, k).len() ==> s.contains(#[trigger] ranked_below(s, k)[i]),
    decreases k,
{
    if k > 0 {
        let a = ranked_below(s, (k - 1) as nat);
        let b = with_rank(s, (k - 1) as nat);
        lemma_ranked_members(s, (k - 1) as nat);
        lemma_with_rank_members(s, (k - 1) as nat);
        assert(ranked_below(s, k) == a + b);
        assert forall|i: int| 0 <= i < ranked_below(s, k).len() implies s.contains(
            #[trigger] ranked_below(s, k)[i],
        ) by {
            if i < a.len() {
                assert((a + b)[i] == a[i]);
            } else {
                assert((a + b)[i] == b[i - a.len()]);
            }
        }
    }
}

/// Removing neighbouring duplicates keeps only members.
proof fn lemma_dedup_members(s: Seq<MethodModel>)
    ensures
        forall|i: int| 0 <= i < dedup(s).len() ==> s.contains(#[trigger] dedup(s)[i]),
    decreases s.len(),
{
    if s.len() > 1 {
        let d = s.drop_last();
        lemma_dedup_members(d);
        lemma_drop_last_contains(s);
        let e = dedup(d);
        if s.last() == s[s.len() - 2] {
            assert(dedup(s) == e);
            assert forall|i: int| 0 <= i < dedup(s).len() implies s.contains(#[trigger] dedup(s)[i]) by {
                assert(d.contains(e[i]));
            }
        } else {
            assert(dedup(s) == e.push(s.last()));
            assert forall|i: int| 0 <= i < dedup(s).len() implies s.contains(#[trigger] dedup(s)[i]) by {
                if i < e.len() {
                    assert(dedup(s)[i] == e[i]);
                    assert(d.contains(e[i]));
                } else {
                    assert(s[s.len() - 1] == s.last());
                }
            }
        }
    } else {
        assert forall|i: int| 0 <= i < dedup(s).len() implies s.contains(#[trigger] dedup(s)[i]) by {
            assert(dedup(s)[i] == s[i]);
        }
    }
}

/// The other methods that match never include the requested one.
proof fn lemma_other_matches_exclude(ix: Seq<IndexModel>, m: MethodModel, path: Seq<char>)
    ensures
        !other_matches(ix, m, path).contains(m),
    decreases ix.len(),
{
    if ix.len() > 0 {
        lemma_other_matches_exclude(ix.drop_last(), m, path);
        let b = other_matches(ix.drop_last(), m, path);
        if ix.last().method != m && route_match(ix.last().table, path) is Some {
            assert forall|i: int| 0 <= i < b.push(ix.last().method).len() implies b.push(
                ix.last().method,
            )[i] != m by {
                if i < b.len() {
                    assert(b.push(ix.last().method)[i] == b[i]);
                    assert(!b.contains(m));
                    if b[i] == m {
                        assert(b.contains(b[i]));
                    }
                }
            }
        }
    }
}

/// A `405` answer never lists the requested method, and lists only
/// methods whose routes match the path.
pub proof fn law_allow_excludes_requested(ix: Seq<IndexModel>, m: MethodModel, path: Seq<char>)
    ensures
        spec_resolve(ix, m, path) matches ResolutionModel::MethodNotAllowed { allow } ==> forall|i: int|
            0 <= i < allow.len() ==> #[trigger] allow[i] != m && other_matches(
                ix,
                m,
                spec_normalize(path, false)->Ok_0,
            ).contains(allow[i]),
{
    match spec_normalize(path, false) {
        Ok(p) => {
            let o = other_matches(ix, m, p);
            lemma_other_matches_exclude(ix, m, p);
            lemma_ranked_members(o, 8);
            lemma_dedup_members(sort_by_rank(o));
            let allow = dedup(sort_by_rank(o));
            assert forall|i: int| 0 <= i < allow.len() implies #[trigger] allow[i] != m && o.contains(
                allow[i],
            ) by {
                assert(sort_by_rank(o).contains(allow[i]));
                let j = choose|j: int| 0 <= j < sort_by_rank(o).len() && sort_by_rank(o)[j] == allow[i];
                assert(o.contains(sort_by_rank(o)[j]));
            }
        },
        Err(_) => {},
    }
}

/// A request path resolves as its normalized form does: `//items//42//`
/// reaches the route that `/items/42` reaches.
pub proof fn law_normalized_paths_resolve_alike(ix: Seq<IndexModel>, m: MethodModel, path: Seq<char>)
    requires
        spec_normalize(path, false) is Ok,
    ensures
        spec_resolve(ix, m, path) == spec_resolve(ix, m, spec_normalize(path, false)->Ok_0),
{
    law_normalize_idempotent(path, false);
}

/// A registered route is taken: once a route is added at a template, its
/// method's table holds that template, so registering the same method and
/// template again is refused and leaves the tables as they were.
pub proof fn law_registered_route_is_taken(ix: Seq<IndexModel>, m: MethodModel, rec: RecordModel)
    ensures
        route_taken(with_route(ix, m, rec), m, rec.path),
{
    let nx = with_route(ix, m, rec);
    lemma_method_position_bounds(ix, m);
    match method_position(ix, m) {
        Some(i) => {
            assert forall|j: int| 0 <= j < i implies #[trigger] nx[j].method != m by {
                assert(nx[j] == ix[j]);
            }
            lemma_method_position(nx, m, i);
        },
        None => {
            lemma_method_position_none(ix, m);
            assert forall|j: int| 0 <= j < ix.len() implies #[trigger] nx[j].method != m by {
                assert(nx[j] == ix[j]);
            }
            lemma_method_position(nx, m, ix.len() as int);
        },
    }
}

} // verus!
