//! Route handlers: which extractor serves each parameter of a handler, and
//! the rules a route method must meet before it is registered.
//!
//! A handler parameter is described by plain names: the parameter's own
//! name, the last segment of its type's path (`Path` for `Path<u64>`), and,
//! for `Option<_>`, the last segment of the inner type's path.
use vstd::prelude::*;

use crate::errors::FrameworkError;
use crate::path::{fault_error, normalize_chars, spec_normalize, FaultReport, PathRejection};
use crate::routing::{RequestBodyKind, RouteContract};
use crate::text::{chars_eq, chars_of, extend_chars, extend_str, split, split_chars, str_eq_chars, string_of};

verus! {

// ---------------------------------------------------------------------------
// Handler parameters
// ---------------------------------------------------------------------------
/// How a handler parameter is taken from a request.
#[derive(Clone, Copy, Debug, PartialEq, Eq, Structural)]
pub enum ExtractorKind {
    /// Looked up by the parameter's name: `Path<T>`, `Query<T>`, `Header<T>`.
    Named,
    /// Looked up by name, absence allowed: `Option<Query<T>>`, `Option<Header<T>>`.
    OptionalNamed,
    /// Built from the whole request: `RequestContext`, `QueryMap`,
    /// `RequestState<T>`, `IdentityState<T>`, `BodyBytes`, `TextBody`,
    /// `JsonBody<T>`.
    Whole,
    /// Built from the whole request, absence allowed:
    /// `Option<RequestState<T>>`, `Option<IdentityState<T>>`.
    OptionalWhole,
}

/// Why a handler parameter's type is refused.
#[derive(Clone, Copy, Debug, PartialEq, Eq, Structural)]
pub enum ExtractionRefusal {
    /// `Option` without an inner type.
    MissingInner,
    /// `Option<T>` for a `T` that cannot be optional.
    UnsupportedOptional,
    /// A type that no extractor serves.
    Unsupported,
}

/// The message of a refused parameter type.
pub open spec fn extraction_refusal_text(e: ExtractionRefusal) -> Seq<char> {
    match e {
        ExtractionRefusal::MissingInner => "Option<T> requires a concrete inner type"@,
        ExtractionRefusal::UnsupportedOptional =>
            "optional handler parameters are only supported for Query<T>, Header<T>, RequestState<T>, and IdentityState<T>"@,
        ExtractionRefusal::Unsupported =>
            "unsupported handler parameter type; use request-derived extractors such as RequestContext, Path<T>, Query<T>, Header<T>, QueryMap, BodyBytes, TextBody, JsonBody<T>, RequestState<T>, or IdentityState<T>"@,
    }
}

impl ExtractionRefusal {
    /// The message of the refusal.
    pub fn to_string(&self) -> (r: String)
        ensures
            r@ == extraction_refusal_text(*self),
    {
        match self {
            ExtractionRefusal::MissingInner => "Option<T> requires a concrete inner type".to_string(),
            ExtractionRefusal::UnsupportedOptional =>
                "optional handler parameters are only supported for Query<T>, Header<T>, RequestState<T>, and IdentityState<T>".to_string(),
            ExtractionRefusal::Unsupported =>
                "unsupported handler parameter type; use request-derived extractors such as RequestContext, Path<T>, Query<T>, Header<T>, QueryMap, BodyBytes, TextBody, JsonBody<T>, RequestState<T>, or IdentityState<T>".to_string(),
        }
    }
}

/// How one handler parameter is served: its extractor, the body it reads
/// (if it is a body extractor) and the path parameter it names (if it is a
/// `Path<T>`).
#[derive(Debug)]
pub struct ParamPlan {
    pub kind: ExtractorKind,
    pub body: Option<RequestBodyKind>,
    pub path_param: Option<String>,
}

/// The abstract value of a parameter plan.
pub struct ParamPlanModel {
    pub kind: ExtractorKind,
    pub body: Option<RequestBodyKind>,
    pub path_param: Option<Seq<char>>,
}

impl View for ParamPlan {
    type V = ParamPlanModel;

    open spec fn view(&self) -> ParamPlanModel {
        ParamPlanModel {
            kind: self.kind,
            body: self.body,
            path_param: match self.path_param {
                Some(p) => Some(p@),
                None => None,
            },
        }
    }
}

/// The characters of an optional name.
pub open spec fn inner_view(o: Option<&str>) -> Option<Seq<char>> {
    match o {
        Some(s) => Some(s@),
        None => None,
    }
}

/// A plan that reads no body and names no path parameter.
pub open spec fn plain_plan(kind: ExtractorKind) -> ParamPlanModel {
    ParamPlanModel { kind, body: None, path_param: None }
}

/// A plan that reads the request body as `b`.
pub open spec fn body_plan(b: RequestBodyKind) -> ParamPlanModel {
    ParamPlanModel { kind: ExtractorKind::Whole, body: Some(b), path_param: None }
}

/// The plan for a parameter `name` whose type's last path segment is
/// `outer` (and, for `Option<_>`, whose inner type's is `inner`).
pub open spec fn spec_classify_parameter(
    name: Seq<char>,
    outer: Seq<char>,
    inner: Option<Seq<char>>,
) -> Result<ParamPlanModel, ExtractionRefusal> {
    if outer == "Option"@ {
        match inner {
            None => Err(ExtractionRefusal::MissingInner),
            Some(i) => if i == "Query"@ || i == "Header"@ {
                Ok(plain_plan(ExtractorKind::OptionalNamed))
            } else if i == "RequestState"@ || i == "IdentityState"@ {
                Ok(plain_plan(ExtractorKind::OptionalWhole))
            } else {
                Err(ExtractionRefusal::UnsupportedOptional)
            },
        }
    } else if outer == "Path"@ {
        Ok(ParamPlanModel { kind: ExtractorKind::Named, body: None, path_param: Some(name) })
    } else if outer == "Query"@ || outer == "Header"@ {
        Ok(plain_plan(ExtractorKind::Named))
    } else if outer == "RequestContext"@ || outer == "QueryMap"@ || outer == "RequestState"@
        || outer == "IdentityState"@ {
        Ok(plain_plan(ExtractorKind::Whole))
    } else if outer == "BodyBytes"@ {
        Ok(body_plan(RequestBodyKind::Bytes))
    } else if outer == "TextBody"@ {
        Ok(body_plan(RequestBodyKind::Text))
    } else if outer == "JsonBody"@ {
        Ok(body_plan(RequestBodyKind::Json))
    } else {
        Err(ExtractionRefusal::Unsupported)
    }
}

fn is_word(s: &str, w: &str) -> (r: bool)
    ensures
        r == (s@ == w@),
{
    let wc = chars_of(w);
    str_eq_chars(s, wc.as_slice())
}

fn plan(kind: ExtractorKind, body: Option<RequestBodyKind>) -> (r: ParamPlan)
    ensures
        r@ == (ParamPlanModel { kind, body, path_param: None }),
{
    ParamPlan { kind, body, path_param: None }
}

/// Chooses the extractor of a handler parameter from its name and type
/// names, or refuses the type.
pub fn classify_parameter(name: &str, outer: &str, inner: Option<&str>) -> (r: Result<ParamPlan, ExtractionRefusal>)
    ensures
        match spec_classify_parameter(name@, outer@, inner_view(inner)) {
            Ok(p) => r matches Ok(x) && x@ == p,
            Err(e) => r matches Err(x) && x == e,
        },
{
    if is_word(outer, "Option") {
        match inner {
            None => Err(ExtractionRefusal::MissingInner),
            Some(i) => {
                if is_word(i, "Query") || is_word(i, "Header") {
                    Ok(plan(ExtractorKind::OptionalNamed, None))
                } else if is_word(i, "RequestState") || is_word(i, "IdentityState") {
                    Ok(plan(ExtractorKind::OptionalWhole, None))
                } else {
                    Err(ExtractionRefusal::UnsupportedOptional)
                }
            },
        }
    } else if is_word(outer, "Path") {
        Ok(ParamPlan { kind: ExtractorKind::Named, body: None, path_param: Some(name.to_string()) })
    } else if is_word(outer, "Query") || is_word(outer, "Header") {
        Ok(plan(ExtractorKind::Named, None))
    } else if is_word(outer, "RequestContext") || is_word(outer, "QueryMap") || is_word(
        outer,
        "RequestState",
    ) || is_word(outer, "IdentityState") {
        Ok(plan(ExtractorKind::Whole, None))
    } else if is_word(outer, "BodyBytes") {
        Ok(plan(ExtractorKind::Whole, Some(RequestBodyKind::Bytes)))
    } else if is_word(outer, "TextBody") {
        Ok(plan(ExtractorKind::Whole, Some(RequestBodyKind::Text)))
    } else if is_word(outer, "JsonBody") {
        Ok(plan(ExtractorKind::Whole, Some(RequestBodyKind::Json)))
    } else {
        Err(ExtractionRefusal::Unsupported)
    }
}


// ---------------------------------------------------------------------------
// Route methods
// ---------------------------------------------------------------------------
/// The method a route attribute declares.
#[derive(Clone, Copy, Debug, PartialEq, Eq, Structural)]
pub enum HttpMethodKind {
    Get,
    Post,
    Put,
    Delete,
    Patch,
    Head,
    Options,
}

/// The method of a route attribute's name (`get`, `post`, ...), if it is
/// one.
pub open spec fn spec_route_attribute(name: Seq<char>) -> Option<HttpMethodKind> {
    if name == "get"@ {
        Some(HttpMethodKind::Get)
    } else if name == "post"@ {
        Some(HttpMethodKind::Post)
    } else if name == "put"@ {
        Some(HttpMethodKind::Put)
    } else if name == "delete"@ {
        Some(HttpMethodKind::Delete)
    } else if name == "patch"@ {
        Some(HttpMethodKind::Patch)
    } else if name == "head"@ {
        Some(HttpMethodKind::Head)
    } else if name == "options"@ {
        Some(HttpMethodKind::Options)
    } else {
        None
    }
}

/// The method that a route attribute named `name` declares, if it is a
/// route attribute.
pub fn route_attribute(name: &str) -> (r: Option<HttpMethodKind>)
    ensures
        r == spec_route_attribute(name@),
{
    if is_word(name, "get") {
        Some(HttpMethodKind::Get)
    } else if is_word(name, "post") {
        Some(HttpMethodKind::Post)
    } else if is_word(name, "put") {
        Some(HttpMethodKind::Put)
    } else if is_word(name, "delete") {
        Some(HttpMethodKind::Delete)
    } else if is_word(name, "patch") {
        Some(HttpMethodKind::Patch)
    } else if is_word(name, "head") {
        Some(HttpMethodKind::Head)
    } else if is_word(name, "options") {
        Some(HttpMethodKind::Options)
    } else {
        None
    }
}

/// Whether a method may not declare a body extractor.
pub open spec fn forbids_body(k: HttpMethodKind) -> bool {
    k == HttpMethodKind::Get || k == HttpMethodKind::Head || k == HttpMethodKind::Options
}

/// Why a route method is refused.
#[derive(Debug)]
pub enum RouteMethodRefusal {
    /// Its route template is invalid.
    Template(FaultReport),
    /// A `Path<T>` parameter names no parameter of the template.
    PathParamMissing(String),
    /// More than one parameter reads the body.
    MultipleBodies,
    /// A GET, HEAD or OPTIONS route reads the body.
    BodyOnSafeMethod,
}

/// The abstract value of a route method refusal.
pub enum RouteMethodRefusalModel {
    Template(PathRejection),
    PathParamMissing(Seq<char>),
    MultipleBodies,
    BodyOnSafeMethod,
}

impl View for RouteMethodRefusal {
    type V = RouteMethodRefusalModel;

    open spec fn view(&self) -> RouteMethodRefusalModel {
        match self {
            RouteMethodRefusal::Template(j) => RouteMethodRefusalModel::Template(j.view()),
            RouteMethodRefusal::PathParamMissing(n) => RouteMethodRefusalModel::PathParamMissing(n@),
            RouteMethodRefusal::MultipleBodies => RouteMethodRefusalModel::MultipleBodies,
            RouteMethodRefusal::BodyOnSafeMethod => RouteMethodRefusalModel::BodyOnSafeMethod,
        }
    }
}

/// Whether the template `t` has the parameter segment `{n}`.
pub open spec fn template_has_param(t: Seq<char>, n: Seq<char>) -> bool {
    split(t, '/').contains(seq!['{'] + n + seq!['}'])
}

/// The first parameter, in order, that names a path parameter the template
/// lacks.
pub open spec fn first_missing_param(t: Seq<char>, ps: Seq<ParamPlanModel>) -> Option<Seq<char>>
    decreases ps.len(),
{
    if ps.len() == 0 {
        None
    } else {
        match ps[0].path_param {
            Some(n) => if !template_has_param(t, n) {
                Some(n)
            } else {
                first_missing_param(t, ps.drop_first())
            },
            None => first_missing_param(t, ps.drop_first()),
        }
    }
}

/// The bodies the parameters read, in order.
pub open spec fn body_kinds(ps: Seq<ParamPlanModel>) -> Seq<RequestBodyKind>
    decreases ps.len(),
{
    if ps.len() == 0 {
        Seq::empty()
    } else {
        match ps[0].body {
            Some(b) => seq![b] + body_kinds(ps.drop_first()),
            None => body_kinds(ps.drop_first()),
        }
    }
}

/// The parameter plans' abstract values.
pub open spec fn plans_view(ps: Seq<ParamPlan>) -> Seq<ParamPlanModel> {
    ps.map_values(|p: ParamPlan| p@)
}

/// The verdict on a route method of kind `k`, template `t` and parameters
/// `ps`: the first refusal in this order (an invalid template, a path
/// parameter the template lacks, more than one body extractor, a body
/// extractor on GET, HEAD or OPTIONS), else the contract of its body.
pub open spec fn spec_check_route_method(
    k: HttpMethodKind,
    t: Seq<char>,
    ps: Seq<ParamPlanModel>,
) -> Result<RouteContract, RouteMethodRefusalModel> {
    match spec_normalize(t, true) {
        Err(j) => Err(RouteMethodRefusalModel::Template(j)),
        Ok(_) => match first_missing_param(t, ps) {
            Some(n) => Err(RouteMethodRefusalModel::PathParamMissing(n)),
            None => {
                let b = body_kinds(ps);
                if b.len() > 1 {
                    Err(RouteMethodRefusalModel::MultipleBodies)
                } else if b.len() == 1 && forbids_body(k) {
                    Err(RouteMethodRefusalModel::BodyOnSafeMethod)
                } else if b.len() == 1 {
                    Ok(RouteContract { body: b[0] })
                } else {
                    Ok(RouteContract { body: RequestBodyKind::NoBody })
                }
            },
        },
    }
}

fn has_param_segment(segs: &Vec<Vec<char>>, t: Ghost<Seq<char>>, name: &String) -> (r: bool)
    requires
        segs@.len() == split(t@, '/').len(),
        forall|k: int| 0 <= k < segs@.len() ==> #[trigger] segs@[k]@ == split(t@, '/')[k],
    ensures
        r == template_has_param(t@, name@),
{
    let mut want: Vec<char> = Vec::new();
    want.push('{');
    extend_str(&mut want, name.as_str());
    want.push('}');
    let ghost w = seq!['{'] + name@ + seq!['}'];
    assert(want@ =~= w);
    let ghost all = split(t@, '/');
    let mut i: usize = 0;
    while i < segs.len()
        invariant
            i <= segs@.len(),
            segs@.len() == all.len(),
            all == split(t@, '/'),
            want@ == w,
            w == seq!['{'] + name@ + seq!['}'],
            forall|k: int| 0 <= k < segs@.len() ==> #[trigger] segs@[k]@ == all[k],
            forall|k: int| 0 <= k < i ==> all[k] != w,
        decreases segs.len() - i,
    {
        if chars_eq(segs[i].as_slice(), want.as_slice()) {
            assert(all[i as int] == w);
            assert(all.contains(w));
            return true;
        }
        i += 1;
    }
    false
}

/// Checks a route method of kind `kind` with route template `template` and
/// handler parameters `params`, giving the route's body contract or the
/// first rule it breaks.
pub fn check_route_method(kind: HttpMethodKind, template: &str, params: &[ParamPlan]) -> (r: Result<
    RouteContract,
    RouteMethodRefusal,
>)
    ensures
        match spec_check_route_method(kind, template@, plans_view(params@)) {
            Ok(c) => r matches Ok(x) && x == c,
            Err(e) => r matches Err(x) && x@ == e,
        },
{
    let t = chars_of(template);
    match normalize_chars(t.as_slice(), true) {
        Err(j) => {
            return Err(RouteMethodRefusal::Template(j));
        },
        Ok(_) => {},
    }
    let segs = split_chars(t.as_slice(), '/');
    let ghost ps = plans_view(params@);
    let ghost tv = template@;
    let mut i: usize = 0;
    assert(ps.skip(0) =~= ps);
    while i < params.len()
        invariant
            i <= params@.len(),
            ps == plans_view(params@),
            ps.len() == params@.len(),
            tv == template@,
            t@ == tv,
            segs@.len() == split(tv, '/').len(),
            forall|k: int| 0 <= k < segs@.len() ==> #[trigger] segs@[k]@ == split(tv, '/')[k],
            first_missing_param(tv, ps) == first_missing_param(tv, ps.skip(i as int)),
            spec_normalize(tv, true) is Ok,
        decreases params.len() - i,
    {
        assert(ps.skip(i as int)[0] == params@[i as int]@);
        assert(ps.skip(i as int).drop_first() =~= ps.skip(i + 1));
        match &params[i].path_param {
            Some(n) => {
                if !has_param_segment(&segs, Ghost(tv), n) {
                    let nc = chars_of(n.as_str());
                    let missing = string_of(nc.as_slice());
                    return Err(RouteMethodRefusal::PathParamMissing(missing));
                }
            },
            None => {},
        }
        i += 1;
    }
    assert(ps.skip(params.len() as int) =~= Seq::<ParamPlanModel>::empty());
    let mut count: usize = 0;
    let mut first = RequestBodyKind::NoBody;
    let ghost mut acc: Seq<RequestBodyKind> = Seq::empty();
    let mut i: usize = 0;
    assert(acc + body_kinds(ps.skip(0)) =~= body_kinds(ps));
    while i < params.len()
        invariant
            i <= params@.len(),
            ps == plans_view(params@),
            ps.len() == params@.len(),
            body_kinds(ps) == acc + body_kinds(ps.skip(i as int)),
            count == acc.len(),
            count <= i,
            acc.len() > 0 ==> first == acc[0],
        decreases params.len() - i,
    {
        assert(ps.skip(i as int)[0] == params@[i as int]@);
        assert(ps.skip(i as int).drop_first() =~= ps.skip(i + 1));
        match params[i].body {
            Some(b) => {
                if count == 0 {
                    first = b;
                }
                proof {
                    assert(acc + body_kinds(ps.skip(i as int)) =~= acc.push(b) + body_kinds(ps.skip(i + 1)));
                    acc = acc.push(b);
                }
                count += 1;
            },
            None => {},
        }
        i += 1;
    }
    assert(ps.skip(params.len() as int) =~= Seq::<ParamPlanModel>::empty());
    assert(acc + body_kinds(Seq::<ParamPlanModel>::empty()) =~= acc);
    if count > 1 {
        Err(RouteMethodRefusal::MultipleBodies)
    } else if count == 1 && (kind == HttpMethodKind::Get || kind == HttpMethodKind::Head || kind
        == HttpMethodKind::Options) {
        Err(RouteMethodRefusal::BodyOnSafeMethod)
    } else if count == 1 {
        Ok(RouteContract { body: first })
    } else {
        Ok(RouteContract { body: RequestBodyKind::NoBody })
    }
}

impl RouteMethodRefusal {
    /// The startup error reporting the refusal of a route method with
    /// template `template`.
    pub fn to_error(&self, template: &str) -> (r: FrameworkError)
        ensures
            r matches FrameworkError::Startup { context } && context@ == route_method_refusal_text(
                self@,
                template@,
            ),
    {
        match self {
            RouteMethodRefusal::Template(j) => {
                let t = chars_of(template);
                fault_error(t.as_slice(), true, j)
            },
            RouteMethodRefusal::PathParamMissing(n) => {
                let mut v = chars_of("path parameter `");
                extend_str(&mut v, n.as_str());
                extend_str(&mut v, "` is not present in route template `");
                extend_str(&mut v, template);
                extend_str(&mut v, "`");
                FrameworkError::Startup { context: string_of(v.as_slice()) }
            },
            RouteMethodRefusal::MultipleBodies => FrameworkError::Startup {
                context: "handlers may declare at most one body extractor".to_string(),
            },
            RouteMethodRefusal::BodyOnSafeMethod => FrameworkError::Startup {
                context: "GET, HEAD, and OPTIONS handlers may not declare body extractors".to_string(),
            },
        }
    }
}

/// The message reporting a refused route method.
pub open spec fn route_method_refusal_text(e: RouteMethodRefusalModel, t: Seq<char>) -> Seq<char> {
    match e {
        RouteMethodRefusalModel::Template(j) => crate::path::rejection_text(t, true, j),
        RouteMethodRefusalModel::PathParamMissing(n) => "path parameter `"@ + n
            + "` is not present in route template `"@ + t + "`"@,
        RouteMethodRefusalModel::MultipleBodies => "handlers may declare at most one body extractor"@,
        RouteMethodRefusalModel::BodyOnSafeMethod =>
            "GET, HEAD, and OPTIONS handlers may not declare body extractors"@,
    }
}

} // verus!
