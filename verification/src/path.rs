//! Normalization of route templates and request paths, and prefix joining
//! for route groups.
use vstd::prelude::*;

use crate::errors::FrameworkError;
use crate::text::{
    chars_eq, chars_of, contains_char, extend_chars, extend_str, join, join_chars, lacks,
    lemma_join_lacks, lemma_split_join, lemma_split_pieces_lack, split, split_chars, string_of,
    sub_chars,
};

verus! {

/// Why a path was refused while its segments were walked.
pub enum PathFault {
    /// A `.` or `..` segment.
    Traversal,
    /// A template segment with a stray brace.
    Segment(Seq<char>),
    /// A template parameter with an invalid name.
    ParamName(Seq<char>),
    /// A template parameter name used twice.
    Duplicate(Seq<char>),
}

/// Whether `c` is an ASCII letter or digit.
pub open spec fn is_alnum(c: char) -> bool {
    ('a' <= c && c <= 'z') || ('A' <= c && c <= 'Z') || ('0' <= c && c <= '9')
}

/// Whether `name` is a valid route parameter name: a letter or `_`, then
/// letters, digits and `_`.
pub open spec fn valid_param_name(name: Seq<char>) -> bool {
    &&& name.len() > 0
    &&& (name[0] == '_' || ('a' <= name[0] && name[0] <= 'z') || ('A' <= name[0] && name[0] <= 'Z'))
    &&& forall|i: int| 0 <= i < name.len() ==> (#[trigger] name[i] == '_' || is_alnum(name[i]))
}

/// Whether a template segment is meant as a parameter.
pub open spec fn looks_like_param(seg: Seq<char>) -> bool {
    (seg.len() > 0 && seg[0] == '{') || (seg.len() > 0 && seg.last() == '}')
}

/// The outcome of checking one segment: the parameter names seen so far,
/// or the fault.
pub open spec fn check_segment(seg: Seq<char>, template: bool, params: Set<Seq<char>>) -> Result<
    Set<Seq<char>>,
    PathFault,
> {
    if seg == "."@ || seg == ".."@ {
        Err(PathFault::Traversal)
    } else if template && looks_like_param(seg) {
        if !(seg.len() >= 2 && seg[0] == '{' && seg.last() == '}') {
            Err(PathFault::Segment(seg))
        } else {
            let name = seg.subrange(1, seg.len() - 1);
            if !valid_param_name(name) {
                Err(PathFault::ParamName(name))
            } else if params.contains(name) {
                Err(PathFault::Duplicate(name))
            } else {
                Ok(params.insert(name))
            }
        }
    } else if template && (seg.contains('{') || seg.contains('}')) {
        Err(PathFault::Segment(seg))
    } else {
        Ok(params)
    }
}

/// Walks the `/`-separated pieces in order, dropping empty ones and
/// collecting the rest; stops at the first fault.
pub open spec fn walk_segments(
    segs: Seq<Seq<char>>,
    template: bool,
    params: Set<Seq<char>>,
    acc: Seq<Seq<char>>,
) -> Result<Seq<Seq<char>>, PathFault>
    decreases segs.len(),
{
    if segs.len() == 0 {
        Ok(acc)
    } else if segs[0].len() == 0 {
        walk_segments(segs.drop_first(), template, params, acc)
    } else {
        match check_segment(segs[0], template, params) {
            Err(f) => Err(f),
            Ok(p) => walk_segments(segs.drop_first(), template, p, acc.push(segs[0])),
        }
    }
}

/// Whether a path passes the up-front checks: it starts with `/` and holds
/// neither NUL nor a backslash.
pub open spec fn path_shape_ok(path: Seq<char>) -> bool {
    path.len() > 0 && path[0] == '/' && !path.contains('\0') && !path.contains('\\')
}

/// A path rebuilt from its segments: `/` alone, or `/a/b/...`.
pub open spec fn rebuild(segs: Seq<Seq<char>>) -> Seq<char> {
    if segs.len() == 0 {
        "/"@
    } else {
        "/"@ + join(segs, "/"@)
    }
}

/// How a path is refused.
pub enum PathRejection {
    /// It fails the up-front shape checks.
    Shape,
    /// A segment was refused.
    Fault(PathFault),
}

/// The normalized form of a route template (`template`) or request path.
pub open spec fn spec_normalize(path: Seq<char>, template: bool) -> Result<Seq<char>, PathRejection> {
    if !path_shape_ok(path) {
        Err(PathRejection::Shape)
    } else {
        match walk_segments(split(path, '/'), template, Set::empty(), Seq::empty()) {
            Ok(segs) => Ok(rebuild(segs)),
            Err(f) => Err(PathRejection::Fault(f)),
        }
    }
}

/// Whether a name is a word: a letter or `_`, then letters, digits and `_`.
pub open spec fn word_name(name: Seq<char>) -> bool {
    &&& name.len() > 0
    &&& (name[0] == '_' || ('a' <= name[0] && name[0] <= 'z') || ('A' <= name[0] && name[0] <= 'Z'))
    &&& forall|i: int|
        0 <= i < name.len() ==> (#[trigger] name[i] == '_' || ('a' <= name[i] && name[i] <= 'z') || (
        'A' <= name[i] && name[i] <= 'Z') || ('0' <= name[i] && name[i] <= '9'))
}

/// Route parameter names: the template `/{name}`, for a name without `/`,
/// NUL or backslash, normalizes to itself when the name is a letter or `_`
/// followed by letters, digits and `_`, and is refused for its parameter
/// name otherwise.
pub proof fn law_parameter_names(name: Seq<char>)
    requires
        !name.contains('/'),
        !name.contains('\0'),
        !name.contains('\\'),
    ensures
        word_name(name) ==> spec_normalize(seq!['/', '{'] + name + seq!['}'], true) == Ok::<
            Seq<char>,
            PathRejection,
        >(seq!['/', '{'] + name + seq!['}']),
        !word_name(name) ==> spec_normalize(seq!['/', '{'] + name + seq!['}'], true) == Err::<
            Seq<char>,
            PathRejection,
        >(PathRejection::Fault(PathFault::ParamName(name))),
{
    reveal_strlit(".");
    reveal_strlit("..");
    reveal_strlit("/");
    let seg = seq!['{'] + name + seq!['}'];
    let path = seq!['/', '{'] + name + seq!['}'];
    let e = Seq::<char>::empty();
    assert(path =~= seq!['/'] + seg);
    assert forall|i: int| 0 <= i < seg.len() implies #[trigger] seg[i] != '/' && seg[i] != '\0'
        && seg[i] != '\\' by {
        if 0 < i < seg.len() - 1 {
            assert(seg[i] == name[i - 1]);
        }
    }
    assert(!path.contains('\0')) by {
        assert forall|i: int| 0 <= i < path.len() implies #[trigger] path[i] != '\0' by {
            if i > 0 {
                assert(path[i] == seg[i - 1]);
            }
        }
    }
    assert(!path.contains('\\')) by {
        assert forall|i: int| 0 <= i < path.len() implies #[trigger] path[i] != '\\' by {
            if i > 0 {
                assert(path[i] == seg[i - 1]);
            }
        }
    }
    assert(path_shape_ok(path));
    let parts = seq![e, seg];
    assert(lacks(e, '/'));
    assert(lacks(seg, '/'));
    assert forall|k: int| 0 <= k < parts.len() implies lacks(#[trigger] parts[k], '/') by {}
    assert(parts.drop_last() =~= seq![e]);
    assert(join(seq![e], seq!['/']) == e);
    assert(join(parts, seq!['/']) == join(seq![e], seq!['/']) + seq!['/'] + seg);
    assert(join(parts, seq!['/']) =~= path);
    lemma_split_join(parts, '/');
    assert(split(path, '/') == parts);
    assert(seg != "."@ && seg != ".."@) by {
        assert(seg.len() >= 2);
        assert(seg[0] == '{');
    }
    assert(seg.subrange(1, seg.len() - 1) =~= name);
    assert(valid_param_name(name) == word_name(name));
    assert(parts.drop_first() =~= seq![seg]);
    assert(seq![seg].drop_first() =~= Seq::<Seq<char>>::empty());
    assert(Seq::<Seq<char>>::empty().push(seg) =~= seq![seg]);
    assert(seq![seg].drop_last() =~= Seq::<Seq<char>>::empty());
    assert(rebuild(seq![seg]) =~= path);
    if word_name(name) {
        let one = Set::<Seq<char>>::empty().insert(name);
        assert(check_segment(seg, true, Set::empty()) == Ok::<Set<Seq<char>>, PathFault>(one));
        assert(walk_segments(Seq::<Seq<char>>::empty(), true, one, seq![seg]) == Ok::<
            Seq<Seq<char>>,
            PathFault,
        >(seq![seg]));
        assert(walk_segments(seq![seg], true, Set::empty(), Seq::empty()) == Ok::<
            Seq<Seq<char>>,
            PathFault,
        >(seq![seg]));
    } else {
        assert(check_segment(seg, true, Set::empty()) == Err::<Set<Seq<char>>, PathFault>(
            PathFault::ParamName(name),
        ));
        assert(walk_segments(seq![seg], true, Set::empty(), Seq::empty()) == Err::<
            Seq<Seq<char>>,
            PathFault,
        >(PathFault::ParamName(name)));
    }
    assert(walk_segments(parts, true, Set::empty(), Seq::empty()) == walk_segments(
        seq![seg],
        true,
        Set::empty(),
        Seq::empty(),
    ));
}

/// The startup message reported for a refused route template or request path.
pub open spec fn rejection_text(path: Seq<char>, template: bool, r: PathRejection) -> Seq<char> {
    match r {
        PathRejection::Shape => if template {
            "invalid route path: "@ + path
        } else {
            "invalid request path: "@ + path
        },
        PathRejection::Fault(PathFault::Traversal) => if template {
            "route path contains traversal sequences: "@ + path
        } else {
            "request path contains traversal sequences: "@ + path
        },
        PathRejection::Fault(PathFault::Segment(s)) => "invalid route path segment: "@ + s,
        PathRejection::Fault(PathFault::ParamName(n)) => "invalid route parameter name: "@ + n,
        PathRejection::Fault(PathFault::Duplicate(n)) => "duplicate route parameter name: "@ + n,
    }
}

/// What normalizing a route template or request path returns.
pub open spec fn normalize_outcome(path: Seq<char>, template: bool, r: Result<String, FrameworkError>) -> bool {
    match spec_normalize(path, template) {
        Ok(p) => r matches Ok(s) && s@ == p,
        Err(j) => r matches Err(FrameworkError::Startup { context }) && context@ == rejection_text(
            path,
            template,
            j,
        ),
    }
}

fn valid_param_name_exec(name: &[char]) -> (r: bool)
    ensures
        r == valid_param_name(name@),
{
    if name.len() == 0 {
        return false;
    }
    let f = name[0];
    if !(f == '_' || ('a' <= f && f <= 'z') || ('A' <= f && f <= 'Z')) {
        return false;
    }
    let mut i: usize = 0;
    while i < name.len()
        invariant
            i <= name.len(),
            forall|k: int| 0 <= k < i ==> (#[trigger] name@[k] == '_' || is_alnum(name@[k])),
        decreases name.len() - i,
    {
        let c = name[i];
        if !(c == '_' || ('a' <= c && c <= 'z') || ('A' <= c && c <= 'Z') || ('0' <= c && c
            <= '9')) {
            return false;
        }
        i += 1;
    }
    true
}

fn seen(params: &Vec<Vec<char>>, name: &[char]) -> (r: bool)
    ensures
        r == params@.map_values(|p: Vec<char>| p@).contains(name@),
{
    let ghost ps = params@.map_values(|p: Vec<char>| p@);
    let mut i: usize = 0;
    while i < params.len()
        invariant
            i <= params.len(),
            ps == params@.map_values(|p: Vec<char>| p@),
            forall|k: int| 0 <= k < i ==> ps[k] != name@,
        decreases params.len() - i,
    {
        if chars_eq(params[i].as_slice(), name) {
            assert(ps[i as int] == name@);
            return true;
        }
        i += 1;
    }
    false
}

pub(crate) fn fault_error(path: &[char], template: bool, j: &FaultReport) -> (r: FrameworkError)
    ensures
        r matches FrameworkError::Startup { context } && context@ == rejection_text(
            path@,
            template,
            j.view(),
        ),
{
    let mut m: Vec<char> = Vec::new();
    match j {
        FaultReport::Shape => {
            if template {
                extend_str(&mut m, "invalid route path: ");
            } else {
                extend_str(&mut m, "invalid request path: ");
            }
            extend_chars(&mut m, path);
        },
        FaultReport::Traversal => {
            if template {
                extend_str(&mut m, "route path contains traversal sequences: ");
            } else {
                extend_str(&mut m, "request path contains traversal sequences: ");
            }
            extend_chars(&mut m, path);
        },
        FaultReport::Segment(s) => {
            extend_str(&mut m, "invalid route path segment: ");
            extend_chars(&mut m, s.as_slice());
        },
        FaultReport::ParamName(s) => {
            extend_str(&mut m, "invalid route parameter name: ");
            extend_chars(&mut m, s.as_slice());
        },
        FaultReport::Duplicate(s) => {
            extend_str(&mut m, "duplicate route parameter name: ");
            extend_chars(&mut m, s.as_slice());
        },
    }
    FrameworkError::Startup { context: string_of(m.as_slice()) }
}

/// An executable report of a refusal.
#[derive(Debug)]
pub enum FaultReport {
    Shape,
    Traversal,
    Segment(Vec<char>),
    ParamName(Vec<char>),
    Duplicate(Vec<char>),
}

impl FaultReport {
    pub open spec fn view(&self) -> PathRejection {
        match self {
            FaultReport::Shape => PathRejection::Shape,
            FaultReport::Traversal => PathRejection::Fault(PathFault::Traversal),
            FaultReport::Segment(s) => PathRejection::Fault(PathFault::Segment(s@)),
            FaultReport::ParamName(s) => PathRejection::Fault(PathFault::ParamName(s@)),
            FaultReport::Duplicate(s) => PathRejection::Fault(PathFault::Duplicate(s@)),
        }
    }
}

/// Normalizes a path given as characters; the result is the normalized
/// characters or the reason for refusal.
pub fn normalize_chars(path: &[char], template: bool) -> (r: Result<Vec<char>, FaultReport>)
    ensures
        match spec_normalize(path@, template) {
            Ok(p) => r matches Ok(v) && v@ == p,
            Err(j) => r matches Err(f) && f.view() == j,
        },
{
    if path.len() == 0 || path[0] != '/' || contains_char(path, '\0') || contains_char(path, '\\') {
        return Err(FaultReport::Shape);
    }
    let segs = split_chars(path, '/');
    let ghost all = split(path@, '/');
    let mut params: Vec<Vec<char>> = Vec::new();
    let mut out: Vec<Vec<char>> = Vec::new();
    let ghost mut pset: Set<Seq<char>> = Set::empty();
    let mut i: usize = 0;
    assert(all.skip(0) =~= all);
    assert(out@.map_values(|p: Vec<char>| p@) =~= Seq::<Seq<char>>::empty());
    while i < segs.len()
        invariant
            i <= segs.len(),
            segs@.len() == all.len(),
            all == split(path@, '/'),
            path_shape_ok(path@),
            forall|k: int| 0 <= k < segs@.len() ==> #[trigger] segs@[k]@ == all[k],
            forall|x: Seq<char>| pset.contains(x) == params@.map_values(|p: Vec<char>| p@).contains(x),
            walk_segments(all, template, Set::empty(), Seq::empty()) == walk_segments(
                all.skip(i as int),
                template,
                pset,
                out@.map_values(|p: Vec<char>| p@),
            ),
        decreases segs.len() - i,
    {
        let seg = segs[i].as_slice();
        let ghost ps = params@.map_values(|p: Vec<char>| p@);
        let ghost os = out@.map_values(|p: Vec<char>| p@);
        assert(all.skip(i as int)[0] == seg@);
        assert(all.skip(i as int).drop_first() =~= all.skip(i + 1));
        if seg.len() == 0 {
            i += 1;
            continue;
        }
        let dot = chars_of(".");
        let dotdot = chars_of("..");
        if chars_eq(seg, dot.as_slice()) || chars_eq(seg, dotdot.as_slice()) {
            return Err(FaultReport::Traversal);
        }
        let n = seg.len();
        if template && ((n > 0 && seg[0] == '{') || (n > 0 && seg[n - 1] == '}')) {
            if !(n >= 2 && seg[0] == '{' && seg[n - 1] == '}') {
                let whole = sub_chars(seg, 0, n);
                assert(whole@ =~= seg@);
                return Err(FaultReport::Segment(whole));
            }
            let name = sub_chars(seg, 1, n - 1);
            if !valid_param_name_exec(name.as_slice()) {
                assert(name@ =~= seg@.subrange(1, seg@.len() - 1));
                return Err(FaultReport::ParamName(name));
            }
            if seen(&params, name.as_slice()) {
                return Err(FaultReport::Duplicate(name));
            }
            let ghost name_v = name@;
            params.push(name);
            proof {
                assert(params@.map_values(|p: Vec<char>| p@) =~= ps.push(name_v));
                pset = pset.insert(name_v);
                assert forall|x: Seq<char>| pset.contains(x) == ps.push(name_v).contains(x) by {
                    if ps.push(name_v).contains(x) {
                        let k = choose|k: int| 0 <= k < ps.push(name_v).len() && ps.push(name_v)[k] == x;
                        if k < ps.len() {
                            assert(ps[k] == x);
                        }
                    }
                    if ps.contains(x) {
                        let k = choose|k: int| 0 <= k < ps.len() && ps[k] == x;
                        assert(ps.push(name_v)[k] == x);
                    }
                    if x == name_v {
                        assert(ps.push(name_v)[ps.len() as int] == x);
                    }
                }
            }
        } else if template && (contains_char(seg, '{') || contains_char(seg, '}')) {
            let whole = sub_chars(seg, 0, n);
            assert(whole@ =~= seg@);
            return Err(FaultReport::Segment(whole));
        }
        let copy = sub_chars(seg, 0, n);
        assert(copy@ =~= seg@);
        out.push(copy);
        assert(out@.map_values(|p: Vec<char>| p@) =~= os.push(seg@));
        i += 1;
    }
    assert(all.skip(segs.len() as int) =~= Seq::<Seq<char>>::empty());
    let mut r: Vec<char> = Vec::new();
    extend_str(&mut r, "/");
    if out.len() > 0 {
        let sep = chars_of("/");
        let joined = join_chars(&out, sep.as_slice());
        extend_chars(&mut r, joined.as_slice());
    }
    assert(r@ =~= rebuild(out@.map_values(|p: Vec<char>| p@)));
    Ok(r)
}

/// Normalizes a route template, e.g. `//users//{id}//` to `/users/{id}`,
/// checking its parameter segments.
pub fn normalize_path_template(path: &str) -> (r: Result<String, FrameworkError>)
    ensures
        normalize_outcome(path@, true, r),
{
    let p = chars_of(path);
    match normalize_chars(p.as_slice(), true) {
        Ok(v) => Ok(string_of(v.as_slice())),
        Err(j) => Err(fault_error(p.as_slice(), true, &j)),
    }
}

/// Normalizes a request path, e.g. `/users//42/` to `/users/42`.
pub fn normalize_request_path(path: &str) -> (r: Result<String, FrameworkError>)
    ensures
        normalize_outcome(path@, false, r),
{
    let p = chars_of(path);
    match normalize_chars(p.as_slice(), false) {
        Ok(v) => Ok(string_of(v.as_slice())),
        Err(j) => Err(fault_error(p.as_slice(), false, &j)),
    }
}

// ---------------------------------------------------------------------------
// Idempotence
// ---------------------------------------------------------------------------
/// The non-empty pieces of `xs`, in order.
pub open spec fn non_empty(xs: Seq<Seq<char>>) -> Seq<Seq<char>>
    decreases xs.len(),
{
    if xs.len() == 0 {
        xs
    } else if xs[0].len() == 0 {
        non_empty(xs.drop_first())
    } else {
        seq![xs[0]] + non_empty(xs.drop_first())
    }
}

/// The non-empty pieces are non-empty, keep what every piece lacks, and
/// taking them twice changes nothing.
proof fn lemma_non_empty(xs: Seq<Seq<char>>, x: char)
    ensures
        forall|k: int| 0 <= k < non_empty(xs).len() ==> (#[trigger] non_empty(xs)[k]).len() > 0,
        non_empty(non_empty(xs)) == non_empty(xs),
        (forall|k: int| 0 <= k < xs.len() ==> lacks(#[trigger] xs[k], x)) ==> forall|k: int|
            0 <= k < non_empty(xs).len() ==> lacks(#[trigger] non_empty(xs)[k], x),
    decreases xs.len(),
{
    if xs.len() > 0 {
        let rest = xs.drop_first();
        lemma_non_empty(rest, x);
        if forall|k: int| 0 <= k < xs.len() ==> lacks(#[trigger] xs[k], x) {
            assert forall|k: int| 0 <= k < rest.len() implies lacks(#[trigger] rest[k], x) by {
                assert(rest[k] == xs[k + 1]);
            }
        }
        if xs[0].len() > 0 {
            let ne = non_empty(xs);
            assert(ne[0] == xs[0]);
            assert(ne.drop_first() =~= non_empty(rest));
            assert(non_empty(ne) =~= ne);
            assert forall|k: int| 0 <= k < ne.len() implies (#[trigger] ne[k]).len() > 0 by {
                if k > 0 {
                    assert(ne[k] == non_empty(rest)[k - 1]);
                }
            }
            if forall|k: int| 0 <= k < xs.len() ==> lacks(#[trigger] xs[k], x) {
                assert(lacks(xs[0], x));
                assert forall|k: int| 0 <= k < ne.len() implies lacks(#[trigger] ne[k], x) by {
                    if k > 0 {
                        assert(ne[k] == non_empty(rest)[k - 1]);
                    }
                }
            }
        }
    }
}

/// Walking the pieces is walking their non-empty ones, and a successful
/// walk collects exactly those.
proof fn lemma_walk_non_empty(xs: Seq<Seq<char>>, template: bool, params: Set<Seq<char>>, acc: Seq<Seq<char>>)
    ensures
        walk_segments(xs, template, params, acc) == walk_segments(non_empty(xs), template, params, acc),
        walk_segments(xs, template, params, acc) matches Ok(out) ==> out == acc + non_empty(xs),
    decreases xs.len(),
{
    if xs.len() > 0 {
        let rest = xs.drop_first();
        if xs[0].len() == 0 {
            lemma_walk_non_empty(rest, template, params, acc);
        } else {
            let ne = non_empty(xs);
            assert(ne[0] == xs[0]);
            assert(ne.drop_first() =~= non_empty(rest));
            match check_segment(xs[0], template, params) {
                Err(_) => {},
                Ok(p) => {
                    lemma_walk_non_empty(rest, template, p, acc.push(xs[0]));
                    assert(acc.push(xs[0]) + non_empty(rest) =~= acc + ne);
                },
            }
        }
    }
}

/// Normalizing is idempotent: a normalized route template or request path
/// normalizes to itself.
pub proof fn law_normalize_idempotent(path: Seq<char>, template: bool)
    requires
        spec_normalize(path, template) is Ok,
    ensures
        spec_normalize(spec_normalize(path, template)->Ok_0, template) == spec_normalize(
            path,
            template,
        ),
{
    let xs = split(path, '/');
    let out = walk_segments(xs, template, Set::empty(), Seq::empty())->Ok_0;
    lemma_walk_non_empty(xs, template, Set::empty(), Seq::empty());
    assert(out =~= non_empty(xs));
    assert(lacks(path, '\0')) by {
        assert forall|i: int| 0 <= i < path.len() implies #[trigger] path[i] != '\0' by {
            if path[i] == '\0' {
                assert(path.contains('\0'));
            }
        }
    }
    assert(lacks(path, '\\')) by {
        assert forall|i: int| 0 <= i < path.len() implies #[trigger] path[i] != '\\' by {
            if path[i] == '\\' {
                assert(path.contains('\\'));
            }
        }
    }
    lemma_split_pieces_lack(path, '/', '\0');
    lemma_split_pieces_lack(path, '/', '\\');
    lemma_non_empty(xs, '/');
    lemma_non_empty(xs, '\0');
    lemma_non_empty(xs, '\\');
    reveal_strlit("/");
    let q = rebuild(out);
    let e = Seq::<char>::empty();
    if out.len() == 0 {
        assert(q =~= seq!['/']);
        assert(q.skip(1) =~= e);
        assert(q.take(0) =~= e);
        assert(split(e, '/') =~= seq![e]);
        assert(split(q, '/') =~= seq![e, e]);
        assert(seq![e, e].drop_first() =~= seq![e]);
        assert(seq![e].drop_first() =~= Seq::<Seq<char>>::empty());
        assert(walk_segments(split(q, '/'), template, Set::empty(), Seq::empty()) == Ok::<
            Seq<Seq<char>>,
            PathFault,
        >(Seq::empty()));
        assert(!q.contains('\0'));
        assert(!q.contains('\\'));
    } else {
        let j = join(out, "/"@);
        assert("/"@ =~= seq!['/']);
        assert(q == "/"@ + j);
        lemma_split_join(out, '/');
        assert(q.take(0) =~= e);
        assert(q.skip(1) =~= j);
        assert(split(q, '/') =~= seq![e] + out);
        assert((seq![e] + out).drop_first() =~= out);
        lemma_walk_non_empty(out, template, Set::empty(), Seq::empty());
        lemma_join_lacks(out, "/"@, '\0');
        lemma_join_lacks(out, "/"@, '\\');
        assert(lacks(q, '\0')) by {
            assert forall|i: int| 0 <= i < q.len() implies #[trigger] q[i] != '\0' by {
                if i > 0 {
                    assert(q[i] == j[i - 1]);
                }
            }
        }
        assert(lacks(q, '\\')) by {
            assert forall|i: int| 0 <= i < q.len() implies #[trigger] q[i] != '\\' by {
                if i > 0 {
                    assert(q[i] == j[i - 1]);
                }
            }
        }
        assert(!q.contains('\0'));
        assert(!q.contains('\\'));
    }
}

/// What a successful walk collects past `acc` is neither `.` nor `..`.
proof fn lemma_walk_segments_clean(xs: Seq<Seq<char>>, template: bool, params: Set<Seq<char>>, acc: Seq<Seq<char>>)
    ensures
        walk_segments(xs, template, params, acc) matches Ok(out) ==> out.len() >= acc.len() && forall|k: int|
            acc.len() <= k < out.len() ==> #[trigger] out[k] != "."@ && out[k] != ".."@,
    decreases xs.len(),
{
    if xs.len() > 0 {
        let rest = xs.drop_first();
        if xs[0].len() == 0 {
            lemma_walk_segments_clean(rest, template, params, acc);
        } else {
            match check_segment(xs[0], template, params) {
                Err(_) => {},
                Ok(p) => {
                    lemma_walk_segments_clean(rest, template, p, acc.push(xs[0]));
                    lemma_walk_non_empty(rest, template, p, acc.push(xs[0]));
                    match walk_segments(xs, template, params, acc) {
                        Ok(out) => {
                            assert(out == acc.push(xs[0]) + non_empty(rest));
                            assert(out[acc.len() as int] == xs[0]);
                        },
                        Err(_) => {},
                    }
                },
            }
        }
    }
}

/// A normalized route template or request path is `/` alone, or `/` then
/// non-empty segments none of which is `.` or `..`.
pub proof fn law_normalized_paths_are_clean(path: Seq<char>, template: bool)
    ensures
        spec_normalize(path, template) matches Ok(q) ==> q == "/"@ || ({
            let segs = split(q, '/');
            &&& segs[0].len() == 0
            &&& forall|k: int|
                0 < k < segs.len() ==> (#[trigger] segs[k]).len() > 0 && segs[k] != "."@ && segs[k]
                    != ".."@
        }),
{
    if spec_normalize(path, template) is Ok {
        let xs = split(path, '/');
        let out = walk_segments(xs, template, Set::empty(), Seq::empty())->Ok_0;
        lemma_walk_non_empty(xs, template, Set::empty(), Seq::empty());
        lemma_walk_segments_clean(xs, template, Set::empty(), Seq::empty());
        assert(out =~= non_empty(xs));
        lemma_split_pieces_lack(path, '/', '/');
        lemma_non_empty(xs, '/');
        reveal_strlit("/");
        if out.len() > 0 {
            let e = Seq::<char>::empty();
            let q = rebuild(out);
            let j = join(out, "/"@);
            assert("/"@ =~= seq!['/']);
            lemma_split_join(out, '/');
            assert(q.take(0) =~= e);
            assert(q.skip(1) =~= j);
            assert(split(q, '/') =~= seq![e] + out);
            assert forall|k: int| 0 < k < split(q, '/').len() implies (#[trigger] split(q, '/')[k]).len()
                > 0 && split(q, '/')[k] != "."@ && split(q, '/')[k] != ".."@ by {
                assert(split(q, '/')[k] == out[k - 1]);
            }
        }
    }
}

} // verus!
