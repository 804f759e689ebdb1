//! The order in which middleware runs: by stage, then global before
//! route-specific, then in registration order.
use vstd::prelude::*;

verus! {

/// The stage a middleware runs in; earlier stages wrap later ones.
#[derive(Clone, Copy, Debug, PartialEq, Eq, Structural)]
pub enum MiddlewareStage {
    Logging,
    Recovery,
    Auth,
    Validation,
    Response,
}

/// The position of a stage in the pipeline.
pub open spec fn stage_rank(s: MiddlewareStage) -> nat {
    match s {
        MiddlewareStage::Logging => 0,
        MiddlewareStage::Recovery => 1,
        MiddlewareStage::Auth => 2,
        MiddlewareStage::Validation => 3,
        MiddlewareStage::Response => 4,
    }
}

/// Where a middleware was registered.
#[derive(Clone, Copy, Debug, PartialEq, Eq, Structural)]
pub enum MiddlewareSource {
    Global,
    Route,
}

/// A middleware's place in the pipeline: where it was registered and its
/// index there.
#[derive(Clone, Copy, Debug, PartialEq, Eq, Structural)]
pub struct PipelineSlot {
    pub source: MiddlewareSource,
    pub index: usize,
}

fn stage_of(s: MiddlewareStage) -> (r: u8)
    ensures
        r == stage_rank(s),
{
    match s {
        MiddlewareStage::Logging => 0,
        MiddlewareStage::Recovery => 1,
        MiddlewareStage::Auth => 2,
        MiddlewareStage::Validation => 3,
        MiddlewareStage::Response => 4,
    }
}

/// The slots of one source whose stage has rank `k`, in index order.
pub open spec fn slots_at(stages: Seq<MiddlewareStage>, source: MiddlewareSource, k: nat) -> Seq<PipelineSlot>
    decreases stages.len(),
{
    if stages.len() == 0 {
        Seq::empty()
    } else {
        let rest = slots_at(stages.drop_last(), source, k);
        if stage_rank(stages.last()) == k {
            rest.push(PipelineSlot { source, index: (stages.len() - 1) as usize })
        } else {
            rest
        }
    }
}

/// The pipeline up to stage rank `k`: for each stage in order, the global
/// middleware of that stage, then the route's.
pub open spec fn pipeline_below(global: Seq<MiddlewareStage>, route: Seq<MiddlewareStage>, k: nat) -> Seq<PipelineSlot>
    decreases k,
{
    if k == 0 {
        Seq::empty()
    } else {
        pipeline_below(global, route, (k - 1) as nat) + slots_at(
            global,
            MiddlewareSource::Global,
            (k - 1) as nat,
        ) + slots_at(route, MiddlewareSource::Route, (k - 1) as nat)
    }
}

/// The order the middleware runs in: sorted by stage, then source, then
/// registration index.
pub open spec fn spec_pipeline_order(global: Seq<MiddlewareStage>, route: Seq<MiddlewareStage>) -> Seq<PipelineSlot> {
    pipeline_below(global, route, 5)
}

fn push_slots(out: &mut Vec<PipelineSlot>, stages: &[MiddlewareStage], source: MiddlewareSource, k: u8)
    ensures
        final(out)@ == old(out)@ + slots_at(stages@, source, k as nat),
{
    let ghost start = out@;
    let mut i: usize = 0;
    assert(stages@.take(0) =~= Seq::<MiddlewareStage>::empty());
    assert(start + slots_at(stages@.take(0), source, k as nat) =~= start);
    while i < stages.len()
        invariant
            i <= stages.len(),
            out@ == start + slots_at(stages@.take(i as int), source, k as nat),
        decreases stages.len() - i,
    {
        assert(stages@.take(i + 1).drop_last() =~= stages@.take(i as int));
        if stage_of(stages[i]) == k {
            out.push(PipelineSlot { source, index: i });
        }
        assert(out@ =~= start + slots_at(stages@.take(i + 1), source, k as nat));
        i += 1;
    }
    assert(stages@.take(stages.len() as int) =~= stages@);
}

/// The order the global and route middleware of a request run in, given
/// their stages in registration order.
pub fn pipeline_order(global: &[MiddlewareStage], route: &[MiddlewareStage]) -> (r: Vec<PipelineSlot>)
    ensures
        r@ == spec_pipeline_order(global@, route@),
{
    let mut out: Vec<PipelineSlot> = Vec::new();
    let mut k: u8 = 0;
    assert(out@ =~= pipeline_below(global@, route@, 0));
    while k < 5
        invariant
            k <= 5,
            out@ == pipeline_below(global@, route@, k as nat),
        decreases 5 - k,
    {
        push_slots(&mut out, global, MiddlewareSource::Global, k);
        push_slots(&mut out, route, MiddlewareSource::Route, k);
        k += 1;
    }
    out
}

/// The stage of the middleware a slot refers to.
pub open spec fn slot_stage(global: Seq<MiddlewareStage>, route: Seq<MiddlewareStage>, s: PipelineSlot) -> MiddlewareStage {
    match s.source {
        MiddlewareSource::Global => global[s.index as int],
        MiddlewareSource::Route => route[s.index as int],
    }
}

/// Whether a slot refers to a registered middleware.
pub open spec fn slot_valid(global: Seq<MiddlewareStage>, route: Seq<MiddlewareStage>, s: PipelineSlot) -> bool {
    match s.source {
        MiddlewareSource::Global => s.index < global.len(),
        MiddlewareSource::Route => s.index < route.len(),
    }
}

/// The slots of one stage rank are exactly the middleware of that source
/// registered at that rank.
proof fn lemma_slots_at(stages: Seq<MiddlewareStage>, source: MiddlewareSource, k: nat)
    requires
        stages.len() <= usize::MAX,
    ensures
        forall|i: int| 0 <= i < slots_at(stages, source, k).len() ==> {
            let s = #[trigger] slots_at(stages, source, k)[i];
            s.source == source && s.index < stages.len() && stage_rank(stages[s.index as int]) == k
        },
        forall|j: int| 0 <= j < stages.len() && stage_rank(stages[j]) == k ==> #[trigger] slots_at(
            stages,
            source,
            k,
        ).contains(PipelineSlot { source, index: j as usize }),
    decreases stages.len(),
{
    if stages.len() > 0 {
        let front = stages.drop_last();
        lemma_slots_at(front, source, k);
        let rest = slots_at(front, source, k);
        let all = slots_at(stages, source, k);
        assert forall|i: int| 0 <= i < all.len() implies {
            let s = #[trigger] all[i];
            s.source == source && s.index < stages.len() && stage_rank(stages[s.index as int]) == k
        } by {
            if i < rest.len() {
                assert(all[i] == rest[i]);
                assert(stages[rest[i].index as int] == front[rest[i].index as int]);
            }
        }
        assert forall|j: int| 0 <= j < stages.len() && stage_rank(stages[j]) == k implies #[trigger] all.contains(
            PipelineSlot { source, index: j as usize },
        ) by {
            let want = PipelineSlot { source, index: j as usize };
            if j < stages.len() - 1 {
                assert(front[j] == stages[j]);
                assert(rest.contains(want));
                let w = choose|w: int| 0 <= w < rest.len() && rest[w] == want;
                assert(all[w] == want);
            } else {
                assert(all[all.len() - 1] == want);
            }
        }
    }
}

/// Every slot of the pipeline below rank `k` is valid and of a lower rank,
/// and the slots come in order of rank.
proof fn lemma_pipeline_below(global: Seq<MiddlewareStage>, route: Seq<MiddlewareStage>, k: nat)
    requires
        global.len() <= usize::MAX,
        route.len() <= usize::MAX,
    ensures
        forall|i: int| 0 <= i < pipeline_below(global, route, k).len() ==> {
            let s = #[trigger] pipeline_below(global, route, k)[i];
            slot_valid(global, route, s) && stage_rank(slot_stage(global, route, s)) < k
        },
        forall|i: int, j: int|
            0 <= i < j < pipeline_below(global, route, k).len() ==> stage_rank(
                slot_stage(global, route, #[trigger] pipeline_below(global, route, k)[i]),
            ) <= stage_rank(slot_stage(global, route, #[trigger] pipeline_below(global, route, k)[j])),
    decreases k,
{
    if k > 0 {
        let kk = (k - 1) as nat;
        lemma_pipeline_below(global, route, kk);
        lemma_slots_at(global, MiddlewareSource::Global, kk);
        lemma_slots_at(route, MiddlewareSource::Route, kk);
        let p = pipeline_below(global, route, kk);
        let a = slots_at(global, MiddlewareSource::Global, kk);
        let b = slots_at(route, MiddlewareSource::Route, kk);
        let all = pipeline_below(global, route, k);
        assert(all == p + a + b);
        assert forall|i: int| 0 <= i < all.len() implies {
            let s = #[trigger] all[i];
            slot_valid(global, route, s) && stage_rank(slot_stage(global, route, s)) < k
                && (i >= p.len() ==> stage_rank(slot_stage(global, route, s)) == kk)
        } by {
            if i < p.len() {
                assert(all[i] == p[i]);
            } else if i < p.len() + a.len() {
                assert(all[i] == a[i - p.len()]);
            } else {
                assert(all[i] == b[i - p.len() - a.len()]);
            }
        }
        assert forall|i: int, j: int| 0 <= i < j < all.len() implies stage_rank(
            slot_stage(global, route, #[trigger] all[i]),
        ) <= stage_rank(slot_stage(global, route, #[trigger] all[j])) by {
            if j < p.len() {
                assert(all[i] == p[i]);
                assert(all[j] == p[j]);
            } else if i < p.len() {
                assert(all[i] == p[i]);
            }
        }
    }
}

/// A slot of some rank below `k` is in the pipeline below `k`.
proof fn lemma_pipeline_contains(
    global: Seq<MiddlewareStage>,
    route: Seq<MiddlewareStage>,
    k: nat,
    r: nat,
    s: PipelineSlot,
)
    requires
        r < k,
        slots_at(global, MiddlewareSource::Global, r).contains(s) || slots_at(
            route,
            MiddlewareSource::Route,
            r,
        ).contains(s),
    ensures
        pipeline_below(global, route, k).contains(s),
    decreases k,
{
    let kk = (k - 1) as nat;
    let p = pipeline_below(global, route, kk);
    let a = slots_at(global, MiddlewareSource::Global, kk);
    let b = slots_at(route, MiddlewareSource::Route, kk);
    let all = pipeline_below(global, route, k);
    assert(all == p + a + b);
    if r < kk {
        lemma_pipeline_contains(global, route, kk, r, s);
        let w = choose|w: int| 0 <= w < p.len() && p[w] == s;
        assert(all[w] == s);
    } else if a.contains(s) {
        let w = choose|w: int| 0 <= w < a.len() && a[w] == s;
        assert(all[p.len() + w] == s);
    } else {
        let w = choose|w: int| 0 <= w < b.len() && b[w] == s;
        assert(all[p.len() + a.len() + w] == s);
    }
}

/// Middleware runs by stage: every registered middleware has a slot in the
/// pipeline, every slot refers to a registered middleware, and an earlier
/// slot is never of a later stage.
pub proof fn law_pipeline_runs_by_stage(global: Seq<MiddlewareStage>, route: Seq<MiddlewareStage>)
    requires
        global.len() <= usize::MAX,
        route.len() <= usize::MAX,
    ensures
        forall|i: int| 0 <= i < spec_pipeline_order(global, route).len() ==> slot_valid(
            global,
            route,
            #[trigger] spec_pipeline_order(global, route)[i],
        ),
        forall|i: int, j: int|
            0 <= i < j < spec_pipeline_order(global, route).len() ==> stage_rank(
                slot_stage(global, route, #[trigger] spec_pipeline_order(global, route)[i]),
            ) <= stage_rank(slot_stage(global, route, #[trigger] spec_pipeline_order(global, route)[j])),
        forall|j: int| 0 <= j < global.len() ==> #[trigger] spec_pipeline_order(global, route).contains(
            PipelineSlot { source: MiddlewareSource::Global, index: j as usize },
        ),
        forall|j: int| 0 <= j < route.len() ==> #[trigger] spec_pipeline_order(global, route).contains(
            PipelineSlot { source: MiddlewareSource::Route, index: j as usize },
        ),
{
    lemma_pipeline_below(global, route, 5);
    assert forall|j: int| 0 <= j < global.len() implies #[trigger] spec_pipeline_order(
        global,
        route,
    ).contains(PipelineSlot { source: MiddlewareSource::Global, index: j as usize }) by {
        let r = stage_rank(global[j]);
        lemma_slots_at(global, MiddlewareSource::Global, r);
        lemma_pipeline_contains(
            global,
            route,
            5,
            r,
            PipelineSlot { source: MiddlewareSource::Global, index: j as usize },
        );
    }
    assert forall|j: int| 0 <= j < route.len() implies #[trigger] spec_pipeline_order(
        global,
        route,
    ).contains(PipelineSlot { source: MiddlewareSource::Route, index: j as usize }) by {
        let r = stage_rank(route[j]);
        lemma_slots_at(route, MiddlewareSource::Route, r);
        lemma_pipeline_contains(
            global,
            route,
            5,
            r,
            PipelineSlot { source: MiddlewareSource::Route, index: j as usize },
        );
    }
}

} // verus!
