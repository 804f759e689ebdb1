use vantus::middleware::{pipeline_order, MiddlewareSource, MiddlewareStage, PipelineSlot};

fn global(index: usize) -> PipelineSlot {
    PipelineSlot { source: MiddlewareSource::Global, index }
}

fn route(index: usize) -> PipelineSlot {
    PipelineSlot { source: MiddlewareSource::Route, index }
}

#[test]
fn pipeline_orders_by_stage_source_and_registration() {
    let order = pipeline_order(
        &[MiddlewareStage::Response, MiddlewareStage::Logging, MiddlewareStage::Recovery],
        &[MiddlewareStage::Logging, MiddlewareStage::Auth, MiddlewareStage::Logging],
    );
    assert_eq!(
        order,
        vec![global(1), route(0), route(2), global(2), route(1), global(0)]
    );
}

#[test]
fn registration_order_is_kept_within_a_stage() {
    let order = pipeline_order(
        &[MiddlewareStage::Validation, MiddlewareStage::Validation],
        &[],
    );
    assert_eq!(order, vec![global(0), global(1)]);
    assert!(pipeline_order(&[], &[]).is_empty());
}
