use dedup_cache::telemetry::{
    default_agent_endpoint, DefaultedStandardInstrument, ParentSpan, SamplingFilter,
};

#[test]
fn instrument_flag_decides() {
    assert!(DefaultedStandardInstrument::<u8>::Bool(true).is_enabled());
    assert!(!DefaultedStandardInstrument::<u8>::Bool(false).is_enabled());
}

#[test]
fn instrument_with_attributes_is_enabled() {
    assert!(DefaultedStandardInstrument::Extendable { attributes: 3u8 }.is_enabled());
}

#[test]
fn instrument_is_enabled_by_default() {
    let instrument: DefaultedStandardInstrument<u8> = Default::default();
    assert!(instrument.is_enabled());
    assert!(matches!(instrument, DefaultedStandardInstrument::Bool(true)));
}

#[test]
fn events_always_pass_the_sampling_filter() {
    let filter = SamplingFilter::new();
    assert!(filter.enabled(false, ParentSpan::Root, false));
    assert!(filter.enabled(false, ParentSpan::Unknown, false));
    assert!(filter.enabled(false, ParentSpan::Known { sampled: false }, false));
}

#[test]
fn root_span_follows_the_draw() {
    let filter = SamplingFilter::new();
    assert!(filter.enabled(true, ParentSpan::Root, true));
    assert!(!filter.enabled(true, ParentSpan::Root, false));
}

#[test]
fn child_span_follows_its_parent() {
    let filter = SamplingFilter::new();
    assert!(filter.enabled(true, ParentSpan::Known { sampled: true }, false));
    assert!(!filter.enabled(true, ParentSpan::Known { sampled: false }, true));
    assert!(!filter.enabled(true, ParentSpan::Unknown, true));
}

#[test]
fn agent_endpoint_default_name() {
    assert_eq!(default_agent_endpoint(), "default");
}
