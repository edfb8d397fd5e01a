use ficus::event_log::standard_lifecycle::XesStandardLifecycle;
use ficus::features::analysis::patterns::contexts::PatternsDiscoveryStrategy;
use ficus::pipelines::patterns_parts::PatternsKindDto;

const ALL: [XesStandardLifecycle; 14] = [
    XesStandardLifecycle::Unspecified,
    XesStandardLifecycle::Assign,
    XesStandardLifecycle::AteAbort,
    XesStandardLifecycle::Autoskip,
    XesStandardLifecycle::Complete,
    XesStandardLifecycle::ManualSkip,
    XesStandardLifecycle::PiAbort,
    XesStandardLifecycle::ReAssign,
    XesStandardLifecycle::Resume,
    XesStandardLifecycle::Schedule,
    XesStandardLifecycle::Start,
    XesStandardLifecycle::Suspend,
    XesStandardLifecycle::Unknown,
    XesStandardLifecycle::Withdraw,
];

#[test]
fn lifecycle_names() {
    assert_eq!(XesStandardLifecycle::Start.to_string(), "start");
    assert_eq!(XesStandardLifecycle::ManualSkip.to_string(), "manualskip");
    assert_eq!(XesStandardLifecycle::AteAbort.to_string(), "ate_abort");
    assert_eq!(XesStandardLifecycle::from_str("complete"), Ok(XesStandardLifecycle::Complete));
    assert_eq!(XesStandardLifecycle::from_str("Complete"), Err(()));
    assert_eq!(XesStandardLifecycle::from_str(""), Err(()));
}

#[test]
fn lifecycle_round_trip() {
    for lifecycle in ALL {
        assert_eq!(XesStandardLifecycle::from_str(&lifecycle.to_string()), Ok(lifecycle));
    }
}

#[test]
fn lifecycle_parse_trait() {
    let parsed: Result<XesStandardLifecycle, ()> = "withdraw".parse();
    assert_eq!(parsed, Ok(XesStandardLifecycle::Withdraw));
}

#[test]
fn patterns_strategy_names() {
    assert_eq!(PatternsDiscoveryStrategy::from_str("FromAllTraces"), Ok(PatternsDiscoveryStrategy::FromAllTraces));
    assert_eq!(
        PatternsDiscoveryStrategy::from_str("FromSingleMergedTrace"),
        Ok(PatternsDiscoveryStrategy::FromSingleMergedTrace)
    );
    assert_eq!(PatternsDiscoveryStrategy::from_str("fromalltraces"), Err(()));
}

#[test]
fn patterns_kind_names() {
    assert_eq!(PatternsKindDto::from_str("PrimitiveTandemArrays"), Ok(PatternsKindDto::PrimitiveTandemArrays));
    assert_eq!(PatternsKindDto::from_str("MaximalTandemArrays"), Ok(PatternsKindDto::MaximalTandemArrays));
    assert_eq!(PatternsKindDto::from_str("MaximalRepeats"), Ok(PatternsKindDto::MaximalRepeats));
    assert_eq!(PatternsKindDto::from_str("SuperMaximalRepeats"), Ok(PatternsKindDto::SuperMaximalRepeats));
    assert_eq!(PatternsKindDto::from_str("NearSuperMaximalRepeats"), Ok(PatternsKindDto::NearSuperMaximalRepeats));
    assert_eq!(PatternsKindDto::from_str("Repeats"), Err(()));
}
