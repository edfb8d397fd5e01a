use vstd::prelude::*;

verus! {

/// The type of the value that a context key stands for.
#[derive(Clone, Copy, Debug, PartialEq, Eq, Structural)]
pub enum ContextValueType {
    Activities,
    ActivitiesLogsSource,
    ActivitiesToLogs,
    ActivityInTraceFilterKind,
    ActivityNarrowingKind,
    ActivityRepresentationSource,
    AdjustingMode,
    Bool,
    Bytes,
    ColorsEventLog,
    ColorsHolder,
    Dataset,
    Distance,
    EventLog,
    EventLogInfo,
    Graph,
    HashesEventLog,
    LabeledDataset,
    LogSerializationFormat,
    NamesEventLog,
    Patterns,
    PatternsDiscoveryStrategy,
    PatternsKind,
    PetriNet,
    PetriNetCountAnnotation,
    PetriNetFrequencyAnnotation,
    Pipeline,
    Real,
    RepeatSets,
    SystemMetadata,
    Text,
    Texts,
    TracesActivities,
    TracesRepresentationSource,
    U32,
    UndefActivityHandlingStrategy,
    Usize,
}

/// The keys under which pipeline parts store their values, in the order in which they are registered.
#[derive(Clone, Copy, Debug, PartialEq, Eq, Structural)]
pub enum ContextKeyKind {
    Path,
    TandemArrayLength,
    ActivityLevel,
    NarrowActivities,
    EventName,
    Regex,
    PatternsDiscoveryStrategy,
    OutputString,
    EventLogInfo,
    UnderlyingEventsCount,
    EventsCount,
    EventClassesRegexes,
    AdjustingMode,
    EventClassRegex,
    PatternsKind,
    Pipeline,
    MinActivityLength,
    UndefActivityHandlingStrategy,
    ActivityInTraceFilterKind,
    ActivitiesLogsSource,
    PnmlUseNamesAsIds,
    DependencyThreshold,
    PositiveObservationsThreshold,
    RelativeToBestThreshold,
    AndThreshold,
    LoopLengthTwoThreshold,
    UnaryFrequencyThreshold,
    BinaryFrequencySignificanceThreshold,
    PreserveThreshold,
    RatioThreshold,
    UtilityRate,
    EdgeCutoffThreshold,
    NodeCutoffThreshold,
    EventLog,
    Activities,
    RepeatSets,
    TraceActivities,
    Patterns,
    PetriNet,
    ActivitiesToLogs,
    ActivityName,
    HashesEventLog,
    NamesEventLog,
    ColorsEventLog,
    ColorsHolder,
    Graph,
    PetriNetFrequencyAnnotation,
    PetriNetCountAnnotation,
    PetriNetTraceFrequencyAnnotation,
    TerminateOnUnreplayableTraces,
    ClustersCount,
    LearningIterationsCount,
    Tolerance,
    MinEventsInClustersCount,
    TracesActivitiesDataset,
    LabeledTracesActivitiesDataset,
    ActivitiesReprSource,
    Distance,
    ExecuteOnlyOnLastExtraction,
    EventLogName,
    LogTracesDataset,
    LabeledLogTracesDataset,
    TracesReprSource,
    SystemMetadata,
    LogSerializationFormat,
    Bytes,
}

/// The number of registered keys.
pub const CONTEXT_KEYS_COUNT: usize = 63;

/// The position at which the key is registered.
pub open spec fn kind_index(kind: ContextKeyKind) -> int {
    match kind {
        ContextKeyKind::Path => 0,
        ContextKeyKind::TandemArrayLength => 1,
        ContextKeyKind::ActivityLevel => 2,
        ContextKeyKind::NarrowActivities => 3,
        ContextKeyKind::EventName => 4,
        ContextKeyKind::Regex => 5,
        ContextKeyKind::PatternsDiscoveryStrategy => 6,
        ContextKeyKind::OutputString => 7,
        ContextKeyKind::EventLogInfo => 8,
        ContextKeyKind::UnderlyingEventsCount => 9,
        ContextKeyKind::EventsCount => 10,
        ContextKeyKind::EventClassesRegexes => 11,
        ContextKeyKind::AdjustingMode => 12,
        ContextKeyKind::EventClassRegex => 13,
        ContextKeyKind::PatternsKind => 14,
        ContextKeyKind::Pipeline => 15,
        ContextKeyKind::MinActivityLength => 16,
        ContextKeyKind::UndefActivityHandlingStrategy => 17,
        ContextKeyKind::ActivityInTraceFilterKind => 18,
        ContextKeyKind::ActivitiesLogsSource => 19,
        ContextKeyKind::PnmlUseNamesAsIds => 20,
        ContextKeyKind::DependencyThreshold => 21,
        ContextKeyKind::PositiveObservationsThreshold => 22,
        ContextKeyKind::RelativeToBestThreshold => 23,
        ContextKeyKind::AndThreshold => 24,
        ContextKeyKind::LoopLengthTwoThreshold => 25,
        ContextKeyKind::UnaryFrequencyThreshold => 26,
        ContextKeyKind::BinaryFrequencySignificanceThreshold => 27,
        ContextKeyKind::PreserveThreshold => 28,
        ContextKeyKind::RatioThreshold => 29,
        ContextKeyKind::UtilityRate => 30,
        ContextKeyKind::EdgeCutoffThreshold => 31,
        ContextKeyKind::NodeCutoffThreshold => 32,
        ContextKeyKind::EventLog => 33,
        ContextKeyKind::Activities => 34,
        ContextKeyKind::RepeatSets => 35,
        ContextKeyKind::TraceActivities => 36,
        ContextKeyKind::Patterns => 37,
        ContextKeyKind::PetriNet => 38,
        ContextKeyKind::ActivitiesToLogs => 39,
        ContextKeyKind::ActivityName => 40,
        ContextKeyKind::HashesEventLog => 41,
        ContextKeyKind::NamesEventLog => 42,
        ContextKeyKind::ColorsEventLog => 43,
        ContextKeyKind::ColorsHolder => 44,
        ContextKeyKind::Graph => 45,
        ContextKeyKind::PetriNetFrequencyAnnotation => 46,
        ContextKeyKind::PetriNetCountAnnotation => 47,
        ContextKeyKind::PetriNetTraceFrequencyAnnotation => 48,
        ContextKeyKind::TerminateOnUnreplayableTraces => 49,
        ContextKeyKind::ClustersCount => 50,
        ContextKeyKind::LearningIterationsCount => 51,
        ContextKeyKind::Tolerance => 52,
        ContextKeyKind::MinEventsInClustersCount => 53,
        ContextKeyKind::TracesActivitiesDataset => 54,
        ContextKeyKind::LabeledTracesActivitiesDataset => 55,
        ContextKeyKind::ActivitiesReprSource => 56,
        ContextKeyKind::Distance => 57,
        ContextKeyKind::ExecuteOnlyOnLastExtraction => 58,
        ContextKeyKind::EventLogName => 59,
        ContextKeyKind::LogTracesDataset => 60,
        ContextKeyKind::LabeledLogTracesDataset => 61,
        ContextKeyKind::TracesReprSource => 62,
        ContextKeyKind::SystemMetadata => 63,
        ContextKeyKind::LogSerializationFormat => 64,
        ContextKeyKind::Bytes => 65,
    }
}

/// The kind registered at position `i`.
pub open spec fn kind_at(i: int) -> ContextKeyKind {
    if i == 0 {
        ContextKeyKind::Path
    } else if i == 1 {
        ContextKeyKind::TandemArrayLength
    } else if i == 2 {
        ContextKeyKind::ActivityLevel
    } else if i == 3 {
        ContextKeyKind::NarrowActivities
    } else if i == 4 {
        ContextKeyKind::EventName
    } else if i == 5 {
        ContextKeyKind::Regex
    } else if i == 6 {
        ContextKeyKind::PatternsDiscoveryStrategy
    } else if i == 7 {
        ContextKeyKind::OutputString
    } else if i == 8 {
        ContextKeyKind::EventLogInfo
    } else if i == 9 {
        ContextKeyKind::UnderlyingEventsCount
    } else if i == 10 {
        ContextKeyKind::EventsCount
    } else if i == 11 {
        ContextKeyKind::EventClassesRegexes
    } else if i == 12 {
        ContextKeyKind::AdjustingMode
    } else if i == 13 {
        ContextKeyKind::EventClassRegex
    } else if i == 14 {
        ContextKeyKind::PatternsKind
    } else if i == 15 {
        ContextKeyKind::Pipeline
    } else if i == 16 {
        ContextKeyKind::MinActivityLength
    } else if i == 17 {
        ContextKeyKind::UndefActivityHandlingStrategy
    } else if i == 18 {
        ContextKeyKind::ActivityInTraceFilterKind
    } else if i == 19 {
        ContextKeyKind::ActivitiesLogsSource
    } else if i == 20 {
        ContextKeyKind::PnmlUseNamesAsIds
    } else if i == 21 {
        ContextKeyKind::DependencyThreshold
    } else if i == 22 {
        ContextKeyKind::PositiveObservationsThreshold
    } else if i == 23 {
        ContextKeyKind::RelativeToBestThreshold
    } else if i == 24 {
        ContextKeyKind::AndThreshold
    } else if i == 25 {
        ContextKeyKind::LoopLengthTwoThreshold
    } else if i == 26 {
        ContextKeyKind::UnaryFrequencyThreshold
    } else if i == 27 {
        ContextKeyKind::BinaryFrequencySignificanceThreshold
    } else if i == 28 {
        ContextKeyKind::PreserveThreshold
    } else if i == 29 {
        ContextKeyKind::RatioThreshold
    } else if i == 30 {
        ContextKeyKind::UtilityRate
    } else if i == 31 {
        ContextKeyKind::EdgeCutoffThreshold
    } else if i == 32 {
        ContextKeyKind::NodeCutoffThreshold
    } else if i == 33 {
        ContextKeyKind::EventLog
    } else if i == 34 {
        ContextKeyKind::Activities
    } else if i == 35 {
        ContextKeyKind::RepeatSets
    } else if i == 36 {
        ContextKeyKind::TraceActivities
    } else if i == 37 {
        ContextKeyKind::Patterns
    } else if i == 38 {
        ContextKeyKind::PetriNet
    } else if i == 39 {
        ContextKeyKind::ActivitiesToLogs
    } else if i == 40 {
        ContextKeyKind::ActivityName
    } else if i == 41 {
        ContextKeyKind::HashesEventLog
    } else if i == 42 {
        ContextKeyKind::NamesEventLog
    } else if i == 43 {
        ContextKeyKind::ColorsEventLog
    } else if i == 44 {
        ContextKeyKind::ColorsHolder
    } else if i == 45 {
        ContextKeyKind::Graph
    } else if i == 46 {
        ContextKeyKind::PetriNetFrequencyAnnotation
    } else if i == 47 {
        ContextKeyKind::PetriNetCountAnnotation
    } else if i == 48 {
        ContextKeyKind::PetriNetTraceFrequencyAnnotation
    } else if i == 49 {
        ContextKeyKind::TerminateOnUnreplayableTraces
    } else if i == 50 {
        ContextKeyKind::ClustersCount
    } else if i == 51 {
        ContextKeyKind::LearningIterationsCount
    } else if i == 52 {
        ContextKeyKind::Tolerance
    } else if i == 53 {
        ContextKeyKind::MinEventsInClustersCount
    } else if i == 54 {
        ContextKeyKind::TracesActivitiesDataset
    } else if i == 55 {
        ContextKeyKind::LabeledTracesActivitiesDataset
    } else if i == 56 {
        ContextKeyKind::ActivitiesReprSource
    } else if i == 57 {
        ContextKeyKind::Distance
    } else if i == 58 {
        ContextKeyKind::ExecuteOnlyOnLastExtraction
    } else if i == 59 {
        ContextKeyKind::EventLogName
    } else if i == 60 {
        ContextKeyKind::LogTracesDataset
    } else if i == 61 {
        ContextKeyKind::LabeledLogTracesDataset
    } else if i == 62 {
        ContextKeyKind::TracesReprSource
    } else if i == 63 {
        ContextKeyKind::SystemMetadata
    } else if i == 64 {
        ContextKeyKind::LogSerializationFormat
    } else {
        ContextKeyKind::Bytes
    }
}

impl ContextKeyKind {
    /// The name under which the key is registered.
    pub fn name(&self) -> (res: &'static str)
        ensures
            res@ == self.spec_name(),
    {
        match self {
            ContextKeyKind::Path => ContextKeys::PATH,
            ContextKeyKind::TandemArrayLength => ContextKeys::TANDEM_ARRAY_LENGTH,
            ContextKeyKind::ActivityLevel => ContextKeys::ACTIVITY_LEVEL,
            ContextKeyKind::NarrowActivities => ContextKeys::NARROW_ACTIVITIES,
            ContextKeyKind::EventName => ContextKeys::EVENT_NAME,
            ContextKeyKind::Regex => ContextKeys::REGEX,
            ContextKeyKind::PatternsDiscoveryStrategy => ContextKeys::PATTERNS_DISCOVERY_STRATEGY,
            ContextKeyKind::OutputString => ContextKeys::OUTPUT_STRING,
            ContextKeyKind::EventLogInfo => ContextKeys::EVENT_LOG_INFO,
            ContextKeyKind::UnderlyingEventsCount => ContextKeys::UNDERLYING_EVENTS_COUNT,
            ContextKeyKind::EventsCount => ContextKeys::EVENTS_COUNT,
            ContextKeyKind::EventClassesRegexes => ContextKeys::EVENT_CLASSES_REGEXES,
            ContextKeyKind::AdjustingMode => ContextKeys::ADJUSTING_MODE,
            ContextKeyKind::EventClassRegex => ContextKeys::EVENT_CLASS_REGEX,
            ContextKeyKind::PatternsKind => ContextKeys::PATTERNS_KIND,
            ContextKeyKind::Pipeline => ContextKeys::PIPELINE,
            ContextKeyKind::MinActivityLength => ContextKeys::MIN_ACTIVITY_LENGTH,
            ContextKeyKind::UndefActivityHandlingStrategy => ContextKeys::UNDEF_ACTIVITY_HANDLING_STRATEGY,
            ContextKeyKind::ActivityInTraceFilterKind => ContextKeys::ACTIVITY_IN_TRACE_FILTER_KIND,
            ContextKeyKind::ActivitiesLogsSource => ContextKeys::ACTIVITIES_LOGS_SOURCE,
            ContextKeyKind::PnmlUseNamesAsIds => ContextKeys::PNML_USE_NAMES_AS_IDS,
            ContextKeyKind::DependencyThreshold => ContextKeys::DEPENDENCY_THRESHOLD,
            ContextKeyKind::PositiveObservationsThreshold => ContextKeys::POSITIVE_OBSERVATIONS_THRESHOLD,
            ContextKeyKind::RelativeToBestThreshold => ContextKeys::RELATIVE_TO_BEST_THRESHOLD,
            ContextKeyKind::AndThreshold => ContextKeys::AND_THRESHOLD,
            ContextKeyKind::LoopLengthTwoThreshold => ContextKeys::LOOP_LENGTH_TWO_THRESHOLD,
            ContextKeyKind::UnaryFrequencyThreshold => ContextKeys::UNARY_FREQUENCY_THRESHOLD,
            ContextKeyKind::BinaryFrequencySignificanceThreshold => ContextKeys::BINARY_FREQUENCY_SIGNIFICANCE_THRESHOLD,
            ContextKeyKind::PreserveThreshold => ContextKeys::PRESERVE_THRESHOLD,
            ContextKeyKind::RatioThreshold => ContextKeys::RATIO_THRESHOLD,
            ContextKeyKind::UtilityRate => ContextKeys::UTILITY_RATE,
            ContextKeyKind::EdgeCutoffThreshold => ContextKeys::EDGE_CUTOFF_THRESHOLD,
            ContextKeyKind::NodeCutoffThreshold => ContextKeys::NODE_CUTOFF_THRESHOLD,
            ContextKeyKind::EventLog => ContextKeys::EVENT_LOG,
            ContextKeyKind::Activities => ContextKeys::ACTIVITIES,
            ContextKeyKind::RepeatSets => ContextKeys::REPEAT_SETS,
            ContextKeyKind::TraceActivities => ContextKeys::TRACE_ACTIVITIES,
            ContextKeyKind::Patterns => ContextKeys::PATTERNS,
            ContextKeyKind::PetriNet => ContextKeys::PETRI_NET,
            ContextKeyKind::ActivitiesToLogs => ContextKeys::ACTIVITIES_TO_LOGS,
            ContextKeyKind::ActivityName => ContextKeys::ACTIVITY_NAME,
            ContextKeyKind::HashesEventLog => ContextKeys::HASHES_EVENT_LOG,
            ContextKeyKind::NamesEventLog => ContextKeys::NAMES_EVENT_LOG,
            ContextKeyKind::ColorsEventLog => ContextKeys::COLORS_EVENT_LOG,
            ContextKeyKind::ColorsHolder => ContextKeys::COLORS_HOLDER,
            ContextKeyKind::Graph => ContextKeys::GRAPH,
            ContextKeyKind::PetriNetFrequencyAnnotation => ContextKeys::PETRI_NET_FREQUENCY_ANNOTATION,
            ContextKeyKind::PetriNetCountAnnotation => ContextKeys::PETRI_NET_COUNT_ANNOTATION,
            ContextKeyKind::PetriNetTraceFrequencyAnnotation => ContextKeys::PETRI_NET_TRACE_FREQUENCY_ANNOTATION,
            ContextKeyKind::TerminateOnUnreplayableTraces => ContextKeys::TERMINATE_ON_UNREPLAYABLE_TRACES,
            ContextKeyKind::ClustersCount => ContextKeys::CLUSTERS_COUNT,
            ContextKeyKind::LearningIterationsCount => ContextKeys::LEARNING_ITERATIONS_COUNT,
            ContextKeyKind::Tolerance => ContextKeys::TOLERANCE,
            ContextKeyKind::MinEventsInClustersCount => ContextKeys::MIN_EVENTS_IN_CLUSTERS_COUNT,
            ContextKeyKind::TracesActivitiesDataset => ContextKeys::TRACES_ACTIVITIES_DATASET,
            ContextKeyKind::LabeledTracesActivitiesDataset => ContextKeys::LABELED_TRACES_ACTIVITIES_DATASET,
            ContextKeyKind::ActivitiesReprSource => ContextKeys::ACTIVITIES_REPR_SOURCE,
            ContextKeyKind::Distance => ContextKeys::DISTANCE,
            ContextKeyKind::ExecuteOnlyOnLastExtraction => ContextKeys::EXECUTE_ONLY_ON_LAST_EXTRACTION,
            ContextKeyKind::EventLogName => ContextKeys::EVENT_LOG_NAME,
            ContextKeyKind::LogTracesDataset => ContextKeys::LOG_TRACES_DATASET,
            ContextKeyKind::LabeledLogTracesDataset => ContextKeys::LABELED_LOG_TRACES_DATASET,
            ContextKeyKind::TracesReprSource => ContextKeys::TRACES_REPR_SOURCE,
            ContextKeyKind::SystemMetadata => ContextKeys::SYSTEM_METADATA,
            ContextKeyKind::LogSerializationFormat => ContextKeys::LOG_SERIALIZATION_FORMAT,
            ContextKeyKind::Bytes => ContextKeys::BYTES,
        }
    }

    pub open spec fn spec_name(&self) -> Seq<char> {
        match self {
            ContextKeyKind::Path => ContextKeys::PATH@,
            ContextKeyKind::TandemArrayLength => ContextKeys::TANDEM_ARRAY_LENGTH@,
            ContextKeyKind::ActivityLevel => ContextKeys::ACTIVITY_LEVEL@,
            ContextKeyKind::NarrowActivities => ContextKeys::NARROW_ACTIVITIES@,
            ContextKeyKind::EventName => ContextKeys::EVENT_NAME@,
            ContextKeyKind::Regex => ContextKeys::REGEX@,
            ContextKeyKind::PatternsDiscoveryStrategy => ContextKeys::PATTERNS_DISCOVERY_STRATEGY@,
            ContextKeyKind::OutputString => ContextKeys::OUTPUT_STRING@,
            ContextKeyKind::EventLogInfo => ContextKeys::EVENT_LOG_INFO@,
            ContextKeyKind::UnderlyingEventsCount => ContextKeys::UNDERLYING_EVENTS_COUNT@,
            ContextKeyKind::EventsCount => ContextKeys::EVENTS_COUNT@,
            ContextKeyKind::EventClassesRegexes => ContextKeys::EVENT_CLASSES_REGEXES@,
            ContextKeyKind::AdjustingMode => ContextKeys::ADJUSTING_MODE@,
            ContextKeyKind::EventClassRegex => ContextKeys::EVENT_CLASS_REGEX@,
            ContextKeyKind::PatternsKind => ContextKeys::PATTERNS_KIND@,
            ContextKeyKind::Pipeline => ContextKeys::PIPELINE@,
            ContextKeyKind::MinActivityLength => ContextKeys::MIN_ACTIVITY_LENGTH@,
            ContextKeyKind::UndefActivityHandlingStrategy => ContextKeys::UNDEF_ACTIVITY_HANDLING_STRATEGY@,
            ContextKeyKind::ActivityInTraceFilterKind => ContextKeys::ACTIVITY_IN_TRACE_FILTER_KIND@,
            ContextKeyKind::ActivitiesLogsSource => ContextKeys::ACTIVITIES_LOGS_SOURCE@,
            ContextKeyKind::PnmlUseNamesAsIds => ContextKeys::PNML_USE_NAMES_AS_IDS@,
            ContextKeyKind::DependencyThreshold => ContextKeys::DEPENDENCY_THRESHOLD@,
            ContextKeyKind::PositiveObservationsThreshold => ContextKeys::POSITIVE_OBSERVATIONS_THRESHOLD@,
            ContextKeyKind::RelativeToBestThreshold => ContextKeys::RELATIVE_TO_BEST_THRESHOLD@,
            ContextKeyKind::AndThreshold => ContextKeys::AND_THRESHOLD@,
            ContextKeyKind::LoopLengthTwoThreshold => ContextKeys::LOOP_LENGTH_TWO_THRESHOLD@,
            ContextKeyKind::UnaryFrequencyThreshold => ContextKeys::UNARY_FREQUENCY_THRESHOLD@,
            ContextKeyKind::BinaryFrequencySignificanceThreshold => ContextKeys::BINARY_FREQUENCY_SIGNIFICANCE_THRESHOLD@,
            ContextKeyKind::PreserveThreshold => ContextKeys::PRESERVE_THRESHOLD@,
            ContextKeyKind::RatioThreshold => ContextKeys::RATIO_THRESHOLD@,
            ContextKeyKind::UtilityRate => ContextKeys::UTILITY_RATE@,
            ContextKeyKind::EdgeCutoffThreshold => ContextKeys::EDGE_CUTOFF_THRESHOLD@,
            ContextKeyKind::NodeCutoffThreshold => ContextKeys::NODE_CUTOFF_THRESHOLD@,
            ContextKeyKind::EventLog => ContextKeys::EVENT_LOG@,
            ContextKeyKind::Activities => ContextKeys::ACTIVITIES@,
            ContextKeyKind::RepeatSets => ContextKeys::REPEAT_SETS@,
            ContextKeyKind::TraceActivities => ContextKeys::TRACE_ACTIVITIES@,
            ContextKeyKind::Patterns => ContextKeys::PATTERNS@,
            ContextKeyKind::PetriNet => ContextKeys::PETRI_NET@,
            ContextKeyKind::ActivitiesToLogs => ContextKeys::ACTIVITIES_TO_LOGS@,
            ContextKeyKind::ActivityName => ContextKeys::ACTIVITY_NAME@,
            ContextKeyKind::HashesEventLog => ContextKeys::HASHES_EVENT_LOG@,
            ContextKeyKind::NamesEventLog => ContextKeys::NAMES_EVENT_LOG@,
            ContextKeyKind::ColorsEventLog => ContextKeys::COLORS_EVENT_LOG@,
            ContextKeyKind::ColorsHolder => ContextKeys::COLORS_HOLDER@,
            ContextKeyKind::Graph => ContextKeys::GRAPH@,
            ContextKeyKind::PetriNetFrequencyAnnotation => ContextKeys::PETRI_NET_FREQUENCY_ANNOTATION@,
            ContextKeyKind::PetriNetCountAnnotation => ContextKeys::PETRI_NET_COUNT_ANNOTATION@,
            ContextKeyKind::PetriNetTraceFrequencyAnnotation => ContextKeys::PETRI_NET_TRACE_FREQUENCY_ANNOTATION@,
            ContextKeyKind::TerminateOnUnreplayableTraces => ContextKeys::TERMINATE_ON_UNREPLAYABLE_TRACES@,
            ContextKeyKind::ClustersCount => ContextKeys::CLUSTERS_COUNT@,
            ContextKeyKind::LearningIterationsCount => ContextKeys::LEARNING_ITERATIONS_COUNT@,
            ContextKeyKind::Tolerance => ContextKeys::TOLERANCE@,
            ContextKeyKind::MinEventsInClustersCount => ContextKeys::MIN_EVENTS_IN_CLUSTERS_COUNT@,
            ContextKeyKind::TracesActivitiesDataset => ContextKeys::TRACES_ACTIVITIES_DATASET@,
            ContextKeyKind::LabeledTracesActivitiesDataset => ContextKeys::LABELED_TRACES_ACTIVITIES_DATASET@,
            ContextKeyKind::ActivitiesReprSource => ContextKeys::ACTIVITIES_REPR_SOURCE@,
            ContextKeyKind::Distance => ContextKeys::DISTANCE@,
            ContextKeyKind::ExecuteOnlyOnLastExtraction => ContextKeys::EXECUTE_ONLY_ON_LAST_EXTRACTION@,
            ContextKeyKind::EventLogName => ContextKeys::EVENT_LOG_NAME@,
            ContextKeyKind::LogTracesDataset => ContextKeys::LOG_TRACES_DATASET@,
            ContextKeyKind::LabeledLogTracesDataset => ContextKeys::LABELED_LOG_TRACES_DATASET@,
            ContextKeyKind::TracesReprSource => ContextKeys::TRACES_REPR_SOURCE@,
            ContextKeyKind::SystemMetadata => ContextKeys::SYSTEM_METADATA@,
            ContextKeyKind::LogSerializationFormat => ContextKeys::LOG_SERIALIZATION_FORMAT@,
            ContextKeyKind::Bytes => ContextKeys::BYTES@,
        }
    }

    /// The type of the value that the key stands for.
    pub fn value_type(&self) -> (res: ContextValueType)
        ensures
            res == self.spec_value_type(),
    {
        match self {
            ContextKeyKind::Path => ContextValueType::Text,
            ContextKeyKind::TandemArrayLength => ContextValueType::U32,
            ContextKeyKind::ActivityLevel => ContextValueType::U32,
            ContextKeyKind::NarrowActivities => ContextValueType::ActivityNarrowingKind,
            ContextKeyKind::EventName => ContextValueType::Text,
            ContextKeyKind::Regex => ContextValueType::Text,
            ContextKeyKind::PatternsDiscoveryStrategy => ContextValueType::PatternsDiscoveryStrategy,
            ContextKeyKind::OutputString => ContextValueType::Text,
            ContextKeyKind::EventLogInfo => ContextValueType::EventLogInfo,
            ContextKeyKind::UnderlyingEventsCount => ContextValueType::Usize,
            ContextKeyKind::EventsCount => ContextValueType::U32,
            ContextKeyKind::EventClassesRegexes => ContextValueType::Texts,
            ContextKeyKind::AdjustingMode => ContextValueType::AdjustingMode,
            ContextKeyKind::EventClassRegex => ContextValueType::Text,
            ContextKeyKind::PatternsKind => ContextValueType::PatternsKind,
            ContextKeyKind::Pipeline => ContextValueType::Pipeline,
            ContextKeyKind::MinActivityLength => ContextValueType::U32,
            ContextKeyKind::UndefActivityHandlingStrategy => ContextValueType::UndefActivityHandlingStrategy,
            ContextKeyKind::ActivityInTraceFilterKind => ContextValueType::ActivityInTraceFilterKind,
            ContextKeyKind::ActivitiesLogsSource => ContextValueType::ActivitiesLogsSource,
            ContextKeyKind::PnmlUseNamesAsIds => ContextValueType::Bool,
            ContextKeyKind::DependencyThreshold => ContextValueType::Real,
            ContextKeyKind::PositiveObservationsThreshold => ContextValueType::U32,
            ContextKeyKind::RelativeToBestThreshold => ContextValueType::Real,
            ContextKeyKind::AndThreshold => ContextValueType::Real,
            ContextKeyKind::LoopLengthTwoThreshold => ContextValueType::Real,
            ContextKeyKind::UnaryFrequencyThreshold => ContextValueType::Real,
            ContextKeyKind::BinaryFrequencySignificanceThreshold => ContextValueType::Real,
            ContextKeyKind::PreserveThreshold => ContextValueType::Real,
            ContextKeyKind::RatioThreshold => ContextValueType::Real,
            ContextKeyKind::UtilityRate => ContextValueType::Real,
            ContextKeyKind::EdgeCutoffThreshold => ContextValueType::Real,
            ContextKeyKind::NodeCutoffThreshold => ContextValueType::Real,
            ContextKeyKind::EventLog => ContextValueType::EventLog,
            ContextKeyKind::Activities => ContextValueType::Activities,
            ContextKeyKind::RepeatSets => ContextValueType::RepeatSets,
            ContextKeyKind::TraceActivities => ContextValueType::TracesActivities,
            ContextKeyKind::Patterns => ContextValueType::Patterns,
            ContextKeyKind::PetriNet => ContextValueType::PetriNet,
            ContextKeyKind::ActivitiesToLogs => ContextValueType::ActivitiesToLogs,
            ContextKeyKind::ActivityName => ContextValueType::Text,
            ContextKeyKind::HashesEventLog => ContextValueType::HashesEventLog,
            ContextKeyKind::NamesEventLog => ContextValueType::NamesEventLog,
            ContextKeyKind::ColorsEventLog => ContextValueType::ColorsEventLog,
            ContextKeyKind::ColorsHolder => ContextValueType::ColorsHolder,
            ContextKeyKind::Graph => ContextValueType::Graph,
            ContextKeyKind::PetriNetFrequencyAnnotation => ContextValueType::PetriNetFrequencyAnnotation,
            ContextKeyKind::PetriNetCountAnnotation => ContextValueType::PetriNetCountAnnotation,
            ContextKeyKind::PetriNetTraceFrequencyAnnotation => ContextValueType::PetriNetFrequencyAnnotation,
            ContextKeyKind::TerminateOnUnreplayableTraces => ContextValueType::Bool,
            ContextKeyKind::ClustersCount => ContextValueType::U32,
            ContextKeyKind::LearningIterationsCount => ContextValueType::U32,
            ContextKeyKind::Tolerance => ContextValueType::Real,
            ContextKeyKind::MinEventsInClustersCount => ContextValueType::U32,
            ContextKeyKind::TracesActivitiesDataset => ContextValueType::Dataset,
            ContextKeyKind::LabeledTracesActivitiesDataset => ContextValueType::LabeledDataset,
            ContextKeyKind::ActivitiesReprSource => ContextValueType::ActivityRepresentationSource,
            ContextKeyKind::Distance => ContextValueType::Distance,
            ContextKeyKind::ExecuteOnlyOnLastExtraction => ContextValueType::Bool,
            ContextKeyKind::EventLogName => ContextValueType::Text,
            ContextKeyKind::LogTracesDataset => ContextValueType::Dataset,
            ContextKeyKind::LabeledLogTracesDataset => ContextValueType::LabeledDataset,
            ContextKeyKind::TracesReprSource => ContextValueType::TracesRepresentationSource,
            ContextKeyKind::SystemMetadata => ContextValueType::SystemMetadata,
            ContextKeyKind::LogSerializationFormat => ContextValueType::LogSerializationFormat,
            ContextKeyKind::Bytes => ContextValueType::Bytes,
        }
    }

    pub open spec fn spec_value_type(&self) -> ContextValueType {
        match self {
            ContextKeyKind::Path => ContextValueType::Text,
            ContextKeyKind::TandemArrayLength => ContextValueType::U32,
            ContextKeyKind::ActivityLevel => ContextValueType::U32,
            ContextKeyKind::NarrowActivities => ContextValueType::ActivityNarrowingKind,
            ContextKeyKind::EventName => ContextValueType::Text,
            ContextKeyKind::Regex => ContextValueType::Text,
            ContextKeyKind::PatternsDiscoveryStrategy => ContextValueType::PatternsDiscoveryStrategy,
            ContextKeyKind::OutputString => ContextValueType::Text,
            ContextKeyKind::EventLogInfo => ContextValueType::EventLogInfo,
            ContextKeyKind::UnderlyingEventsCount => ContextValueType::Usize,
            ContextKeyKind::EventsCount => ContextValueType::U32,
            ContextKeyKind::EventClassesRegexes => ContextValueType::Texts,
            ContextKeyKind::AdjustingMode => ContextValueType::AdjustingMode,
            ContextKeyKind::EventClassRegex => ContextValueType::Text,
            ContextKeyKind::PatternsKind => ContextValueType::PatternsKind,
            ContextKeyKind::Pipeline => ContextValueType::Pipeline,
            ContextKeyKind::MinActivityLength => ContextValueType::U32,
            ContextKeyKind::UndefActivityHandlingStrategy => ContextValueType::UndefActivityHandlingStrategy,
            ContextKeyKind::ActivityInTraceFilterKind => ContextValueType::ActivityInTraceFilterKind,
            ContextKeyKind::ActivitiesLogsSource => ContextValueType::ActivitiesLogsSource,
            ContextKeyKind::PnmlUseNamesAsIds => ContextValueType::Bool,
            ContextKeyKind::DependencyThreshold => ContextValueType::Real,
            ContextKeyKind::PositiveObservationsThreshold => ContextValueType::U32,
            ContextKeyKind::RelativeToBestThreshold => ContextValueType::Real,
            ContextKeyKind::AndThreshold => ContextValueType::Real,
            ContextKeyKind::LoopLengthTwoThreshold => ContextValueType::Real,
            ContextKeyKind::UnaryFrequencyThreshold => ContextValueType::Real,
            ContextKeyKind::BinaryFrequencySignificanceThreshold => ContextValueType::Real,
            ContextKeyKind::PreserveThreshold => ContextValueType::Real,
            ContextKeyKind::RatioThreshold => ContextValueType::Real,
            ContextKeyKind::UtilityRate => ContextValueType::Real,
            ContextKeyKind::EdgeCutoffThreshold => ContextValueType::Real,
            ContextKeyKind::NodeCutoffThreshold => ContextValueType::Real,
            ContextKeyKind::EventLog => ContextValueType::EventLog,
            ContextKeyKind::Activities => ContextValueType::Activities,
            ContextKeyKind::RepeatSets => ContextValueType::RepeatSets,
            ContextKeyKind::TraceActivities => ContextValueType::TracesActivities,
            ContextKeyKind::Patterns => ContextValueType::Patterns,
            ContextKeyKind::PetriNet => ContextValueType::PetriNet,
            ContextKeyKind::ActivitiesToLogs => ContextValueType::ActivitiesToLogs,
            ContextKeyKind::ActivityName => ContextValueType::Text,
            ContextKeyKind::HashesEventLog => ContextValueType::HashesEventLog,
            ContextKeyKind::NamesEventLog => ContextValueType::NamesEventLog,
            ContextKeyKind::ColorsEventLog => ContextValueType::ColorsEventLog,
            ContextKeyKind::ColorsHolder => ContextValueType::ColorsHolder,
            ContextKeyKind::Graph => ContextValueType::Graph,
            ContextKeyKind::PetriNetFrequencyAnnotation => ContextValueType::PetriNetFrequencyAnnotation,
            ContextKeyKind::PetriNetCountAnnotation => ContextValueType::PetriNetCountAnnotation,
            ContextKeyKind::PetriNetTraceFrequencyAnnotation => ContextValueType::PetriNetFrequencyAnnotation,
            ContextKeyKind::TerminateOnUnreplayableTraces => ContextValueType::Bool,
            ContextKeyKind::ClustersCount => ContextValueType::U32,
            ContextKeyKind::LearningIterationsCount => ContextValueType::U32,
            ContextKeyKind::Tolerance => ContextValueType::Real,
            ContextKeyKind::MinEventsInClustersCount => ContextValueType::U32,
            ContextKeyKind::TracesActivitiesDataset => ContextValueType::Dataset,
            ContextKeyKind::LabeledTracesActivitiesDataset => ContextValueType::LabeledDataset,
            ContextKeyKind::ActivitiesReprSource => ContextValueType::ActivityRepresentationSource,
            ContextKeyKind::Distance => ContextValueType::Distance,
            ContextKeyKind::ExecuteOnlyOnLastExtraction => ContextValueType::Bool,
            ContextKeyKind::EventLogName => ContextValueType::Text,
            ContextKeyKind::LogTracesDataset => ContextValueType::Dataset,
            ContextKeyKind::LabeledLogTracesDataset => ContextValueType::LabeledDataset,
            ContextKeyKind::TracesReprSource => ContextValueType::TracesRepresentationSource,
            ContextKeyKind::SystemMetadata => ContextValueType::SystemMetadata,
            ContextKeyKind::LogSerializationFormat => ContextValueType::LogSerializationFormat,
            ContextKeyKind::Bytes => ContextValueType::Bytes,
        }
    }
}
/// Whether `kind_at` and `kind_index` agree on the position `i`.
pub proof fn lemma_kind_at_index(i: int)
    requires
        0 <= i < CONTEXT_KEYS_COUNT,
    ensures
        kind_index(kind_at(i)) == i,
{
}

/// The registry holds no key of the system metadata, of the log serialization
/// format or of raw bytes.
pub proof fn lemma_unregistered_kinds()
    ensures
        !has_kind(standard_keys(), ContextKeyKind::SystemMetadata),
        !has_kind(standard_keys(), ContextKeyKind::LogSerializationFormat),
        !has_kind(standard_keys(), ContextKeyKind::Bytes),
{
    assert forall|j: int| 0 <= j < standard_keys().len() implies {
        let k = #[trigger] standard_keys()[j].kind;
        k != ContextKeyKind::SystemMetadata && k != ContextKeyKind::LogSerializationFormat && k != ContextKeyKind::Bytes
    } by {
        lemma_kind_at_index(j);
    }
}

/// A key of the pipeline context: its kind (which fixes its name and the type
/// of its value) and its id.
#[derive(Clone, Copy, Debug, PartialEq, Eq, Structural)]
pub struct DefaultContextKey {
    pub kind: ContextKeyKind,
    pub id: u64,
}

impl DefaultContextKey {
    pub open spec fn spec_name(&self) -> Seq<char> {
        self.kind.spec_name()
    }

    pub fn name(&self) -> (res: &'static str)
        ensures
            res@ == self.kind.spec_name(),
    {
        self.kind.name()
    }

    pub fn id(&self) -> (res: u64)
        ensures
            res == self.id,
    {
        self.id
    }

    pub fn value_type(&self) -> (res: ContextValueType)
        ensures
            res == self.kind.spec_value_type(),
    {
        self.kind.value_type()
    }
}

/// The key registered at position `i`, with `i` as its id.
pub open spec fn standard_key(i: int) -> DefaultContextKey {
    DefaultContextKey { kind: kind_at(i), id: i as u64 }
}

/// Every registered key, in the order of registration.
pub open spec fn standard_keys() -> Seq<DefaultContextKey> {
    Seq::new(CONTEXT_KEYS_COUNT as nat, |i: int| standard_key(i))
}

/// Whether some key of the sequence has the given kind.
pub open spec fn has_kind(keys: Seq<DefaultContextKey>, kind: ContextKeyKind) -> bool {
    exists|j: int| 0 <= j < keys.len() && keys[j].kind == kind
}

/// The keys while they are being registered: one store looked up by name
/// for any key, one for keys whose value type the caller names.
struct ContextKeysInitContext {
    concrete_keys: Vec<DefaultContextKey>,
    context_keys: Vec<DefaultContextKey>,
}

impl ContextKeysInitContext {
    /// The first `n` standard keys are registered, in both stores.
    spec fn registered_prefix(&self, n: int) -> bool {
        &&& self.concrete_keys@ == standard_keys().take(n)
        &&& self.context_keys@ == standard_keys().take(n)
    }

    fn empty() -> (res: Self)
        ensures
            res.registered_prefix(0),
    {
        let res = Self { concrete_keys: Vec::new(), context_keys: Vec::new() };
        assert(res.concrete_keys@ =~= standard_keys().take(0));
        res
    }

    fn insert(&mut self, key: &DefaultContextKey)
        requires
            !has_kind(old(self).concrete_keys@, key.kind),
            !has_kind(old(self).context_keys@, key.kind),
        ensures
            final(self).concrete_keys@ == old(self).concrete_keys@.push(*key),
            final(self).context_keys@ == old(self).context_keys@.push(*key),
    {
        self.insert_concrete(key);
        self.insert_context(key);
    }

    /// Registers the key in the store looked up by name; a second key of the
    /// same kind is not admitted.
    fn insert_concrete(&mut self, key: &DefaultContextKey)
        requires
            !has_kind(old(self).context_keys@, key.kind),
        ensures
            final(self).context_keys@ == old(self).context_keys@.push(*key),
            final(self).concrete_keys@ == old(self).concrete_keys@,
    {
        self.context_keys.push(*key);
    }

    /// Registers the key in the store of typed keys; a second key of the same
    /// kind is not admitted.
    fn insert_context(&mut self, key: &DefaultContextKey)
        requires
            !has_kind(old(self).concrete_keys@, key.kind),
        ensures
            final(self).concrete_keys@ == old(self).concrete_keys@.push(*key),
            final(self).context_keys@ == old(self).context_keys@,
    {
        self.concrete_keys.push(*key);
    }

    fn deconstruct(self) -> (res: (Vec<DefaultContextKey>, Vec<DefaultContextKey>))
        ensures
            res.0@ == self.concrete_keys@,
            res.1@ == self.context_keys@,
    {
        (self.concrete_keys, self.context_keys)
    }
}

/// The registry of the keys of the pipeline context.
pub struct ContextKeys {
    concrete_keys: Vec<DefaultContextKey>,
    context_keys: Vec<DefaultContextKey>,
}

impl View for ContextKeys {
    type V = Seq<DefaultContextKey>;

    /// The keys that are looked up with their value type.
    closed spec fn view(&self) -> Seq<DefaultContextKey> {
        self.concrete_keys@
    }
}

impl ContextKeys {
    /// The keys that are looked up by name alone.
    pub closed spec fn named_view(&self) -> Seq<DefaultContextKey> {
        self.context_keys@
    }

    /// Both stores hold every standard key at its position.
    pub open spec fn wf(&self) -> bool {
        &&& self@ == standard_keys()
        &&& self.named_view() == standard_keys()
    }

    pub fn len(&self) -> (res: usize)
        ensures
            res == self@.len(),
    {
        self.concrete_keys.len()
    }

    /// The first key with the given name.
    pub fn find_key(&self, name: &str) -> (res: Option<&DefaultContextKey>)
        ensures
            match res {
                Some(key) => exists|i: int| 0 <= i < self.named_view().len() && self.named_view()[i] == *key
                    && key.spec_name() == name@
                    && forall|j: int| 0 <= j < i ==> self.named_view()[j].spec_name() != name@,
                None => forall|j: int| 0 <= j < self.named_view().len() ==> self.named_view()[j].spec_name() != name@,
            },
    {
        let wanted = name.to_owned();
        let mut i: usize = 0;
        while i < self.context_keys.len()
            invariant
                i <= self.context_keys@.len(),
                wanted@ == name@,
                forall|j: int| 0 <= j < i ==> self.context_keys@[j].spec_name() != name@,
            decreases self.context_keys@.len() - i,
        {
            if self.context_keys[i].name().to_owned() == wanted {
                assert(self.named_view()[i as int] == self.context_keys@[i as int]);
                return Some(&self.context_keys[i]);
            }
            i = i + 1;
        }
        None
    }

    /// The first key with the given name, which holds values of `value_type`.
    pub fn find_concrete_key(&self, name: &str, value_type: ContextValueType) -> (res: Option<&DefaultContextKey>)
        requires
            forall|j: int| 0 <= j < self@.len() && self@[j].spec_name() == name@ ==> self@[j].kind.spec_value_type() == value_type,
        ensures
            match res {
                Some(key) => exists|i: int| 0 <= i < self@.len() && self@[i] == *key
                    && key.spec_name() == name@
                    && key.kind.spec_value_type() == value_type
                    && forall|j: int| 0 <= j < i ==> self@[j].spec_name() != name@,
                None => forall|j: int| 0 <= j < self@.len() ==> self@[j].spec_name() != name@,
            },
    {
        let wanted = name.to_owned();
        let mut i: usize = 0;
        while i < self.concrete_keys.len()
            invariant
                i <= self.concrete_keys@.len(),
                wanted@ == name@,
                self@ == self.concrete_keys@,
                forall|j: int| 0 <= j < i ==> self@[j].spec_name() != name@,
                forall|j: int| 0 <= j < self@.len() && self@[j].spec_name() == name@ ==> self@[j].kind.spec_value_type() == value_type,
            decreases self.concrete_keys@.len() - i,
        {
            if self.concrete_keys[i].name().to_owned() == wanted {
                assert(self@[i as int] == self.concrete_keys@[i as int]);
                assert(self@[i as int].spec_name() == name@);
                return Some(&self.concrete_keys[i]);
            }
            i = i + 1;
        }
        None
    }

    fn key_at(&self, index: usize) -> (res: &DefaultContextKey)
        requires
            self.wf(),
            index < CONTEXT_KEYS_COUNT,
        ensures
            *res == standard_key(index as int),
            *res == self@[index as int],
    {
        &self.concrete_keys[index]
    }

    fn are_keys_equal(first: &DefaultContextKey, second: &DefaultContextKey) -> (res: bool)
        ensures
            res == (first.id == second.id),
    {
        first.id() == second.id()
    }

    fn insert_key(context: &mut ContextKeysInitContext, kind: ContextKeyKind)
        requires
            old(context).registered_prefix(kind_index(kind)),
            0 <= kind_index(kind) < CONTEXT_KEYS_COUNT,
        ensures
            final(context).registered_prefix(kind_index(kind) + 1),
    {
        let ghost n = kind_index(kind);
        let id = context.concrete_keys.len() as u64;
        let key = DefaultContextKey { kind, id };
        proof {
            lemma_kind_at_index(n);
            assert forall|j: int| 0 <= j < n implies #[trigger] standard_keys().take(n)[j].kind != kind by {
                lemma_kind_at_index(j);
            }
            assert(key == standard_key(n));
        }
        Self::insert_key_to_map(context, &key);
        proof {
            assert(standard_keys().take(n).push(key) =~= standard_keys().take(n + 1));
        }
    }

    fn insert_key_to_map(context: &mut ContextKeysInitContext, key: &DefaultContextKey)
        requires
            !has_kind(old(context).concrete_keys@, key.kind),
            !has_kind(old(context).context_keys@, key.kind),
        ensures
            final(context).concrete_keys@ == old(context).concrete_keys@.push(*key),
            final(context).context_keys@ == old(context).context_keys@.push(*key),
    {
        context.insert(key);
    }
}

impl ContextKeys {
    pub const PATH: &'static str = "path";
    pub const TANDEM_ARRAY_LENGTH: &'static str = "tandem_array_length";
    pub const ACTIVITY_LEVEL: &'static str = "activity_level";
    pub const NARROW_ACTIVITIES: &'static str = "narrow_activities";
    pub const EVENT_NAME: &'static str = "event_name";
    pub const REGEX: &'static str = "regex";
    pub const PATTERNS_DISCOVERY_STRATEGY: &'static str = "patterns_discovery_strategy";
    pub const OUTPUT_STRING: &'static str = "output_string";
    pub const EVENT_LOG_INFO: &'static str = "event_log_info";
    pub const UNDERLYING_EVENTS_COUNT: &'static str = "underlying_events_count";
    pub const EVENTS_COUNT: &'static str = "events_count";
    pub const EVENT_CLASSES_REGEXES: &'static str = "event_classes_regexes";
    pub const ADJUSTING_MODE: &'static str = "adjusting_mode";
    pub const EVENT_CLASS_REGEX: &'static str = "event_class_regex";
    pub const PATTERNS_KIND: &'static str = "patterns_kind";
    pub const PIPELINE: &'static str = "pipeline";
    pub const MIN_ACTIVITY_LENGTH: &'static str = "min_activity_length";
    pub const UNDEF_ACTIVITY_HANDLING_STRATEGY: &'static str = "undef_activity_handling_strategy";
    pub const ACTIVITY_IN_TRACE_FILTER_KIND: &'static str = "activity_in_trace_filter_kind";
    pub const ACTIVITIES_LOGS_SOURCE: &'static str = "activities_logs_source";
    pub const PNML_USE_NAMES_AS_IDS: &'static str = "pnml_use_names_as_ids";
    pub const DEPENDENCY_THRESHOLD: &'static str = "dependency_threshold";
    pub const POSITIVE_OBSERVATIONS_THRESHOLD: &'static str = "positive_observations_threshold";
    pub const RELATIVE_TO_BEST_THRESHOLD: &'static str = "relative_to_best_threshold";
    pub const AND_THRESHOLD: &'static str = "and_threshold";
    pub const LOOP_LENGTH_TWO_THRESHOLD: &'static str = "loop_length_two_threshold";
    pub const UNARY_FREQUENCY_THRESHOLD: &'static str = "unary_frequency_threshold";
    pub const BINARY_FREQUENCY_SIGNIFICANCE_THRESHOLD: &'static str = "binary_frequency_significance_threshold";
    pub const PRESERVE_THRESHOLD: &'static str = "preserve_threshold";
    pub const RATIO_THRESHOLD: &'static str = "ratio_threshold";
    pub const UTILITY_RATE: &'static str = "utility_rate";
    pub const EDGE_CUTOFF_THRESHOLD: &'static str = "edge_cutoff_threshold";
    pub const NODE_CUTOFF_THRESHOLD: &'static str = "node_cutoff_threshold";
    pub const EVENT_LOG: &'static str = "event_log";
    pub const ACTIVITIES: &'static str = "activities";
    pub const REPEAT_SETS: &'static str = "repeat_sets";
    pub const TRACE_ACTIVITIES: &'static str = "trace_activities";
    pub const PATTERNS: &'static str = "patterns";
    pub const PETRI_NET: &'static str = "petri_net";
    pub const ACTIVITIES_TO_LOGS: &'static str = "activities_to_logs";
    pub const ACTIVITY_NAME: &'static str = "activity_name";
    pub const HASHES_EVENT_LOG: &'static str = "hashes_event_log";
    pub const NAMES_EVENT_LOG: &'static str = "names_event_log";
    pub const COLORS_EVENT_LOG: &'static str = "colors_event_log";
    pub const COLORS_HOLDER: &'static str = "colors_holder";
    pub const GRAPH: &'static str = "graph";
    pub const PETRI_NET_FREQUENCY_ANNOTATION: &'static str = "petri_net_frequency_annotation";
    pub const PETRI_NET_COUNT_ANNOTATION: &'static str = "petri_net_count_annotation";
    pub const PETRI_NET_TRACE_FREQUENCY_ANNOTATION: &'static str = "petri_net_trace_frequency_annotation";
    pub const TERMINATE_ON_UNREPLAYABLE_TRACES: &'static str = "terminate_on_unreplayable_traces";
    pub const CLUSTERS_COUNT: &'static str = "clusters_count";
    pub const LEARNING_ITERATIONS_COUNT: &'static str = "learning_iterations_count";
    pub const TOLERANCE: &'static str = "tolerance";
    pub const MIN_EVENTS_IN_CLUSTERS_COUNT: &'static str = "min_events_in_cluster_count";
    pub const TRACES_ACTIVITIES_DATASET: &'static str = "traces_activities_dataset";
    pub const LABELED_TRACES_ACTIVITIES_DATASET: &'static str = "labeled_traces_activities_dataset";
    pub const ACTIVITIES_REPR_SOURCE: &'static str = "activities_repr_source";
    pub const DISTANCE: &'static str = "distance";
    pub const EXECUTE_ONLY_ON_LAST_EXTRACTION: &'static str = "execute_only_on_last_extraction";
    pub const EVENT_LOG_NAME: &'static str = "event_log_name";
    pub const LOG_TRACES_DATASET: &'static str = "log_traces_dataset";
    pub const LABELED_LOG_TRACES_DATASET: &'static str = "labeled_log_traces_dataset";
    pub const TRACES_REPR_SOURCE: &'static str = "traces_repr_source";
    pub const SYSTEM_METADATA: &'static str = "system_metadata";
    pub const LOG_SERIALIZATION_FORMAT: &'static str = "log_serialization_format";
    pub const BYTES: &'static str = "bytes";

    /// A registry holding every key, each at its position, with its position as its id.
    pub fn new() -> (res: Self)
        ensures
            res.wf(),
    {
        let mut context = ContextKeysInitContext::empty();
        Self::insert_path(&mut context);
        Self::insert_tandem_arrays_length(&mut context);
        Self::insert_activity_level(&mut context);
        Self::insert_narrow_activities(&mut context);
        Self::insert_event_name(&mut context);
        Self::insert_regex(&mut context);
        Self::insert_patterns_discovery_strategy(&mut context);
        Self::insert_output_string(&mut context);
        Self::insert_event_log_info(&mut context);
        Self::insert_underlying_events_count(&mut context);
        Self::insert_events_count(&mut context);
        Self::insert_event_classes_regexes(&mut context);
        Self::insert_adjusting_mode(&mut context);
        Self::insert_event_class_regex(&mut context);
        Self::insert_patterns_kind(&mut context);
        Self::insert_pipeline(&mut context);
        Self::insert_min_activity_length(&mut context);
        Self::insert_undef_activity_handling_strategy(&mut context);
        Self::insert_activity_in_filter_kind(&mut context);
        Self::insert_activities_logs_source(&mut context);
        Self::insert_pnml_use_names_as_ids(&mut context);
        Self::insert_dependency_threshold(&mut context);
        Self::insert_positive_observations_threshold(&mut context);
        Self::insert_relative_to_best_threshold(&mut context);
        Self::insert_and_threshold(&mut context);
        Self::insert_loop_length_two_threshold(&mut context);
        Self::insert_unary_frequency_threshold(&mut context);
        Self::insert_binary_significance_threshold(&mut context);
        Self::insert_preserve_threshold(&mut context);
        Self::insert_ratio_threshold(&mut context);
        Self::insert_utility_rate(&mut context);
        Self::insert_edge_cutoff_threshold(&mut context);
        Self::insert_node_cutoff_threshold(&mut context);
        Self::insert_event_log(&mut context);
        Self::insert_activities(&mut context);
        Self::insert_repeat_sets(&mut context);
        Self::insert_trace_activities(&mut context);
        Self::insert_patterns(&mut context);
        Self::insert_petri_net(&mut context);
        Self::insert_activities_to_logs(&mut context);
        Self::insert_activity_name(&mut context);
        Self::insert_hashes_event_log(&mut context);
        Self::insert_names_event_log(&mut context);
        Self::insert_colors_event_log(&mut context);
        Self::insert_colors_holder(&mut context);
        Self::insert_graph(&mut context);
        Self::insert_petri_net_frequency_annotation(&mut context);
        Self::insert_petri_net_count_annotation(&mut context);
        Self::insert_petri_net_trace_frequency_annotation(&mut context);
        Self::insert_terminate_on_unreplayable_traces(&mut context);
        Self::insert_clusters_count(&mut context);
        Self::insert_learning_iterations_count(&mut context);
        Self::insert_tolerance(&mut context);
        Self::insert_min_clusters_count(&mut context);
        Self::insert_traces_activities_dataset(&mut context);
        Self::insert_labeled_traces_activities(&mut context);
        Self::insert_obtain_activities_repr_from_traces(&mut context);
        Self::insert_distance(&mut context);
        Self::insert_execute_only_on_last_extraction(&mut context);
        Self::insert_event_log_name(&mut context);
        Self::insert_log_traces_dataset(&mut context);
        Self::insert_labeled_log_traces_dataset(&mut context);
        Self::insert_traces_repr_source(&mut context);
        let (concrete_keys, context_keys) = context.deconstruct();
        assert(standard_keys().take(CONTEXT_KEYS_COUNT as int) =~= standard_keys());
        Self { concrete_keys, context_keys }
    }

    fn insert_path(context: &mut ContextKeysInitContext)
        requires
            old(context).registered_prefix(0),
        ensures
            final(context).registered_prefix(1),
    {
        Self::insert_key(context, ContextKeyKind::Path);
    }

    fn insert_tandem_arrays_length(context: &mut ContextKeysInitContext)
        requires
            old(context).registered_prefix(1),
        ensures
            final(context).registered_prefix(2),
    {
        Self::insert_key(context, ContextKeyKind::TandemArrayLength);
    }

    fn insert_activity_level(context: &mut ContextKeysInitContext)
        requires
            old(context).registered_prefix(2),
        ensures
            final(context).registered_prefix(3),
    {
        Self::insert_key(context, ContextKeyKind::ActivityLevel);
    }

    fn insert_narrow_activities(context: &mut ContextKeysInitContext)
        requires
            old(context).registered_prefix(3),
        ensures
            final(context).registered_prefix(4),
    {
        Self::insert_key(context, ContextKeyKind::NarrowActivities);
    }

    fn insert_event_name(context: &mut ContextKeysInitContext)
        requires
            old(context).registered_prefix(4),
        ensures
            final(context).registered_prefix(5),
    {
        Self::insert_key(context, ContextKeyKind::EventName);
    }

    fn insert_regex(context: &mut ContextKeysInitContext)
        requires
            old(context).registered_prefix(5),
        ensures
            final(context).registered_prefix(6),
    {
        Self::insert_key(context, ContextKeyKind::Regex);
    }

    fn insert_patterns_discovery_strategy(context: &mut ContextKeysInitContext)
        requires
            old(context).registered_prefix(6),
        ensures
            final(context).registered_prefix(7),
    {
        Self::insert_key(context, ContextKeyKind::PatternsDiscoveryStrategy);
    }

    fn insert_output_string(context: &mut ContextKeysInitContext)
        requires
            old(context).registered_prefix(7),
        ensures
            final(context).registered_prefix(8),
    {
        Self::insert_key(context, ContextKeyKind::OutputString);
    }

    fn insert_event_log_info(context: &mut ContextKeysInitContext)
        requires
            old(context).registered_prefix(8),
        ensures
            final(context).registered_prefix(9),
    {
        Self::insert_key(context, ContextKeyKind::EventLogInfo);
    }

    fn insert_underlying_events_count(context: &mut ContextKeysInitContext)
        requires
            old(context).registered_prefix(9),
        ensures
            final(context).registered_prefix(10),
    {
        Self::insert_key(context, ContextKeyKind::UnderlyingEventsCount);
    }

    fn insert_events_count(context: &mut ContextKeysInitContext)
        requires
            old(context).registered_prefix(10),
        ensures
            final(context).registered_prefix(11),
    {
        Self::insert_key(context, ContextKeyKind::EventsCount);
    }

    fn insert_event_classes_regexes(context: &mut ContextKeysInitContext)
        requires
            old(context).registered_prefix(11),
        ensures
            final(context).registered_prefix(12),
    {
        Self::insert_key(context, ContextKeyKind::EventClassesRegexes);
    }

    fn insert_adjusting_mode(context: &mut ContextKeysInitContext)
        requires
            old(context).registered_prefix(12),
        ensures
            final(context).registered_prefix(13),
    {
        Self::insert_key(context, ContextKeyKind::AdjustingMode);
    }

    fn insert_event_class_regex(context: &mut ContextKeysInitContext)
        requires
            old(context).registered_prefix(13),
        ensures
            final(context).registered_prefix(14),
    {
        Self::insert_key(context, ContextKeyKind::EventClassRegex);
    }

    fn insert_patterns_kind(context: &mut ContextKeysInitContext)
        requires
            old(context).registered_prefix(14),
        ensures
            final(context).registered_prefix(15),
    {
        Self::insert_key(context, ContextKeyKind::PatternsKind);
    }

    fn insert_pipeline(context: &mut ContextKeysInitContext)
        requires
            old(context).registered_prefix(15),
        ensures
            final(context).registered_prefix(16),
    {
        Self::insert_key(context, ContextKeyKind::Pipeline);
    }

    fn insert_min_activity_length(context: &mut ContextKeysInitContext)
        requires
            old(context).registered_prefix(16),
        ensures
            final(context).registered_prefix(17),
    {
        Self::insert_key(context, ContextKeyKind::MinActivityLength);
    }

    fn insert_undef_activity_handling_strategy(context: &mut ContextKeysInitContext)
        requires
            old(context).registered_prefix(17),
        ensures
            final(context).registered_prefix(18),
    {
        Self::insert_key(context, ContextKeyKind::UndefActivityHandlingStrategy);
    }

    fn insert_activity_in_filter_kind(context: &mut ContextKeysInitContext)
        requires
            old(context).registered_prefix(18),
        ensures
            final(context).registered_prefix(19),
    {
        Self::insert_key(context, ContextKeyKind::ActivityInTraceFilterKind);
    }

    fn insert_activities_logs_source(context: &mut ContextKeysInitContext)
        requires
            old(context).registered_prefix(19),
        ensures
            final(context).registered_prefix(20),
    {
        Self::insert_key(context, ContextKeyKind::ActivitiesLogsSource);
    }

    fn insert_pnml_use_names_as_ids(context: &mut ContextKeysInitContext)
        requires
            old(context).registered_prefix(20),
        ensures
            final(context).registered_prefix(21),
    {
        Self::insert_key(context, ContextKeyKind::PnmlUseNamesAsIds);
    }

    fn insert_dependency_threshold(context: &mut ContextKeysInitContext)
        requires
            old(context).registered_prefix(21),
        ensures
            final(context).registered_prefix(22),
    {
        Self::insert_key(context, ContextKeyKind::DependencyThreshold);
    }

    fn insert_positive_observations_threshold(context: &mut ContextKeysInitContext)
        requires
            old(context).registered_prefix(22),
        ensures
            final(context).registered_prefix(23),
    {
        Self::insert_key(context, ContextKeyKind::PositiveObservationsThreshold);
    }

    fn insert_relative_to_best_threshold(context: &mut ContextKeysInitContext)
        requires
            old(context).registered_prefix(23),
        ensures
            final(context).registered_prefix(24),
    {
        Self::insert_key(context, ContextKeyKind::RelativeToBestThreshold);
    }

    fn insert_and_threshold(context: &mut ContextKeysInitContext)
        requires
            old(context).registered_prefix(24),
        ensures
            final(context).registered_prefix(25),
    {
        Self::insert_key(context, ContextKeyKind::AndThreshold);
    }

    fn insert_loop_length_two_threshold(context: &mut ContextKeysInitContext)
        requires
            old(context).registered_prefix(25),
        ensures
            final(context).registered_prefix(26),
    {
        Self::insert_key(context, ContextKeyKind::LoopLengthTwoThreshold);
    }

    fn insert_unary_frequency_threshold(context: &mut ContextKeysInitContext)
        requires
            old(context).registered_prefix(26),
        ensures
            final(context).registered_prefix(27),
    {
        Self::insert_key(context, ContextKeyKind::UnaryFrequencyThreshold);
    }

    fn insert_binary_significance_threshold(context: &mut ContextKeysInitContext)
        requires
            old(context).registered_prefix(27),
        ensures
            final(context).registered_prefix(28),
    {
        Self::insert_key(context, ContextKeyKind::BinaryFrequencySignificanceThreshold);
    }

    fn insert_preserve_threshold(context: &mut ContextKeysInitContext)
        requires
            old(context).registered_prefix(28),
        ensures
            final(context).registered_prefix(29),
    {
        Self::insert_key(context, ContextKeyKind::PreserveThreshold);
    }

    fn insert_ratio_threshold(context: &mut ContextKeysInitContext)
        requires
            old(context).registered_prefix(29),
        ensures
            final(context).registered_prefix(30),
    {
        Self::insert_key(context, ContextKeyKind::RatioThreshold);
    }

    fn insert_utility_rate(context: &mut ContextKeysInitContext)
        requires
            old(context).registered_prefix(30),
        ensures
            final(context).registered_prefix(31),
    {
        Self::insert_key(context, ContextKeyKind::UtilityRate);
    }

    fn insert_edge_cutoff_threshold(context: &mut ContextKeysInitContext)
        requires
            old(context).registered_prefix(31),
        ensures
            final(context).registered_prefix(32),
    {
        Self::insert_key(context, ContextKeyKind::EdgeCutoffThreshold);
    }

    fn insert_node_cutoff_threshold(context: &mut ContextKeysInitContext)
        requires
            old(context).registered_prefix(32),
        ensures
            final(context).registered_prefix(33),
    {
        Self::insert_key(context, ContextKeyKind::NodeCutoffThreshold);
    }

    fn insert_event_log(context: &mut ContextKeysInitContext)
        requires
            old(context).registered_prefix(33),
        ensures
            final(context).registered_prefix(34),
    {
        Self::insert_key(context, ContextKeyKind::EventLog);
    }

    fn insert_activities(context: &mut ContextKeysInitContext)
        requires
            old(context).registered_prefix(34),
        ensures
            final(context).registered_prefix(35),
    {
        Self::insert_key(context, ContextKeyKind::Activities);
    }

    fn insert_repeat_sets(context: &mut ContextKeysInitContext)
        requires
            old(context).registered_prefix(35),
        ensures
            final(context).registered_prefix(36),
    {
        Self::insert_key(context, ContextKeyKind::RepeatSets);
    }

    fn insert_trace_activities(context: &mut ContextKeysInitContext)
        requires
            old(context).registered_prefix(36),
        ensures
            final(context).registered_prefix(37),
    {
        Self::insert_key(context, ContextKeyKind::TraceActivities);
    }

    fn insert_patterns(context: &mut ContextKeysInitContext)
        requires
            old(context).registered_prefix(37),
        ensures
            final(context).registered_prefix(38),
    {
        Self::insert_key(context, ContextKeyKind::Patterns);
    }

    fn insert_petri_net(context: &mut ContextKeysInitContext)
        requires
            old(context).registered_prefix(38),
        ensures
            final(context).registered_prefix(39),
    {
        Self::insert_key(context, ContextKeyKind::PetriNet);
    }

    fn insert_activities_to_logs(context: &mut ContextKeysInitContext)
        requires
            old(context).registered_prefix(39),
        ensures
            final(context).registered_prefix(40),
    {
        Self::insert_key(context, ContextKeyKind::ActivitiesToLogs);
    }

    fn insert_activity_name(context: &mut ContextKeysInitContext)
        requires
            old(context).registered_prefix(40),
        ensures
            final(context).registered_prefix(41),
    {
        Self::insert_key(context, ContextKeyKind::ActivityName);
    }

    fn insert_hashes_event_log(context: &mut ContextKeysInitContext)
        requires
            old(context).registered_prefix(41),
        ensures
            final(context).registered_prefix(42),
    {
        Self::insert_key(context, ContextKeyKind::HashesEventLog);
    }

    fn insert_names_event_log(context: &mut ContextKeysInitContext)
        requires
            old(context).registered_prefix(42),
        ensures
            final(context).registered_prefix(43),
    {
        Self::insert_key(context, ContextKeyKind::NamesEventLog);
    }

    fn insert_colors_event_log(context: &mut ContextKeysInitContext)
        requires
            old(context).registered_prefix(43),
        ensures
            final(context).registered_prefix(44),
    {
        Self::insert_key(context, ContextKeyKind::ColorsEventLog);
    }

    fn insert_colors_holder(context: &mut ContextKeysInitContext)
        requires
            old(context).registered_prefix(44),
        ensures
            final(context).registered_prefix(45),
    {
        Self::insert_key(context, ContextKeyKind::ColorsHolder);
    }

    fn insert_graph(context: &mut ContextKeysInitContext)
        requires
            old(context).registered_prefix(45),
        ensures
            final(context).registered_prefix(46),
    {
        Self::insert_key(context, ContextKeyKind::Graph);
    }

    fn insert_petri_net_frequency_annotation(context: &mut ContextKeysInitContext)
        requires
            old(context).registered_prefix(46),
        ensures
            final(context).registered_prefix(47),
    {
        Self::insert_key(context, ContextKeyKind::PetriNetFrequencyAnnotation);
    }

    fn insert_petri_net_count_annotation(context: &mut ContextKeysInitContext)
        requires
            old(context).registered_prefix(47),
        ensures
            final(context).registered_prefix(48),
    {
        Self::insert_key(context, ContextKeyKind::PetriNetCountAnnotation);
    }

    fn insert_petri_net_trace_frequency_annotation(context: &mut ContextKeysInitContext)
        requires
            old(context).registered_prefix(48),
        ensures
            final(context).registered_prefix(49),
    {
        Self::insert_key(context, ContextKeyKind::PetriNetTraceFrequencyAnnotation);
    }

    fn insert_terminate_on_unreplayable_traces(context: &mut ContextKeysInitContext)
        requires
            old(context).registered_prefix(49),
        ensures
            final(context).registered_prefix(50),
    {
        Self::insert_key(context, ContextKeyKind::TerminateOnUnreplayableTraces);
    }

    fn insert_clusters_count(context: &mut ContextKeysInitContext)
        requires
            old(context).registered_prefix(50),
        ensures
            final(context).registered_prefix(51),
    {
        Self::insert_key(context, ContextKeyKind::ClustersCount);
    }

    fn insert_learning_iterations_count(context: &mut ContextKeysInitContext)
        requires
            old(context).registered_prefix(51),
        ensures
            final(context).registered_prefix(52),
    {
        Self::insert_key(context, ContextKeyKind::LearningIterationsCount);
    }

    fn insert_tolerance(context: &mut ContextKeysInitContext)
        requires
            old(context).registered_prefix(52),
        ensures
            final(context).registered_prefix(53),
    {
        Self::insert_key(context, ContextKeyKind::Tolerance);
    }

    fn insert_min_clusters_count(context: &mut ContextKeysInitContext)
        requires
            old(context).registered_prefix(53),
        ensures
            final(context).registered_prefix(54),
    {
        Self::insert_key(context, ContextKeyKind::MinEventsInClustersCount);
    }

    fn insert_traces_activities_dataset(context: &mut ContextKeysInitContext)
        requires
            old(context).registered_prefix(54),
        ensures
            final(context).registered_prefix(55),
    {
        Self::insert_key(context, ContextKeyKind::TracesActivitiesDataset);
    }

    fn insert_labeled_traces_activities(context: &mut ContextKeysInitContext)
        requires
            old(context).registered_prefix(55),
        ensures
            final(context).registered_prefix(56),
    {
        Self::insert_key(context, ContextKeyKind::LabeledTracesActivitiesDataset);
    }

    fn insert_obtain_activities_repr_from_traces(context: &mut ContextKeysInitContext)
        requires
            old(context).registered_prefix(56),
        ensures
            final(context).registered_prefix(57),
    {
        Self::insert_key(context, ContextKeyKind::ActivitiesReprSource);
    }

    fn insert_distance(context: &mut ContextKeysInitContext)
        requires
            old(context).registered_prefix(57),
        ensures
            final(context).registered_prefix(58),
    {
        Self::insert_key(context, ContextKeyKind::Distance);
    }

    fn insert_execute_only_on_last_extraction(context: &mut ContextKeysInitContext)
        requires
            old(context).registered_prefix(58),
        ensures
            final(context).registered_prefix(59),
    {
        Self::insert_key(context, ContextKeyKind::ExecuteOnlyOnLastExtraction);
    }

    fn insert_event_log_name(context: &mut ContextKeysInitContext)
        requires
            old(context).registered_prefix(59),
        ensures
            final(context).registered_prefix(60),
    {
        Self::insert_key(context, ContextKeyKind::EventLogName);
    }

    fn insert_log_traces_dataset(context: &mut ContextKeysInitContext)
        requires
            old(context).registered_prefix(60),
        ensures
            final(context).registered_prefix(61),
    {
        Self::insert_key(context, ContextKeyKind::LogTracesDataset);
    }

    fn insert_labeled_log_traces_dataset(context: &mut ContextKeysInitContext)
        requires
            old(context).registered_prefix(61),
        ensures
            final(context).registered_prefix(62),
    {
        Self::insert_key(context, ContextKeyKind::LabeledLogTracesDataset);
    }

    fn insert_traces_repr_source(context: &mut ContextKeysInitContext)
        requires
            old(context).registered_prefix(62),
        ensures
            final(context).registered_prefix(63),
    {
        Self::insert_key(context, ContextKeyKind::TracesReprSource);
    }

    pub fn path(&self) -> (res: &DefaultContextKey)
        requires
            self.wf(),
        ensures
            res.kind == ContextKeyKind::Path,
            res.id == 0,
            res.spec_name() == Self::PATH@,
            *res == self@[0],
    {
        self.key_at(0)
    }

    pub fn is_path(&self, key: &DefaultContextKey) -> (res: bool)
        requires
            self.wf(),
        ensures
            res == (key.id == 0),
    {
        Self::are_keys_equal(key, self.path())
    }

    pub fn tandem_array_length(&self) -> (res: &DefaultContextKey)
        requires
            self.wf(),
        ensures
            res.kind == ContextKeyKind::TandemArrayLength,
            res.id == 1,
            res.spec_name() == Self::TANDEM_ARRAY_LENGTH@,
            *res == self@[1],
    {
        self.key_at(1)
    }

    pub fn is_tandem_array_length(&self, key: &DefaultContextKey) -> (res: bool)
        requires
            self.wf(),
        ensures
            res == (key.id == 1),
    {
        Self::are_keys_equal(key, self.tandem_array_length())
    }

    pub fn activity_level(&self) -> (res: &DefaultContextKey)
        requires
            self.wf(),
        ensures
            res.kind == ContextKeyKind::ActivityLevel,
            res.id == 2,
            res.spec_name() == Self::ACTIVITY_LEVEL@,
            *res == self@[2],
    {
        self.key_at(2)
    }

    pub fn is_activity_level(&self, key: &DefaultContextKey) -> (res: bool)
        requires
            self.wf(),
        ensures
            res == (key.id == 2),
    {
        Self::are_keys_equal(key, self.activity_level())
    }

    pub fn narrow_activities(&self) -> (res: &DefaultContextKey)
        requires
            self.wf(),
        ensures
            res.kind == ContextKeyKind::NarrowActivities,
            res.id == 3,
            res.spec_name() == Self::NARROW_ACTIVITIES@,
            *res == self@[3],
    {
        self.key_at(3)
    }

    pub fn is_narrow_activities(&self, key: &DefaultContextKey) -> (res: bool)
        requires
            self.wf(),
        ensures
            res == (key.id == 3),
    {
        Self::are_keys_equal(key, self.narrow_activities())
    }

    pub fn event_name(&self) -> (res: &DefaultContextKey)
        requires
            self.wf(),
        ensures
            res.kind == ContextKeyKind::EventName,
            res.id == 4,
            res.spec_name() == Self::EVENT_NAME@,
            *res == self@[4],
    {
        self.key_at(4)
    }

    pub fn is_event_name(&self, key: &DefaultContextKey) -> (res: bool)
        requires
            self.wf(),
        ensures
            res == (key.id == 4),
    {
        Self::are_keys_equal(key, self.event_name())
    }

    pub fn regex(&self) -> (res: &DefaultContextKey)
        requires
            self.wf(),
        ensures
            res.kind == ContextKeyKind::Regex,
            res.id == 5,
            res.spec_name() == Self::REGEX@,
            *res == self@[5],
    {
        self.key_at(5)
    }

    pub fn is_regex(&self, key: &DefaultContextKey) -> (res: bool)
        requires
            self.wf(),
        ensures
            res == (key.id == 5),
    {
        Self::are_keys_equal(key, self.regex())
    }

    pub fn patterns_discovery_strategy(&self) -> (res: &DefaultContextKey)
        requires
            self.wf(),
        ensures
            res.kind == ContextKeyKind::PatternsDiscoveryStrategy,
            res.id == 6,
            res.spec_name() == Self::PATTERNS_DISCOVERY_STRATEGY@,
            *res == self@[6],
    {
        self.key_at(6)
    }

    pub fn is_patterns_discovery_strategy(&self, key: &DefaultContextKey) -> (res: bool)
        requires
            self.wf(),
        ensures
            res == (key.id == 6),
    {
        Self::are_keys_equal(key, self.patterns_discovery_strategy())
    }

    pub fn output_string(&self) -> (res: &DefaultContextKey)
        requires
            self.wf(),
        ensures
            res.kind == ContextKeyKind::OutputString,
            res.id == 7,
            res.spec_name() == Self::OUTPUT_STRING@,
            *res == self@[7],
    {
        self.key_at(7)
    }

    pub fn is_output_string(&self, key: &DefaultContextKey) -> (res: bool)
        requires
            self.wf(),
        ensures
            res == (key.id == 7),
    {
        Self::are_keys_equal(key, self.output_string())
    }

    pub fn event_log_info(&self) -> (res: &DefaultContextKey)
        requires
            self.wf(),
        ensures
            res.kind == ContextKeyKind::EventLogInfo,
            res.id == 8,
            res.spec_name() == Self::EVENT_LOG_INFO@,
            *res == self@[8],
    {
        self.key_at(8)
    }

    pub fn is_event_log_info(&self, key: &DefaultContextKey) -> (res: bool)
        requires
            self.wf(),
        ensures
            res == (key.id == 8),
    {
        Self::are_keys_equal(key, self.event_log_info())
    }

    pub fn underlying_events_count(&self) -> (res: &DefaultContextKey)
        requires
            self.wf(),
        ensures
            res.kind == ContextKeyKind::UnderlyingEventsCount,
            res.id == 9,
            res.spec_name() == Self::UNDERLYING_EVENTS_COUNT@,
            *res == self@[9],
    {
        self.key_at(9)
    }

    pub fn is_underlying_events_count(&self, key: &DefaultContextKey) -> (res: bool)
        requires
            self.wf(),
        ensures
            res == (key.id == 9),
    {
        Self::are_keys_equal(key, self.underlying_events_count())
    }

    pub fn events_count(&self) -> (res: &DefaultContextKey)
        requires
            self.wf(),
        ensures
            res.kind == ContextKeyKind::EventsCount,
            res.id == 10,
            res.spec_name() == Self::EVENTS_COUNT@,
            *res == self@[10],
    {
        self.key_at(10)
    }

    pub fn is_events_count(&self, key: &DefaultContextKey) -> (res: bool)
        requires
            self.wf(),
        ensures
            res == (key.id == 10),
    {
        Self::are_keys_equal(key, self.events_count())
    }

    pub fn event_classes_regexes(&self) -> (res: &DefaultContextKey)
        requires
            self.wf(),
        ensures
            res.kind == ContextKeyKind::EventClassesRegexes,
            res.id == 11,
            res.spec_name() == Self::EVENT_CLASSES_REGEXES@,
            *res == self@[11],
    {
        self.key_at(11)
    }

    pub fn is_event_classes_regexes(&self, key: &DefaultContextKey) -> (res: bool)
        requires
            self.wf(),
        ensures
            res == (key.id == 11),
    {
        Self::are_keys_equal(key, self.event_classes_regexes())
    }

    pub fn adjusting_mode(&self) -> (res: &DefaultContextKey)
        requires
            self.wf(),
        ensures
            res.kind == ContextKeyKind::AdjustingMode,
            res.id == 12,
            res.spec_name() == Self::ADJUSTING_MODE@,
            *res == self@[12],
    {
        self.key_at(12)
    }

    pub fn is_adjusting_mode(&self, key: &DefaultContextKey) -> (res: bool)
        requires
            self.wf(),
        ensures
            res == (key.id == 12),
    {
        Self::are_keys_equal(key, self.adjusting_mode())
    }

    pub fn event_class_regex(&self) -> (res: &DefaultContextKey)
        requires
            self.wf(),
        ensures
            res.kind == ContextKeyKind::EventClassRegex,
            res.id == 13,
            res.spec_name() == Self::EVENT_CLASS_REGEX@,
            *res == self@[13],
    {
        self.key_at(13)
    }

    pub fn is_vent_class_regex(&self, key: &DefaultContextKey) -> (res: bool)
        requires
            self.wf(),
        ensures
            res == (key.id == 13),
    {
        Self::are_keys_equal(key, self.event_class_regex())
    }

    pub fn patterns_kind(&self) -> (res: &DefaultContextKey)
        requires
            self.wf(),
        ensures
            res.kind == ContextKeyKind::PatternsKind,
            res.id == 14,
            res.spec_name() == Self::PATTERNS_KIND@,
            *res == self@[14],
    {
        self.key_at(14)
    }

    pub fn is_patterns_kind(&self, key: &DefaultContextKey) -> (res: bool)
        requires
            self.wf(),
        ensures
            res == (key.id == 14),
    {
        Self::are_keys_equal(key, self.patterns_kind())
    }

    pub fn pipeline(&self) -> (res: &DefaultContextKey)
        requires
            self.wf(),
        ensures
            res.kind == ContextKeyKind::Pipeline,
            res.id == 15,
            res.spec_name() == Self::PIPELINE@,
            *res == self@[15],
    {
        self.key_at(15)
    }

    pub fn is_pipeline(&self, key: &DefaultContextKey) -> (res: bool)
        requires
            self.wf(),
        ensures
            res == (key.id == 15),
    {
        Self::are_keys_equal(key, self.pipeline())
    }

    pub fn min_activity_length(&self) -> (res: &DefaultContextKey)
        requires
            self.wf(),
        ensures
            res.kind == ContextKeyKind::MinActivityLength,
            res.id == 16,
            res.spec_name() == Self::MIN_ACTIVITY_LENGTH@,
            *res == self@[16],
    {
        self.key_at(16)
    }

    pub fn is_min_activity_length(&self, key: &DefaultContextKey) -> (res: bool)
        requires
            self.wf(),
        ensures
            res == (key.id == 16),
    {
        Self::are_keys_equal(key, self.min_activity_length())
    }

    pub fn undef_activity_handling_strategy(&self) -> (res: &DefaultContextKey)
        requires
            self.wf(),
        ensures
            res.kind == ContextKeyKind::UndefActivityHandlingStrategy,
            res.id == 17,
            res.spec_name() == Self::UNDEF_ACTIVITY_HANDLING_STRATEGY@,
            *res == self@[17],
    {
        self.key_at(17)
    }

    pub fn is_undef_activity_handling_strategy(&self, key: &DefaultContextKey) -> (res: bool)
        requires
            self.wf(),
        ensures
            res == (key.id == 17),
    {
        Self::are_keys_equal(key, self.undef_activity_handling_strategy())
    }

    pub fn activity_filter_kind(&self) -> (res: &DefaultContextKey)
        requires
            self.wf(),
        ensures
            res.kind == ContextKeyKind::ActivityInTraceFilterKind,
            res.id == 18,
            res.spec_name() == Self::ACTIVITY_IN_TRACE_FILTER_KIND@,
            *res == self@[18],
    {
        self.key_at(18)
    }

    pub fn is_activity_filter_kind(&self, key: &DefaultContextKey) -> (res: bool)
        requires
            self.wf(),
        ensures
            res == (key.id == 18),
    {
        Self::are_keys_equal(key, self.activity_filter_kind())
    }

    pub fn activities_logs_source(&self) -> (res: &DefaultContextKey)
        requires
            self.wf(),
        ensures
            res.kind == ContextKeyKind::ActivitiesLogsSource,
            res.id == 19,
            res.spec_name() == Self::ACTIVITIES_LOGS_SOURCE@,
            *res == self@[19],
    {
        self.key_at(19)
    }

    pub fn is_activities_logs_source(&self, key: &DefaultContextKey) -> (res: bool)
        requires
            self.wf(),
        ensures
            res == (key.id == 19),
    {
        Self::are_keys_equal(key, self.activities_logs_source())
    }

    pub fn pnml_use_names_as_ids(&self) -> (res: &DefaultContextKey)
        requires
            self.wf(),
        ensures
            res.kind == ContextKeyKind::PnmlUseNamesAsIds,
            res.id == 20,
            res.spec_name() == Self::PNML_USE_NAMES_AS_IDS@,
            *res == self@[20],
    {
        self.key_at(20)
    }

    pub fn is_pnml_use_names_as_ids(&self, key: &DefaultContextKey) -> (res: bool)
        requires
            self.wf(),
        ensures
            res == (key.id == 20),
    {
        Self::are_keys_equal(key, self.pnml_use_names_as_ids())
    }

    pub fn dependency_threshold(&self) -> (res: &DefaultContextKey)
        requires
            self.wf(),
        ensures
            res.kind == ContextKeyKind::DependencyThreshold,
            res.id == 21,
            res.spec_name() == Self::DEPENDENCY_THRESHOLD@,
            *res == self@[21],
    {
        self.key_at(21)
    }

    pub fn is_dependency_threshold(&self, key: &DefaultContextKey) -> (res: bool)
        requires
            self.wf(),
        ensures
            res == (key.id == 21),
    {
        Self::are_keys_equal(key, self.dependency_threshold())
    }

    pub fn positive_observations_threshold(&self) -> (res: &DefaultContextKey)
        requires
            self.wf(),
        ensures
            res.kind == ContextKeyKind::PositiveObservationsThreshold,
            res.id == 22,
            res.spec_name() == Self::POSITIVE_OBSERVATIONS_THRESHOLD@,
            *res == self@[22],
    {
        self.key_at(22)
    }

    pub fn is_positive_observations_threshold(&self, key: &DefaultContextKey) -> (res: bool)
        requires
            self.wf(),
        ensures
            res == (key.id == 22),
    {
        Self::are_keys_equal(key, self.positive_observations_threshold())
    }

    pub fn relative_to_best_threshold(&self) -> (res: &DefaultContextKey)
        requires
            self.wf(),
        ensures
            res.kind == ContextKeyKind::RelativeToBestThreshold,
            res.id == 23,
            res.spec_name() == Self::RELATIVE_TO_BEST_THRESHOLD@,
            *res == self@[23],
    {
        self.key_at(23)
    }

    pub fn is_relative_to_best_threshold(&self, key: &DefaultContextKey) -> (res: bool)
        requires
            self.wf(),
        ensures
            res == (key.id == 23),
    {
        Self::are_keys_equal(key, self.relative_to_best_threshold())
    }

    pub fn and_threshold(&self) -> (res: &DefaultContextKey)
        requires
            self.wf(),
        ensures
            res.kind == ContextKeyKind::AndThreshold,
            res.id == 24,
            res.spec_name() == Self::AND_THRESHOLD@,
            *res == self@[24],
    {
        self.key_at(24)
    }

    pub fn is_and_threshold(&self, key: &DefaultContextKey) -> (res: bool)
        requires
            self.wf(),
        ensures
            res == (key.id == 24),
    {
        Self::are_keys_equal(key, self.and_threshold())
    }

    pub fn loop_length_two_threshold(&self) -> (res: &DefaultContextKey)
        requires
            self.wf(),
        ensures
            res.kind == ContextKeyKind::LoopLengthTwoThreshold,
            res.id == 25,
            res.spec_name() == Self::LOOP_LENGTH_TWO_THRESHOLD@,
            *res == self@[25],
    {
        self.key_at(25)
    }

    pub fn is_loop_length_two_threshold(&self, key: &DefaultContextKey) -> (res: bool)
        requires
            self.wf(),
        ensures
            res == (key.id == 25),
    {
        Self::are_keys_equal(key, self.loop_length_two_threshold())
    }

    pub fn unary_frequency_threshold(&self) -> (res: &DefaultContextKey)
        requires
            self.wf(),
        ensures
            res.kind == ContextKeyKind::UnaryFrequencyThreshold,
            res.id == 26,
            res.spec_name() == Self::UNARY_FREQUENCY_THRESHOLD@,
            *res == self@[26],
    {
        self.key_at(26)
    }

    pub fn is_unary_frequency_threshold(&self, key: &DefaultContextKey) -> (res: bool)
        requires
            self.wf(),
        ensures
            res == (key.id == 26),
    {
        Self::are_keys_equal(key, self.unary_frequency_threshold())
    }

    pub fn binary_significance_threshold(&self) -> (res: &DefaultContextKey)
        requires
            self.wf(),
        ensures
            res.kind == ContextKeyKind::BinaryFrequencySignificanceThreshold,
            res.id == 27,
            res.spec_name() == Self::BINARY_FREQUENCY_SIGNIFICANCE_THRESHOLD@,
            *res == self@[27],
    {
        self.key_at(27)
    }

    pub fn is_binary_significance_threshold(&self, key: &DefaultContextKey) -> (res: bool)
        requires
            self.wf(),
        ensures
            res == (key.id == 27),
    {
        Self::are_keys_equal(key, self.binary_significance_threshold())
    }

    pub fn preserve_threshold(&self) -> (res: &DefaultContextKey)
        requires
            self.wf(),
        ensures
            res.kind == ContextKeyKind::PreserveThreshold,
            res.id == 28,
            res.spec_name() == Self::PRESERVE_THRESHOLD@,
            *res == self@[28],
    {
        self.key_at(28)
    }

    pub fn is_preserve_threshold(&self, key: &DefaultContextKey) -> (res: bool)
        requires
            self.wf(),
        ensures
            res == (key.id == 28),
    {
        Self::are_keys_equal(key, self.preserve_threshold())
    }

    pub fn ratio_threshold(&self) -> (res: &DefaultContextKey)
        requires
            self.wf(),
        ensures
            res.kind == ContextKeyKind::RatioThreshold,
            res.id == 29,
            res.spec_name() == Self::RATIO_THRESHOLD@,
            *res == self@[29],
    {
        self.key_at(29)
    }

    pub fn is_ratio_threshold(&self, key: &DefaultContextKey) -> (res: bool)
        requires
            self.wf(),
        ensures
            res == (key.id == 29),
    {
        Self::are_keys_equal(key, self.ratio_threshold())
    }

    pub fn utility_rate(&self) -> (res: &DefaultContextKey)
        requires
            self.wf(),
        ensures
            res.kind == ContextKeyKind::UtilityRate,
            res.id == 30,
            res.spec_name() == Self::UTILITY_RATE@,
            *res == self@[30],
    {
        self.key_at(30)
    }

    pub fn is_utility_rate(&self, key: &DefaultContextKey) -> (res: bool)
        requires
            self.wf(),
        ensures
            res == (key.id == 30),
    {
        Self::are_keys_equal(key, self.utility_rate())
    }

    pub fn edge_cutoff_threshold(&self) -> (res: &DefaultContextKey)
        requires
            self.wf(),
        ensures
            res.kind == ContextKeyKind::EdgeCutoffThreshold,
            res.id == 31,
            res.spec_name() == Self::EDGE_CUTOFF_THRESHOLD@,
            *res == self@[31],
    {
        self.key_at(31)
    }

    pub fn is_edge_cutoff_threshold(&self, key: &DefaultContextKey) -> (res: bool)
        requires
            self.wf(),
        ensures
            res == (key.id == 31),
    {
        Self::are_keys_equal(key, self.edge_cutoff_threshold())
    }

    pub fn node_cutoff_threshold(&self) -> (res: &DefaultContextKey)
        requires
            self.wf(),
        ensures
            res.kind == ContextKeyKind::NodeCutoffThreshold,
            res.id == 32,
            res.spec_name() == Self::NODE_CUTOFF_THRESHOLD@,
            *res == self@[32],
    {
        self.key_at(32)
    }

    pub fn is_node_cutoff_threshold(&self, key: &DefaultContextKey) -> (res: bool)
        requires
            self.wf(),
        ensures
            res == (key.id == 32),
    {
        Self::are_keys_equal(key, self.node_cutoff_threshold())
    }

    pub fn event_log(&self) -> (res: &DefaultContextKey)
        requires
            self.wf(),
        ensures
            res.kind == ContextKeyKind::EventLog,
            res.id == 33,
            res.spec_name() == Self::EVENT_LOG@,
            *res == self@[33],
    {
        self.key_at(33)
    }

    pub fn is_event_log(&self, key: &DefaultContextKey) -> (res: bool)
        requires
            self.wf(),
        ensures
            res == (key.id == 33),
    {
        Self::are_keys_equal(key, self.event_log())
    }

    pub fn activities(&self) -> (res: &DefaultContextKey)
        requires
            self.wf(),
        ensures
            res.kind == ContextKeyKind::Activities,
            res.id == 34,
            res.spec_name() == Self::ACTIVITIES@,
            *res == self@[34],
    {
        self.key_at(34)
    }

    pub fn is_activities(&self, key: &DefaultContextKey) -> (res: bool)
        requires
            self.wf(),
        ensures
            res == (key.id == 34),
    {
        Self::are_keys_equal(key, self.activities())
    }

    pub fn repeat_sets(&self) -> (res: &DefaultContextKey)
        requires
            self.wf(),
        ensures
            res.kind == ContextKeyKind::RepeatSets,
            res.id == 35,
            res.spec_name() == Self::REPEAT_SETS@,
            *res == self@[35],
    {
        self.key_at(35)
    }

    pub fn is_repeat_sets(&self, key: &DefaultContextKey) -> (res: bool)
        requires
            self.wf(),
        ensures
            res == (key.id == 35),
    {
        Self::are_keys_equal(key, self.repeat_sets())
    }

    pub fn trace_activities(&self) -> (res: &DefaultContextKey)
        requires
            self.wf(),
        ensures
            res.kind == ContextKeyKind::TraceActivities,
            res.id == 36,
            res.spec_name() == Self::TRACE_ACTIVITIES@,
            *res == self@[36],
    {
        self.key_at(36)
    }

    pub fn is_trace_activities(&self, key: &DefaultContextKey) -> (res: bool)
        requires
            self.wf(),
        ensures
            res == (key.id == 36),
    {
        Self::are_keys_equal(key, self.trace_activities())
    }

    pub fn patterns(&self) -> (res: &DefaultContextKey)
        requires
            self.wf(),
        ensures
            res.kind == ContextKeyKind::Patterns,
            res.id == 37,
            res.spec_name() == Self::PATTERNS@,
            *res == self@[37],
    {
        self.key_at(37)
    }

    pub fn is_patterns(&self, key: &DefaultContextKey) -> (res: bool)
        requires
            self.wf(),
        ensures
            res == (key.id == 37),
    {
        Self::are_keys_equal(key, self.patterns())
    }

    pub fn petri_net(&self) -> (res: &DefaultContextKey)
        requires
            self.wf(),
        ensures
            res.kind == ContextKeyKind::PetriNet,
            res.id == 38,
            res.spec_name() == Self::PETRI_NET@,
            *res == self@[38],
    {
        self.key_at(38)
    }

    pub fn is_petri_net(&self, key: &DefaultContextKey) -> (res: bool)
        requires
            self.wf(),
        ensures
            res == (key.id == 38),
    {
        Self::are_keys_equal(key, self.petri_net())
    }

    pub fn activities_to_logs(&self) -> (res: &DefaultContextKey)
        requires
            self.wf(),
        ensures
            res.kind == ContextKeyKind::ActivitiesToLogs,
            res.id == 39,
            res.spec_name() == Self::ACTIVITIES_TO_LOGS@,
            *res == self@[39],
    {
        self.key_at(39)
    }

    pub fn is_activities_to_logs(&self, key: &DefaultContextKey) -> (res: bool)
        requires
            self.wf(),
        ensures
            res == (key.id == 39),
    {
        Self::are_keys_equal(key, self.activities_to_logs())
    }

    pub fn activity_name(&self) -> (res: &DefaultContextKey)
        requires
            self.wf(),
        ensures
            res.kind == ContextKeyKind::ActivityName,
            res.id == 40,
            res.spec_name() == Self::ACTIVITY_NAME@,
            *res == self@[40],
    {
        self.key_at(40)
    }

    pub fn is_activity_name(&self, key: &DefaultContextKey) -> (res: bool)
        requires
            self.wf(),
        ensures
            res == (key.id == 40),
    {
        Self::are_keys_equal(key, self.activity_name())
    }

    pub fn hashes_event_log(&self) -> (res: &DefaultContextKey)
        requires
            self.wf(),
        ensures
            res.kind == ContextKeyKind::HashesEventLog,
            res.id == 41,
            res.spec_name() == Self::HASHES_EVENT_LOG@,
            *res == self@[41],
    {
        self.key_at(41)
    }

    pub fn is_hashes_event_log(&self, key: &DefaultContextKey) -> (res: bool)
        requires
            self.wf(),
        ensures
            res == (key.id == 41),
    {
        Self::are_keys_equal(key, self.hashes_event_log())
    }

    pub fn names_event_log(&self) -> (res: &DefaultContextKey)
        requires
            self.wf(),
        ensures
            res.kind == ContextKeyKind::NamesEventLog,
            res.id == 42,
            res.spec_name() == Self::NAMES_EVENT_LOG@,
            *res == self@[42],
    {
        self.key_at(42)
    }

    pub fn is_names_event_log(&self, key: &DefaultContextKey) -> (res: bool)
        requires
            self.wf(),
        ensures
            res == (key.id == 42),
    {
        Self::are_keys_equal(key, self.names_event_log())
    }

    pub fn colors_event_log(&self) -> (res: &DefaultContextKey)
        requires
            self.wf(),
        ensures
            res.kind == ContextKeyKind::ColorsEventLog,
            res.id == 43,
            res.spec_name() == Self::COLORS_EVENT_LOG@,
            *res == self@[43],
    {
        self.key_at(43)
    }

    pub fn is_colors_event_log(&self, key: &DefaultContextKey) -> (res: bool)
        requires
            self.wf(),
        ensures
            res == (key.id == 43),
    {
        Self::are_keys_equal(key, self.colors_event_log())
    }

    pub fn colors_holder(&self) -> (res: &DefaultContextKey)
        requires
            self.wf(),
        ensures
            res.kind == ContextKeyKind::ColorsHolder,
            res.id == 44,
            res.spec_name() == Self::COLORS_HOLDER@,
            *res == self@[44],
    {
        self.key_at(44)
    }

    pub fn is_colors_holder(&self, key: &DefaultContextKey) -> (res: bool)
        requires
            self.wf(),
        ensures
            res == (key.id == 44),
    {
        Self::are_keys_equal(key, self.colors_holder())
    }

    pub fn graph(&self) -> (res: &DefaultContextKey)
        requires
            self.wf(),
        ensures
            res.kind == ContextKeyKind::Graph,
            res.id == 45,
            res.spec_name() == Self::GRAPH@,
            *res == self@[45],
    {
        self.key_at(45)
    }

    pub fn is_graph(&self, key: &DefaultContextKey) -> (res: bool)
        requires
            self.wf(),
        ensures
            res == (key.id == 45),
    {
        Self::are_keys_equal(key, self.graph())
    }

    pub fn petri_net_frequency_annotation(&self) -> (res: &DefaultContextKey)
        requires
            self.wf(),
        ensures
            res.kind == ContextKeyKind::PetriNetFrequencyAnnotation,
            res.id == 46,
            res.spec_name() == Self::PETRI_NET_FREQUENCY_ANNOTATION@,
            *res == self@[46],
    {
        self.key_at(46)
    }

    pub fn is_petri_net_frequency_annotation(&self, key: &DefaultContextKey) -> (res: bool)
        requires
            self.wf(),
        ensures
            res == (key.id == 46),
    {
        Self::are_keys_equal(key, self.petri_net_frequency_annotation())
    }

    pub fn petri_net_count_annotation(&self) -> (res: &DefaultContextKey)
        requires
            self.wf(),
        ensures
            res.kind == ContextKeyKind::PetriNetCountAnnotation,
            res.id == 47,
            res.spec_name() == Self::PETRI_NET_COUNT_ANNOTATION@,
            *res == self@[47],
    {
        self.key_at(47)
    }

    pub fn is_petri_net_count_annotation(&self, key: &DefaultContextKey) -> (res: bool)
        requires
            self.wf(),
        ensures
            res == (key.id == 47),
    {
        Self::are_keys_equal(key, self.petri_net_count_annotation())
    }

    pub fn petri_net_trace_frequency_annotation(&self) -> (res: &DefaultContextKey)
        requires
            self.wf(),
        ensures
            res.kind == ContextKeyKind::PetriNetTraceFrequencyAnnotation,
            res.id == 48,
            res.spec_name() == Self::PETRI_NET_TRACE_FREQUENCY_ANNOTATION@,
            *res == self@[48],
    {
        self.key_at(48)
    }

    pub fn is_petri_net_trace_frequency_annotation(&self, key: &DefaultContextKey) -> (res: bool)
        requires
            self.wf(),
        ensures
            res == (key.id == 48),
    {
        Self::are_keys_equal(key, self.petri_net_trace_frequency_annotation())
    }

    pub fn terminate_on_unreplayable_traces(&self) -> (res: &DefaultContextKey)
        requires
            self.wf(),
        ensures
            res.kind == ContextKeyKind::TerminateOnUnreplayableTraces,
            res.id == 49,
            res.spec_name() == Self::TERMINATE_ON_UNREPLAYABLE_TRACES@,
            *res == self@[49],
    {
        self.key_at(49)
    }

    pub fn is_terminate_on_unreplayable_traces(&self, key: &DefaultContextKey) -> (res: bool)
        requires
            self.wf(),
        ensures
            res == (key.id == 49),
    {
        Self::are_keys_equal(key, self.terminate_on_unreplayable_traces())
    }

    pub fn clusters_count(&self) -> (res: &DefaultContextKey)
        requires
            self.wf(),
        ensures
            res.kind == ContextKeyKind::ClustersCount,
            res.id == 50,
            res.spec_name() == Self::CLUSTERS_COUNT@,
            *res == self@[50],
    {
        self.key_at(50)
    }

    pub fn is_clusters_count(&self, key: &DefaultContextKey) -> (res: bool)
        requires
            self.wf(),
        ensures
            res == (key.id == 50),
    {
        Self::are_keys_equal(key, self.clusters_count())
    }

    pub fn learning_iterations_count(&self) -> (res: &DefaultContextKey)
        requires
            self.wf(),
        ensures
            res.kind == ContextKeyKind::LearningIterationsCount,
            res.id == 51,
            res.spec_name() == Self::LEARNING_ITERATIONS_COUNT@,
            *res == self@[51],
    {
        self.key_at(51)
    }

    pub fn is_learning_iterations_count(&self, key: &DefaultContextKey) -> (res: bool)
        requires
            self.wf(),
        ensures
            res == (key.id == 51),
    {
        Self::are_keys_equal(key, self.learning_iterations_count())
    }

    pub fn tolerance(&self) -> (res: &DefaultContextKey)
        requires
            self.wf(),
        ensures
            res.kind == ContextKeyKind::Tolerance,
            res.id == 52,
            res.spec_name() == Self::TOLERANCE@,
            *res == self@[52],
    {
        self.key_at(52)
    }

    pub fn is_tolerance(&self, key: &DefaultContextKey) -> (res: bool)
        requires
            self.wf(),
        ensures
            res == (key.id == 52),
    {
        Self::are_keys_equal(key, self.tolerance())
    }

    pub fn min_events_in_clusters_count(&self) -> (res: &DefaultContextKey)
        requires
            self.wf(),
        ensures
            res.kind == ContextKeyKind::MinEventsInClustersCount,
            res.id == 53,
            res.spec_name() == Self::MIN_EVENTS_IN_CLUSTERS_COUNT@,
            *res == self@[53],
    {
        self.key_at(53)
    }

    pub fn is_min_clusters_count(&self, key: &DefaultContextKey) -> (res: bool)
        requires
            self.wf(),
        ensures
            res == (key.id == 53),
    {
        Self::are_keys_equal(key, self.min_events_in_clusters_count())
    }

    pub fn traces_activities_dataset(&self) -> (res: &DefaultContextKey)
        requires
            self.wf(),
        ensures
            res.kind == ContextKeyKind::TracesActivitiesDataset,
            res.id == 54,
            res.spec_name() == Self::TRACES_ACTIVITIES_DATASET@,
            *res == self@[54],
    {
        self.key_at(54)
    }

    pub fn is_traces_activities_dataset(&self, key: &DefaultContextKey) -> (res: bool)
        requires
            self.wf(),
        ensures
            res == (key.id == 54),
    {
        Self::are_keys_equal(key, self.traces_activities_dataset())
    }

    pub fn labeled_traces_activities_dataset(&self) -> (res: &DefaultContextKey)
        requires
            self.wf(),
        ensures
            res.kind == ContextKeyKind::LabeledTracesActivitiesDataset,
            res.id == 55,
            res.spec_name() == Self::LABELED_TRACES_ACTIVITIES_DATASET@,
            *res == self@[55],
    {
        self.key_at(55)
    }

    pub fn is_labeled_traces_activities_dataset(&self, key: &DefaultContextKey) -> (res: bool)
        requires
            self.wf(),
        ensures
            res == (key.id == 55),
    {
        Self::are_keys_equal(key, self.labeled_traces_activities_dataset())
    }

    pub fn activities_repr_source(&self) -> (res: &DefaultContextKey)
        requires
            self.wf(),
        ensures
            res.kind == ContextKeyKind::ActivitiesReprSource,
            res.id == 56,
            res.spec_name() == Self::ACTIVITIES_REPR_SOURCE@,
            *res == self@[56],
    {
        self.key_at(56)
    }

    pub fn is_activities_repr_source(&self, key: &DefaultContextKey) -> (res: bool)
        requires
            self.wf(),
        ensures
            res == (key.id == 56),
    {
        Self::are_keys_equal(key, self.activities_repr_source())
    }

    pub fn distance(&self) -> (res: &DefaultContextKey)
        requires
            self.wf(),
        ensures
            res.kind == ContextKeyKind::Distance,
            res.id == 57,
            res.spec_name() == Self::DISTANCE@,
            *res == self@[57],
    {
        self.key_at(57)
    }

    pub fn is_distance(&self, key: &DefaultContextKey) -> (res: bool)
        requires
            self.wf(),
        ensures
            res == (key.id == 57),
    {
        Self::are_keys_equal(key, self.distance())
    }

    pub fn execute_only_on_last_extraction(&self) -> (res: &DefaultContextKey)
        requires
            self.wf(),
        ensures
            res.kind == ContextKeyKind::ExecuteOnlyOnLastExtraction,
            res.id == 58,
            res.spec_name() == Self::EXECUTE_ONLY_ON_LAST_EXTRACTION@,
            *res == self@[58],
    {
        self.key_at(58)
    }

    pub fn is_execute_only_on_last_extraction(&self, key: &DefaultContextKey) -> (res: bool)
        requires
            self.wf(),
        ensures
            res == (key.id == 58),
    {
        Self::are_keys_equal(key, self.execute_only_on_last_extraction())
    }

    pub fn event_log_name(&self) -> (res: &DefaultContextKey)
        requires
            self.wf(),
        ensures
            res.kind == ContextKeyKind::EventLogName,
            res.id == 59,
            res.spec_name() == Self::EVENT_LOG_NAME@,
            *res == self@[59],
    {
        self.key_at(59)
    }

    pub fn is_event_log_name(&self, key: &DefaultContextKey) -> (res: bool)
        requires
            self.wf(),
        ensures
            res == (key.id == 59),
    {
        Self::are_keys_equal(key, self.event_log_name())
    }

    pub fn log_traces_dataset(&self) -> (res: &DefaultContextKey)
        requires
            self.wf(),
        ensures
            res.kind == ContextKeyKind::LogTracesDataset,
            res.id == 60,
            res.spec_name() == Self::LOG_TRACES_DATASET@,
            *res == self@[60],
    {
        self.key_at(60)
    }

    pub fn is_log_traces_dataset(&self, key: &DefaultContextKey) -> (res: bool)
        requires
            self.wf(),
        ensures
            res == (key.id == 60),
    {
        Self::are_keys_equal(key, self.log_traces_dataset())
    }

    pub fn labeled_log_traces_dataset(&self) -> (res: &DefaultContextKey)
        requires
            self.wf(),
        ensures
            res.kind == ContextKeyKind::LabeledLogTracesDataset,
            res.id == 61,
            res.spec_name() == Self::LABELED_LOG_TRACES_DATASET@,
            *res == self@[61],
    {
        self.key_at(61)
    }

    pub fn is_labeled_log_traces_dataset(&self, key: &DefaultContextKey) -> (res: bool)
        requires
            self.wf(),
        ensures
            res == (key.id == 61),
    {
        Self::are_keys_equal(key, self.labeled_log_traces_dataset())
    }

    pub fn traces_representation_source(&self) -> (res: &DefaultContextKey)
        requires
            self.wf(),
        ensures
            res.kind == ContextKeyKind::TracesReprSource,
            res.id == 62,
            res.spec_name() == Self::TRACES_REPR_SOURCE@,
            *res == self@[62],
    {
        self.key_at(62)
    }

    pub fn is_traces_representation_source(&self, key: &DefaultContextKey) -> (res: bool)
        requires
            self.wf(),
        ensures
            res == (key.id == 62),
    {
        Self::are_keys_equal(key, self.traces_representation_source())
    }

    /// The position of the first key of the kind, if any.
    fn index_of_kind(&self, kind: ContextKeyKind) -> (res: Option<usize>)
        ensures
            match res {
                Some(i) => i < self@.len() && self@[i as int].kind == kind
                    && forall|j: int| 0 <= j < i ==> self@[j].kind != kind,
                None => !has_kind(self@, kind),
            },
    {
        let mut i: usize = 0;
        while i < self.concrete_keys.len()
            invariant
                i <= self@.len(),
                self@ == self.concrete_keys@,
                forall|j: int| 0 <= j < i ==> self@[j].kind != kind,
            decreases self@.len() - i,
        {
            if self.concrete_keys[i].kind == kind {
                return Some(i);
            }
            i = i + 1;
        }
        None
    }

    /// The key of the system metadata. The registry that `new` makes holds
    /// no such key, so this asks for a registry that does.
    pub fn system_metadata(&self) -> (res: &DefaultContextKey)
        requires
            has_kind(self@, ContextKeyKind::SystemMetadata),
        ensures
            exists|i: int| 0 <= i < self@.len() && self@[i] == *res
                && forall|j: int| 0 <= j < i ==> self@[j].kind != ContextKeyKind::SystemMetadata,
            res.kind == ContextKeyKind::SystemMetadata,
            res.spec_name() == Self::SYSTEM_METADATA@,
    {
        match self.index_of_kind(ContextKeyKind::SystemMetadata) {
            Some(i) => &self.concrete_keys[i],
            None => {
                proof {
                    assert(false);
                }
                &self.concrete_keys[0]
            },
        }
    }

    pub fn is_system_metadata(&self, key: &DefaultContextKey) -> (res: bool)
        requires
            has_kind(self@, ContextKeyKind::SystemMetadata),
        ensures
            exists|i: int| 0 <= i < self@.len() && self@[i].kind == ContextKeyKind::SystemMetadata
                && (forall|j: int| 0 <= j < i ==> self@[j].kind != ContextKeyKind::SystemMetadata)
                && res == (key.id == self@[i].id),
    {
        Self::are_keys_equal(key, self.system_metadata())
    }

    /// The key of the log serialization format. The registry that `new` makes
    /// holds no such key, so this asks for a registry that does.
    pub fn log_serialization_format(&self) -> (res: &DefaultContextKey)
        requires
            has_kind(self@, ContextKeyKind::LogSerializationFormat),
        ensures
            exists|i: int| 0 <= i < self@.len() && self@[i] == *res
                && forall|j: int| 0 <= j < i ==> self@[j].kind != ContextKeyKind::LogSerializationFormat,
            res.kind == ContextKeyKind::LogSerializationFormat,
            res.spec_name() == Self::LOG_SERIALIZATION_FORMAT@,
    {
        match self.index_of_kind(ContextKeyKind::LogSerializationFormat) {
            Some(i) => &self.concrete_keys[i],
            None => {
                proof {
                    assert(false);
                }
                &self.concrete_keys[0]
            },
        }
    }

    pub fn is_log_serialization_format(&self, key: &DefaultContextKey) -> (res: bool)
        requires
            has_kind(self@, ContextKeyKind::LogSerializationFormat),
        ensures
            exists|i: int| 0 <= i < self@.len() && self@[i].kind == ContextKeyKind::LogSerializationFormat
                && (forall|j: int| 0 <= j < i ==> self@[j].kind != ContextKeyKind::LogSerializationFormat)
                && res == (key.id == self@[i].id),
    {
        Self::are_keys_equal(key, self.log_serialization_format())
    }

    /// The key of raw bytes. The registry that `new` makes holds no such key,
    /// so this asks for a registry that does.
    pub fn bytes(&self) -> (res: &DefaultContextKey)
        requires
            has_kind(self@, ContextKeyKind::Bytes),
        ensures
            exists|i: int| 0 <= i < self@.len() && self@[i] == *res
                && forall|j: int| 0 <= j < i ==> self@[j].kind != ContextKeyKind::Bytes,
            res.kind == ContextKeyKind::Bytes,
            res.spec_name() == Self::BYTES@,
    {
        match self.index_of_kind(ContextKeyKind::Bytes) {
            Some(i) => &self.concrete_keys[i],
            None => {
                proof {
                    assert(false);
                }
                &self.concrete_keys[0]
            },
        }
    }

    pub fn is_bytes(&self, key: &DefaultContextKey) -> (res: bool)
        requires
            has_kind(self@, ContextKeyKind::Bytes),
        ensures
            exists|i: int| 0 <= i < self@.len() && self@[i].kind == ContextKeyKind::Bytes
                && (forall|j: int| 0 <= j < i ==> self@[j].kind != ContextKeyKind::Bytes)
                && res == (key.id == self@[i].id),
    {
        Self::are_keys_equal(key, self.bytes())
    }

}

} // verus!