use vstd::prelude::*;

use crate::features::analysis::event_log_info::{contains_pair, pair_set, EventLogInfo};

verus! {

/// The ordering relations between event classes that the alpha miner works on.
pub trait AlphaRelationsProvider {
    /// `second` directly follows `first` somewhere.
    spec fn direct(&self, first: Seq<char>, second: Seq<char>) -> bool;

    /// `first` is a cause of `second`.
    spec fn causal(&self, first: Seq<char>, second: Seq<char>) -> bool;

    /// `first` and `second` run in parallel.
    spec fn parallel(&self, first: Seq<char>, second: Seq<char>) -> bool;

    /// `first` and `second` never follow one another.
    spec fn unrelated(&self, first: Seq<char>, second: Seq<char>) -> bool;

    /// The information of the log that the relations come from.
    spec fn info(&self) -> EventLogInfo;

    fn direct_relation(&self, first: &String, second: &String) -> (res: bool)
        ensures
            res == self.direct(first@, second@),
    ;

    fn causal_relation(&self, first: &String, second: &String) -> (res: bool)
        ensures
            res == self.causal(first@, second@),
    ;

    fn parallel_relation(&self, first: &String, second: &String) -> (res: bool)
        ensures
            res == self.parallel(first@, second@),
    ;

    fn unrelated_relation(&self, first: &String, second: &String) -> (res: bool)
        ensures
            res == self.unrelated(first@, second@),
    ;

    fn log_info(&self) -> (res: &EventLogInfo)
        ensures
            *res == self.info(),
            res.wf(),
    ;
}

/// The relations of the classic alpha algorithm, read off the
/// directly-follows pairs of a log.
pub struct DefaultAlphaRelationsProvider {
    info: EventLogInfo,
}

impl DefaultAlphaRelationsProvider {
    #[verifier::type_invariant]
    spec fn wf(&self) -> bool {
        self.info.wf()
    }

    pub fn new(info: EventLogInfo) -> (res: Self)
        requires
            info.wf(),
        ensures
            res.info() == info,
    {
        Self { info }
    }
}

impl AlphaRelationsProvider for DefaultAlphaRelationsProvider {
    open spec fn direct(&self, first: Seq<char>, second: Seq<char>) -> bool {
        pair_set(self.info().dfg@).contains((first, second))
    }

    open spec fn causal(&self, first: Seq<char>, second: Seq<char>) -> bool {
        self.direct(first, second) && !self.direct(second, first)
    }

    open spec fn parallel(&self, first: Seq<char>, second: Seq<char>) -> bool {
        self.direct(first, second) && self.direct(second, first)
    }

    open spec fn unrelated(&self, first: Seq<char>, second: Seq<char>) -> bool {
        !self.direct(first, second) && !self.direct(second, first)
    }

    closed spec fn info(&self) -> EventLogInfo {
        self.info
    }

    fn direct_relation(&self, first: &String, second: &String) -> (res: bool) {
        contains_pair(&self.info.dfg, first, second)
    }

    fn causal_relation(&self, first: &String, second: &String) -> (res: bool) {
        self.direct_relation(first, second) && !self.direct_relation(second, first)
    }

    fn parallel_relation(&self, first: &String, second: &String) -> (res: bool) {
        self.direct_relation(first, second) && self.direct_relation(second, first)
    }

    fn unrelated_relation(&self, first: &String, second: &String) -> (res: bool) {
        !self.direct_relation(first, second) && !self.direct_relation(second, first)
    }

    fn log_info(&self) -> (res: &EventLogInfo) {
        proof {
            use_type_invariant(self);
        }
        &self.info
    }
}

} // verus!
