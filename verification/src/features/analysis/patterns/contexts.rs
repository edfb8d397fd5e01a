use vstd::prelude::*;

verus! {

/// Where repeats and tandem arrays are searched for: in each trace, or in
/// one trace made of all of them.
#[derive(Debug, Clone, Copy, PartialEq, Eq)]
pub enum PatternsDiscoveryStrategy {
    FromAllTraces,
    FromSingleMergedTrace,
}

/// The name of the strategy.
pub open spec fn strategy_name(strategy: PatternsDiscoveryStrategy) -> Seq<char> {
    match strategy {
        PatternsDiscoveryStrategy::FromAllTraces => "FromAllTraces"@,
        PatternsDiscoveryStrategy::FromSingleMergedTrace => "FromSingleMergedTrace"@,
    }
}

/// The two strategies have different names.
pub proof fn lemma_strategy_names_distinct(a: PatternsDiscoveryStrategy, b: PatternsDiscoveryStrategy)
    ensures
        strategy_name(a) == strategy_name(b) ==> a == b,
{
    reveal_strlit("FromAllTraces");
    reveal_strlit("FromSingleMergedTrace");
    if strategy_name(a) == strategy_name(b) {
        assert(strategy_name(a).len() == strategy_name(b).len());
    }
}

/// Whether the two strings have the same characters.
fn same_text(a: &str, b: &str) -> (res: bool)
    ensures
        res == (a@ == b@),
{
    a.to_owned() == b.to_owned()
}

impl PatternsDiscoveryStrategy {
    /// The strategy with the given name; `Err` when no strategy has it.
    pub fn from_str(s: &str) -> (res: Result<PatternsDiscoveryStrategy, ()>)
        ensures
            forall|strategy: PatternsDiscoveryStrategy|
                (res == Ok::<PatternsDiscoveryStrategy, ()>(strategy)) == (#[trigger] strategy_name(strategy) == s@),
            res is Err == forall|strategy: PatternsDiscoveryStrategy| strategy_name(strategy) != s@,
    {
        let result = if same_text(s, "FromAllTraces") {
            Ok(PatternsDiscoveryStrategy::FromAllTraces)
        } else if same_text(s, "FromSingleMergedTrace") {
            Ok(PatternsDiscoveryStrategy::FromSingleMergedTrace)
        } else {
            Err(())
        };
        proof {
            match result {
                Ok(found) => {
                    assert(strategy_name(found) == s@);
                    assert forall|strategy: PatternsDiscoveryStrategy| strategy_name(strategy) == s@ implies strategy == found by {
                        lemma_strategy_names_distinct(strategy, found);
                    }
                },
                Err(()) => {
                    assert forall|strategy: PatternsDiscoveryStrategy| strategy_name(strategy) != s@ by {
                        match strategy {
                            PatternsDiscoveryStrategy::FromAllTraces => {},
                            PatternsDiscoveryStrategy::FromSingleMergedTrace => {},
                        }
                    }
                },
            }
        }
        result
    }
}

impl core::str::FromStr for PatternsDiscoveryStrategy {
    type Err = ();

    fn from_str(s: &str) -> (res: Result<PatternsDiscoveryStrategy, ()>)
        ensures
            forall|strategy: PatternsDiscoveryStrategy|
                (res == Ok::<PatternsDiscoveryStrategy, ()>(strategy)) == (#[trigger] strategy_name(strategy) == s@),
            res is Err == forall|strategy: PatternsDiscoveryStrategy| strategy_name(strategy) != s@,
    {
        PatternsDiscoveryStrategy::from_str(s)
    }
}

} // verus!
