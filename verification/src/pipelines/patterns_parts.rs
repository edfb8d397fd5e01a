use vstd::prelude::*;

verus! {

/// The kinds of patterns that the pipeline parts look for in traces.
#[derive(Debug, Clone, Copy, PartialEq, Eq)]
pub enum PatternsKindDto {
    PrimitiveTandemArrays,
    MaximalTandemArrays,
    MaximalRepeats,
    SuperMaximalRepeats,
    NearSuperMaximalRepeats,
}

/// The name of the kind.
pub open spec fn patterns_kind_name(kind: PatternsKindDto) -> Seq<char> {
    match kind {
        PatternsKindDto::PrimitiveTandemArrays => "PrimitiveTandemArrays"@,
        PatternsKindDto::MaximalTandemArrays => "MaximalTandemArrays"@,
        PatternsKindDto::MaximalRepeats => "MaximalRepeats"@,
        PatternsKindDto::SuperMaximalRepeats => "SuperMaximalRepeats"@,
        PatternsKindDto::NearSuperMaximalRepeats => "NearSuperMaximalRepeats"@,
    }
}

/// No two kinds share a name.
pub proof fn lemma_patterns_kind_names_distinct(a: PatternsKindDto, b: PatternsKindDto)
    ensures
        patterns_kind_name(a) == patterns_kind_name(b) ==> a == b,
{
    reveal_strlit("PrimitiveTandemArrays");
    reveal_strlit("MaximalTandemArrays");
    reveal_strlit("MaximalRepeats");
    reveal_strlit("SuperMaximalRepeats");
    reveal_strlit("NearSuperMaximalRepeats");
    if patterns_kind_name(a) == patterns_kind_name(b) {
        assert(patterns_kind_name(a).len() == patterns_kind_name(b).len());
        assert(patterns_kind_name(a)[0] == patterns_kind_name(b)[0]);
    }
}

/// Whether the two strings have the same characters.
fn same_text(a: &str, b: &str) -> (res: bool)
    ensures
        res == (a@ == b@),
{
    a.to_owned() == b.to_owned()
}

impl PatternsKindDto {
    /// The kind with the given name; `Err` when no kind has it.
    pub fn from_str(s: &str) -> (res: Result<PatternsKindDto, ()>)
        ensures
            forall|kind: PatternsKindDto| (res == Ok::<PatternsKindDto, ()>(kind)) == (#[trigger] patterns_kind_name(kind) == s@),
            res is Err == forall|kind: PatternsKindDto| patterns_kind_name(kind) != s@,
    {
        let result = if same_text(s, "PrimitiveTandemArrays") {
            Ok(PatternsKindDto::PrimitiveTandemArrays)
        } else if same_text(s, "MaximalTandemArrays") {
            Ok(PatternsKindDto::MaximalTandemArrays)
        } else if same_text(s, "MaximalRepeats") {
            Ok(PatternsKindDto::MaximalRepeats)
        } else if same_text(s, "SuperMaximalRepeats") {
            Ok(PatternsKindDto::SuperMaximalRepeats)
        } else if same_text(s, "NearSuperMaximalRepeats") {
            Ok(PatternsKindDto::NearSuperMaximalRepeats)
        } else {
            Err(())
        };
        proof {
            match result {
                Ok(found) => {
                    assert(patterns_kind_name(found) == s@);
                    assert forall|kind: PatternsKindDto| patterns_kind_name(kind) == s@ implies kind == found by {
                        lemma_patterns_kind_names_distinct(kind, found);
                    }
                },
                Err(()) => {
                    assert forall|kind: PatternsKindDto| patterns_kind_name(kind) != s@ by {
                        match kind {
                            PatternsKindDto::PrimitiveTandemArrays => {},
                            PatternsKindDto::MaximalTandemArrays => {},
                            PatternsKindDto::MaximalRepeats => {},
                            PatternsKindDto::SuperMaximalRepeats => {},
                            PatternsKindDto::NearSuperMaximalRepeats => {},
                        }
                    }
                },
            }
        }
        result
    }
}

impl core::str::FromStr for PatternsKindDto {
    type Err = ();

    fn from_str(s: &str) -> (res: Result<PatternsKindDto, ()>)
        ensures
            forall|kind: PatternsKindDto| (res == Ok::<PatternsKindDto, ()>(kind)) == (#[trigger] patterns_kind_name(kind) == s@),
            res is Err == forall|kind: PatternsKindDto| patterns_kind_name(kind) != s@,
    {
        PatternsKindDto::from_str(s)
    }
}

} // verus!
