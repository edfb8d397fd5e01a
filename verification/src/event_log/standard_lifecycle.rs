use vstd::prelude::*;

verus! {

/// The standard XES lifecycle transitions of an event.
#[derive(Debug, Clone, Copy, PartialEq, Eq, Hash)]
pub enum XesStandardLifecycle {
    Unspecified,
    Assign,
    AteAbort,
    Autoskip,
    Complete,
    ManualSkip,
    PiAbort,
    ReAssign,
    Resume,
    Schedule,
    Start,
    Suspend,
    Unknown,
    Withdraw,
}

pub const SCHEDULE: &'static str = "schedule";
pub const START: &'static str = "start";
pub const COMPLETE: &'static str = "complete";
pub const UNKNOWN: &'static str = "unknown";
pub const UNSPECIFIED: &'static str = "unspecified";
pub const ASSIGN: &'static str = "assign";
pub const ATE_ABORT: &'static str = "ate_abort";
pub const AUTOSKIP: &'static str = "autoskip";
pub const MANUAL_SKIP: &'static str = "manualskip";
pub const PI_ABORT: &'static str = "pi_abort";
pub const RE_ASSIGN: &'static str = "reassign";
pub const RESUME: &'static str = "resume";
pub const SUSPEND: &'static str = "suspend";
pub const WITHDRAW: &'static str = "withdraw";

/// The name that XES gives the transition.
pub open spec fn lifecycle_name(lifecycle: XesStandardLifecycle) -> Seq<char> {
    match lifecycle {
        XesStandardLifecycle::Unspecified => UNSPECIFIED@,
        XesStandardLifecycle::Assign => ASSIGN@,
        XesStandardLifecycle::AteAbort => ATE_ABORT@,
        XesStandardLifecycle::Autoskip => AUTOSKIP@,
        XesStandardLifecycle::Complete => COMPLETE@,
        XesStandardLifecycle::ManualSkip => MANUAL_SKIP@,
        XesStandardLifecycle::PiAbort => PI_ABORT@,
        XesStandardLifecycle::ReAssign => RE_ASSIGN@,
        XesStandardLifecycle::Resume => RESUME@,
        XesStandardLifecycle::Schedule => SCHEDULE@,
        XesStandardLifecycle::Start => START@,
        XesStandardLifecycle::Suspend => SUSPEND@,
        XesStandardLifecycle::Unknown => UNKNOWN@,
        XesStandardLifecycle::Withdraw => WITHDRAW@,
    }
}

/// No two transitions share a name.
pub proof fn lemma_lifecycle_names_distinct(a: XesStandardLifecycle, b: XesStandardLifecycle)
    ensures
        lifecycle_name(a) == lifecycle_name(b) ==> a == b,
{
    reveal_strlit("schedule");
    reveal_strlit("start");
    reveal_strlit("complete");
    reveal_strlit("unknown");
    reveal_strlit("unspecified");
    reveal_strlit("assign");
    reveal_strlit("ate_abort");
    reveal_strlit("autoskip");
    reveal_strlit("manualskip");
    reveal_strlit("pi_abort");
    reveal_strlit("reassign");
    reveal_strlit("resume");
    reveal_strlit("suspend");
    reveal_strlit("withdraw");
    if lifecycle_name(a) == lifecycle_name(b) {
        assert(lifecycle_name(a).len() == lifecycle_name(b).len());
        assert(lifecycle_name(a)[0] == lifecycle_name(b)[0]);
    }
}

/// Whether the two strings have the same characters.
pub(crate) fn same_text(a: &str, b: &str) -> (res: bool)
    ensures
        res == (a@ == b@),
{
    a.to_owned() == b.to_owned()
}

impl XesStandardLifecycle {
    /// The XES name of the transition.
    pub fn to_string(&self) -> (res: String)
        ensures
            res@ == lifecycle_name(*self),
    {
        let name = match self {
            XesStandardLifecycle::Unspecified => UNSPECIFIED,
            XesStandardLifecycle::Assign => ASSIGN,
            XesStandardLifecycle::AteAbort => ATE_ABORT,
            XesStandardLifecycle::Autoskip => AUTOSKIP,
            XesStandardLifecycle::Complete => COMPLETE,
            XesStandardLifecycle::ManualSkip => MANUAL_SKIP,
            XesStandardLifecycle::PiAbort => PI_ABORT,
            XesStandardLifecycle::ReAssign => RE_ASSIGN,
            XesStandardLifecycle::Resume => RESUME,
            XesStandardLifecycle::Schedule => SCHEDULE,
            XesStandardLifecycle::Start => START,
            XesStandardLifecycle::Suspend => SUSPEND,
            XesStandardLifecycle::Unknown => UNKNOWN,
            XesStandardLifecycle::Withdraw => WITHDRAW,
        };
        name.to_owned()
    }

    /// The transition with the given XES name; `Err` when no transition has it.
    pub fn from_str(s: &str) -> (res: Result<XesStandardLifecycle, ()>)
        ensures
            match res {
                Ok(lifecycle) => lifecycle_name(lifecycle) == s@,
                Err(()) => forall|lifecycle: XesStandardLifecycle| lifecycle_name(lifecycle) != s@,
            },
            forall|lifecycle: XesStandardLifecycle|
                (res == Ok::<XesStandardLifecycle, ()>(lifecycle)) == (#[trigger] lifecycle_name(lifecycle) == s@),
    {
        let all = [
            XesStandardLifecycle::Schedule,
            XesStandardLifecycle::Start,
            XesStandardLifecycle::Complete,
            XesStandardLifecycle::Unknown,
            XesStandardLifecycle::Unspecified,
            XesStandardLifecycle::Assign,
            XesStandardLifecycle::AteAbort,
            XesStandardLifecycle::Autoskip,
            XesStandardLifecycle::ManualSkip,
            XesStandardLifecycle::PiAbort,
            XesStandardLifecycle::ReAssign,
            XesStandardLifecycle::Resume,
            XesStandardLifecycle::Suspend,
            XesStandardLifecycle::Withdraw,
        ];
        let mut i: usize = 0;
        while i < 14
            invariant
                i <= 14,
                forall|j: int| 0 <= j < i ==> lifecycle_name(#[trigger] all@[j]) != s@,
            decreases 14 - i,
        {
            let name = all[i].to_string();
            if same_text(name.as_str(), s) {
                proof {
                    assert forall|lifecycle: XesStandardLifecycle| lifecycle_name(lifecycle) == s@ implies lifecycle == all@[i as int] by {
                        lemma_lifecycle_names_distinct(lifecycle, all@[i as int]);
                    }
                }
                return Ok(all[i]);
            }
            i = i + 1;
        }
        assert forall|lifecycle: XesStandardLifecycle| lifecycle_name(lifecycle) != s@ by {
            match lifecycle {
                XesStandardLifecycle::Schedule => assert(lifecycle_name(all@[0]) != s@),
                XesStandardLifecycle::Start => assert(lifecycle_name(all@[1]) != s@),
                XesStandardLifecycle::Complete => assert(lifecycle_name(all@[2]) != s@),
                XesStandardLifecycle::Unknown => assert(lifecycle_name(all@[3]) != s@),
                XesStandardLifecycle::Unspecified => assert(lifecycle_name(all@[4]) != s@),
                XesStandardLifecycle::Assign => assert(lifecycle_name(all@[5]) != s@),
                XesStandardLifecycle::AteAbort => assert(lifecycle_name(all@[6]) != s@),
                XesStandardLifecycle::Autoskip => assert(lifecycle_name(all@[7]) != s@),
                XesStandardLifecycle::ManualSkip => assert(lifecycle_name(all@[8]) != s@),
                XesStandardLifecycle::PiAbort => assert(lifecycle_name(all@[9]) != s@),
                XesStandardLifecycle::ReAssign => assert(lifecycle_name(all@[10]) != s@),
                XesStandardLifecycle::Resume => assert(lifecycle_name(all@[11]) != s@),
                XesStandardLifecycle::Suspend => assert(lifecycle_name(all@[12]) != s@),
                XesStandardLifecycle::Withdraw => assert(lifecycle_name(all@[13]) != s@),
            }
        }
        Err(())
    }
}

impl core::str::FromStr for XesStandardLifecycle {
    type Err = ();

    fn from_str(s: &str) -> (res: Result<XesStandardLifecycle, ()>)
        ensures
            forall|lifecycle: XesStandardLifecycle|
                (res == Ok::<XesStandardLifecycle, ()>(lifecycle)) == (#[trigger] lifecycle_name(lifecycle) == s@),
            res is Err == forall|lifecycle: XesStandardLifecycle| lifecycle_name(lifecycle) != s@,
    {
        XesStandardLifecycle::from_str(s)
    }
}

} // verus!
