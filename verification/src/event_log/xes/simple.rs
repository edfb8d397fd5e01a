use vstd::prelude::*;

use crate::event_log::simple_event_log::MIN_TIMESTAMP;
use crate::event_log::xes::xes_event_log::{XesEvent, XesEventLogImpl, XesTrace};

verus! {

/// A log with one trace per list of names, every event dated at the earliest
/// instant and without payload; the log has no extensions, classifiers,
/// properties or globals.
pub fn create_simple_event_log(raw_log: &Vec<Vec<&str>>) -> (res: XesEventLogImpl)
    ensures
        res.extensions@.len() == 0,
        res.classifiers@.len() == 0,
        res.properties@.len() == 0,
        res.globals@.len() == 0,
        res.traces@.len() == raw_log@.len(),
        forall|t: int| 0 <= t < raw_log@.len() ==> (#[trigger] res.traces@[t]).events@.len() == raw_log@[t]@.len(),
        forall|t: int, i: int| 0 <= t < raw_log@.len() && 0 <= i < raw_log@[t]@.len()
            ==> (#[trigger] res.traces@[t].events@[i]).name@ == raw_log@[t]@[i]@ && res.traces@[t].events@[i].timestamp == MIN_TIMESTAMP
                && res.traces@[t].events@[i].payload@.len() == 0,
{
    let mut log = XesEventLogImpl::empty();
    let mut t: usize = 0;
    while t < raw_log.len()
        invariant
            t <= raw_log@.len(),
            log.extensions@.len() == 0,
            log.classifiers@.len() == 0,
            log.properties@.len() == 0,
            log.globals@.len() == 0,
            log.traces@.len() == t,
            forall|k: int| 0 <= k < t ==> (#[trigger] log.traces@[k]).events@.len() == raw_log@[k]@.len(),
            forall|k: int, i: int| 0 <= k < t && 0 <= i < raw_log@[k]@.len()
                ==> (#[trigger] log.traces@[k].events@[i]).name@ == raw_log@[k]@[i]@ && log.traces@[k].events@[i].timestamp == MIN_TIMESTAMP
                    && log.traces@[k].events@[i].payload@.len() == 0,
        decreases raw_log@.len() - t,
    {
        let raw_trace = &raw_log[t];
        let mut trace = XesTrace::empty();
        let mut i: usize = 0;
        while i < raw_trace.len()
            invariant
                i <= raw_trace@.len(),
                trace.events@.len() == i,
                forall|j: int| 0 <= j < i ==> (#[trigger] trace.events@[j]).name@ == raw_trace@[j]@ && trace.events@[j].timestamp == MIN_TIMESTAMP
                    && trace.events@[j].payload@.len() == 0,
            decreases raw_trace@.len() - i,
        {
            trace.push(XesEvent::new_with_min_date(raw_trace[i].to_string()));
            i = i + 1;
        }
        let ghost before = log.traces@;
        log.push(trace);
        proof {
            assert forall|k: int, j: int| 0 <= k < t + 1 && 0 <= j < raw_log@[k]@.len() implies
                (#[trigger] log.traces@[k].events@[j]).name@ == raw_log@[k]@[j]@ && log.traces@[k].events@[j].timestamp == MIN_TIMESTAMP
                    && log.traces@[k].events@[j].payload@.len() == 0 by {
                if k < t {
                    assert(log.traces@[k] == before[k]);
                }
            }
        }
        t = t + 1;
    }
    log
}

} // verus!
