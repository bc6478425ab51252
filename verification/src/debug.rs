//! Opt-in operator events for finished public tool calls. An event carries
//! only configuration-derived labels: never arguments or target output.
use vstd::prelude::*;
use crate::codes::{BrokerErrorCode, code_name};
use crate::json::{JsonValue, JsonNumber};
use crate::protocol::keys_of;
use crate::schema::str_is;
use crate::text::string_of;

verus! {

/// The record of one public tool call.
#[derive(Debug)]
pub struct DebugCall {
    pub correlation_id: u64,
    pub tool: String,
    pub target: Option<String>,
    pub outcome: &'static str,
    pub code: Option<&'static str>,
    pub finished: bool,
}

pub open spec fn code_is(code: Option<&'static str>, name: Seq<char>) -> bool {
    match code {
        Some(c) => c@ == name,
        None => false,
    }
}

impl DebugCall {
    /// The record of a call of `tool` on `target`, rejected with
    /// `INVALID_ARGUMENTS` until it is finished otherwise.
    pub fn begin(correlation_id: u64, tool: &str, target: Option<&str>) -> (r: Self)
        ensures
            r.correlation_id == correlation_id,
            r.tool@ == tool@,
            match target {
                Some(t) => r.target matches Some(x) && x@ == t@,
                None => r.target is None,
            },
            r.outcome@ == "rejected"@,
            code_is(r.code, "INVALID_ARGUMENTS"@),
            !r.finished,
    {
        let target = match target {
            Some(t) => Some(string_of(t)),
            None => None,
        };
        DebugCall {
            correlation_id,
            tool: string_of(tool),
            target,
            outcome: "rejected",
            code: Some("INVALID_ARGUMENTS"),
            finished: false,
        }
    }

    /// A record that is never reported: the request was not a tool call.
    pub fn inactive() -> (r: Self)
        ensures
            r.finished,
    {
        DebugCall {
            correlation_id: 0,
            tool: String::new(),
            target: None,
            outcome: "rejected",
            code: Some("INVALID_ARGUMENTS"),
            finished: true,
        }
    }

    /// Marks the record finished. Returns whether its event is due now: only
    /// the first time.
    pub fn finish(&mut self) -> (due: bool)
        ensures
            due == !old(self).finished,
            final(self).finished,
            final(self).correlation_id == old(self).correlation_id,
            final(self).tool == old(self).tool,
            final(self).target == old(self).target,
            final(self).outcome == old(self).outcome,
            final(self).code == old(self).code,
    {
        if !self.finished {
            self.finished = true;
            true
        } else {
            false
        }
    }

    /// The call succeeded.
    pub fn success(&mut self) -> (due: bool)
        ensures
            due == !old(self).finished,
            final(self).finished,
            final(self).outcome@ == "success"@,
            final(self).code is None,
    {
        self.outcome = "success";
        self.code = None;
        self.finish()
    }

    /// The call ran and failed with `code`.
    pub fn error(&mut self, code: BrokerErrorCode) -> (due: bool)
        ensures
            due == !old(self).finished,
            final(self).finished,
            final(self).outcome@ == "error"@,
            code_is(final(self).code, code_name(code)),
    {
        self.outcome = "error";
        self.code = Some(code.as_str());
        self.finish()
    }

    /// The call was refused with `code` before anything ran.
    pub fn rejected(&mut self, code: BrokerErrorCode) -> (due: bool)
        ensures
            due == !old(self).finished,
            final(self).finished,
            final(self).outcome@ == "rejected"@,
            code_is(final(self).code, code_name(code)),
    {
        self.outcome = "rejected";
        self.code = Some(code.as_str());
        self.finish()
    }

    /// The event keys of the record, in key order.
    pub open spec fn event_keys(&self) -> Seq<Seq<char>> {
        (if self.code is Some { seq!["code"@] } else { Seq::empty() }) + seq!["correlation_id"@, "event"@, "outcome"@]
            + (if self.target is Some { seq!["target"@] } else { Seq::empty() }) + seq!["tool"@]
    }

    /// The event of the record: its code if any, its correlation ID, the
    /// event name, the outcome, the target if any, and the tool.
    pub fn event(&self) -> (r: JsonValue)
        ensures
            r matches JsonValue::Object(es) && keys_of(es@) == self.event_keys(),
    {
        let mut es: Vec<(String, JsonValue)> = Vec::new();
        match self.code {
            Some(c) => {
                es.push((string_of("code"), JsonValue::Str(string_of(c))));
            },
            None => {},
        }
        es.push((string_of("correlation_id"), JsonValue::Number(JsonNumber::PosInt(self.correlation_id))));
        es.push((string_of("event"), JsonValue::Str(string_of("tool_call_finished"))));
        es.push((string_of("outcome"), JsonValue::Str(string_of(self.outcome))));
        match &self.target {
            Some(t) => {
                es.push((string_of("target"), JsonValue::Str(t.clone())));
            },
            None => {},
        }
        es.push((string_of("tool"), JsonValue::Str(self.tool.clone())));
        assert(keys_of(es@) =~= self.event_keys());
        JsonValue::Object(es)
    }
}

/// A run of finishing calls on one record, each step as the contracts of
/// `finish`, `success`, `error` and `rejected` state it: `records[i]` is the
/// record before call `i`, `dues[i]` what that call returned.
pub open spec fn finishing_run(records: Seq<DebugCall>, dues: Seq<bool>) -> bool {
    &&& records.len() == dues.len() + 1
    &&& forall|i: int| 0 <= i < dues.len() ==> #[trigger] run_step(records, dues, i)
}

/// Call `i` of a run reports exactly when the record was unfinished before
/// it, and leaves the record finished.
pub open spec fn run_step(records: Seq<DebugCall>, dues: Seq<bool>, i: int) -> bool {
    &&& dues[i] == !records[i].finished
    &&& records[i + 1].finished
}

/// How many calls of a run reported the event.
pub open spec fn times_reported(dues: Seq<bool>) -> nat
    decreases dues.len(),
{
    if dues.len() == 0 {
        0
    } else {
        times_reported(dues.drop_last()) + if dues.last() { 1nat } else { 0nat }
    }
}

/// Law: over any run of finishing calls (the drop of the record included),
/// the event of a record is reported exactly once if the record was
/// unfinished at the start, and never if it was finished (as an inactive
/// record is).
pub proof fn law_event_reported_once(records: Seq<DebugCall>, dues: Seq<bool>)
    requires
        finishing_run(records, dues),
    ensures
        times_reported(dues) == (if !records[0].finished && dues.len() > 0 { 1nat } else { 0nat }),
    decreases dues.len(),
{
    if dues.len() > 0 {
        let n = dues.len() - 1;
        let r2 = records.drop_last();
        let d2 = dues.drop_last();
        assert(finishing_run(r2, d2)) by {
            assert forall|i: int| 0 <= i < d2.len() implies #[trigger] run_step(r2, d2, i) by {
                assert(run_step(records, dues, i));
            }
        }
        law_event_reported_once(r2, d2);
        assert(run_step(records, dues, n));
        if n > 0 {
            assert(run_step(records, dues, n - 1));
        }
        assert(times_reported(dues) == times_reported(d2) + if dues[n] { 1nat } else { 0nat });
    }
}

} // verus!
