//! Outbound calls, and the requests that they serve.

use crate::sip::events::InvState;
use crate::sip::types::CallId;
use crate::text::{join3, signed_decimal, signed_decimal_text};
use vstd::prelude::*;
use vstd::string::*;

verus! {

/// The names of the requests of calls.
pub type NameMap = dashmap::DashMap<i32, String>;

/// What a map of names holds.
pub uninterp spec fn held_names(m: NameMap) -> Map<i32, Seq<char>>;

/// `dashmap::DashMap::new`: a map of names that holds nothing.
#[verifier::external_body]
fn names_new() -> (m: NameMap)
    ensures
        held_names(m).dom() == Set::<i32>::empty(),
{
    dashmap::DashMap::new()
}

/// `dashmap::DashMap::insert`: the call has the name, in place of any other.
#[verifier::external_body]
fn names_insert(m: &mut NameMap, call: i32, name: String)
    ensures
        held_names(*final(m)) == held_names(*old(m)).insert(call, name@),
{
    m.insert(call, name);
}

/// `dashmap::DashMap::get`: a copy of the name of the call, if there is one.
#[verifier::external_body]
fn names_get(m: &NameMap, call: i32) -> (r: Option<String>)
    ensures
        r is Some <==> held_names(*m).contains_key(call),
        r is Some ==> (r->0)@ == held_names(*m)[call],
{
    m.get(&call).map(|entry| entry.value().clone())
}

/// `dashmap::DashMap::remove`: takes the name of the call out, if there is one.
#[verifier::external_body]
fn names_remove(m: &mut NameMap, call: i32) -> (r: Option<String>)
    ensures
        held_names(*final(m)) == held_names(*old(m)).remove(call),
        r is Some <==> held_names(*old(m)).contains_key(call),
        r is Some ==> (r->0)@ == held_names(*old(m))[call],
{
    m.remove(&call).map(|entry| entry.1)
}

/// What is reported of an outbound call.
#[derive(Debug)]
pub enum OutboundReport {
    /// Nothing.
    Nothing,
    /// It was answered.
    Answered { tracking_id: String },
    /// It failed, for the reason.
    Failed { tracking_id: String, reason: String },
}

/// The outbound calls, and the names of the requests that they serve.
pub struct OutboundTracking {
    names: NameMap,
}

impl OutboundTracking {
    /// The names, by call.
    pub closed spec fn view(&self) -> Map<i32, Seq<char>> {
        held_names(self.names)
    }

    /// No outbound call.
    pub fn new() -> (r: Self)
        ensures
            r@.dom() == Set::<i32>::empty(),
    {
        OutboundTracking { names: names_new() }
    }

    /// Notes the request that a call serves.
    pub fn track(&mut self, call: CallId, tracking_id: &str)
        ensures
            final(self)@ == old(self)@.insert(call.num(), tracking_id@),
    {
        names_insert(&mut self.names, call.get(), String::from_str(tracking_id));
    }

    /// The name of the request that a call serves.
    pub fn get_outbound_tracking_id(&self, call: CallId) -> (r: Option<String>)
        ensures
            r is Some <==> self@.contains_key(call.num()),
            r is Some ==> (r->0)@ == self@[call.num()],
    {
        names_get(&self.names, call.get())
    }

    /// Forgets an outbound call, and returns the name of its request.
    pub fn remove_outbound_tracking(&mut self, call: CallId) -> (r: Option<String>)
        ensures
            final(self)@ == old(self)@.remove(call.num()),
            r is Some <==> old(self)@.contains_key(call.num()),
            r is Some ==> (r->0)@ == old(self)@[call.num()],
    {
        names_remove(&mut self.names, call.get())
    }

    /// The state of a call changed. An outbound call that is answered or ends is reported; one
    /// that ends is forgotten.
    ///
    /// Returns the report, and whether the change is to be handled as that of any other call:
    /// for an outbound call, only where it ends.
    pub fn call_state(&mut self, call: CallId, state: InvState, status: i32, status_text: &str) -> (r:
        (OutboundReport, bool))
        ensures
            final(self)@ == (if state == InvState::Disconnected {
                old(self)@.remove(call.num())
            } else {
                old(self)@
            }),
            r.1 == (!old(self)@.contains_key(call.num()) || state == InvState::Disconnected),
            if !old(self)@.contains_key(call.num()) {
                r.0 is Nothing
            } else if state == InvState::Confirmed {
                r.0 matches OutboundReport::Answered { tracking_id } && tracking_id@ == old(self)@[call.num()]
            } else if state == InvState::Disconnected {
                r.0 matches OutboundReport::Failed { tracking_id, reason } && tracking_id@ == old(self)@[call.num()] && reason@ == signed_decimal(status as int) + " "@ + status_text@
            } else {
                r.0 is Nothing
            },
    {
        match self.get_outbound_tracking_id(call) {
            None => {
                proof {
                    assert(old(self)@.remove(call.num()) =~= old(self)@);
                }
                (OutboundReport::Nothing, true)
            },
            Some(tracking_id) => match state {
                InvState::Confirmed => (OutboundReport::Answered { tracking_id }, false),
                InvState::Disconnected => {
                    let _ = self.remove_outbound_tracking(call);
                    let reason: String = join3(
                        signed_decimal_text(status).as_str(),
                        " ",
                        status_text,
                    );
                    (OutboundReport::Failed { tracking_id, reason }, true)
                },
                _ => (OutboundReport::Nothing, false),
            },
        }
    }
}

} // verus!
