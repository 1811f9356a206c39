//! Tool forwarding hook — the tools that run on the client side (OS tools,
//! `ask_user`) are advertised by this hook, and a call of one is handed to
//! the connected client over the conversation's stream.
//!
//! Calls are keyed by conversation and call id, since the model's call ids
//! are not unique across conversations; a reply that comes before the
//! dispatch parks is kept and picked up by it (see [`Forwarder`]).

use crate::bridge::{begun, DispatchStep, Forwarder, NameTable, PendingState};
use crate::text::{contains_str, string_of, views};
use vstd::prelude::*;

verus! {

/// Hook that forwards client-side tool dispatches to a connected client.
#[verifier::reject_recursive_types(S)]
pub struct ToolHook<S> {
    /// Names this hook claims.
    names: Vec<String>,
    calls: Forwarder<S>,
}

/// The failure for a call outside any conversation.
pub open spec fn no_conversation_message(name: Seq<char>) -> Seq<char> {
    "'"@ + name + "' requires a conversation context"@
}

impl<S> ToolHook<S> {
    /// The names this hook forwards.
    pub closed spec fn names(&self) -> Seq<Seq<char>> {
        views(self.names@)
    }

    /// The forwarded calls.
    pub closed spec fn calls(&self) -> Forwarder<S> {
        self.calls
    }

    pub closed spec fn wf(&self) -> bool {
        self.calls.wf()
    }

    /// A hook forwarding the tools called `names`.
    pub fn new(names: Vec<String>) -> (r: ToolHook<S>)
        ensures
            r.wf(),
            r.names() == views(names@),
            r.calls().listeners() == Set::<u64>::empty(),
            r.calls().pending() == Map::<u64, NameTable<PendingState<S>>>::empty(),
    {
        ToolHook { names, calls: Forwarder::new() }
    }

    /// Whether `name` is part of the client-tool set this hook forwards.
    pub fn is_client_tool(&self, name: &str) -> (r: bool)
        ensures
            r == self.names().contains(name@),
    {
        contains_str(&self.names, name)
    }

    /// Mark `conversation_id` as having an active stream listener.
    pub fn register_listener(&mut self, conversation_id: u64)
        requires
            old(self).wf(),
        ensures
            final(self).wf(),
            final(self).names() == old(self).names(),
            final(self).calls().listeners() == old(self).calls().listeners().insert(conversation_id),
            final(self).calls().pending() == old(self).calls().pending(),
    {
        self.calls.register_listener(conversation_id);
    }

    /// Drop the listener and the conversation's forwarded calls; the result
    /// holds the senders of the dispatches still waiting, to be told that
    /// the stream closed before the reply arrived.
    pub fn unregister_listener(&mut self, conversation_id: u64) -> (r: Vec<S>)
        requires
            old(self).wf(),
        ensures
            final(self).wf(),
            final(self).names() == old(self).names(),
            final(self).calls().listeners() == old(self).calls().listeners().remove(conversation_id),
            final(self).calls().pending() == old(self).calls().pending().remove(conversation_id),
            forall|i: int| 0 <= i < r@.len() ==> crate::bridge::awaiting_in(old(self).calls().pending(), conversation_id, #[trigger] r@[i]),
    {
        self.calls.unregister_listener(conversation_id)
    }

    /// Resolve a forwarded call with the client's reply; see
    /// [`Forwarder::try_resolve`].
    pub fn try_resolve(&mut self, conversation_id: u64, call_id: &str, output: String, is_error: bool) -> (r: crate::bridge::Resolution<S>)
        requires
            old(self).wf(),
        ensures
            final(self).wf(),
            final(self).names() == old(self).names(),
            final(self).calls().listeners() == old(self).calls().listeners(),
            crate::bridge::resolved(old(self).calls().pending(), final(self).calls().pending(), conversation_id, call_id@,
                crate::bridge::reply_result(output, is_error), r),
    {
        self.calls.try_resolve(conversation_id, call_id, output, is_error)
    }

    /// Begin dispatching tool `name`: not this hook's unless it forwards
    /// that name; refused outside a conversation; otherwise forwarded.
    pub fn dispatch_step(&mut self, conversation_id: Option<u64>, name: &str, call_id: &str, tx: S) -> (r: DispatchStep)
        requires
            old(self).wf(),
        ensures
            final(self).wf(),
            final(self).names() == old(self).names(),
            !old(self).names().contains(name@) ==> r is NotOwned && final(self).calls() == old(self).calls(),
            old(self).names().contains(name@) ==> match conversation_id {
                None => (r matches DispatchStep::Fail(e) && e@ == no_conversation_message(name@)) && final(self).calls()
                    == old(self).calls(),
                Some(c) => begun(old(self).calls(), final(self).calls(), c, name@, call_id@, tx, r),
            },
    {
        if !self.is_client_tool(name) {
            return DispatchStep::NotOwned;
        }
        match conversation_id {
            None => {
                let mut e = string_of("'");
                e.append(name);
                e.append("' requires a conversation context");
                DispatchStep::Fail(e)
            },
            Some(c) => self.calls.begin(c, name, call_id, tx),
        }
    }

    /// Forget a forwarded call whose wait ended.
    pub fn abandon(&mut self, conversation_id: u64, call_id: &str)
        requires
            old(self).wf(),
        ensures
            final(self).wf(),
            final(self).names() == old(self).names(),
            final(self).calls().listeners() == old(self).calls().listeners(),
            crate::bridge::abandoned(old(self).calls().pending(), final(self).calls().pending(), conversation_id, call_id@),
    {
        self.calls.abandon(conversation_id, call_id)
    }
}

} // verus!
