//! Client bridge — forwards tool dispatches to the connected client and
//! pairs them with the client's replies.
//!
//! A client's tools are exactly what it declares for a conversation; a
//! call of one is forwarded over that conversation's stream, and the
//! client's reply resolves it. A reply may arrive before the dispatch that
//! awaits it; it is then kept until that dispatch comes.
//!
//! The bridge holds, per forwarded call, either the reply sender of the
//! dispatch that waits (`S`, the caller's channel end) or the reply that
//! came early. Waiting with a timeout is the caller's part.

use crate::model::Tool;
pub use crate::table::NameTable;
use crate::table::{keys_distinct, lemma_map_of_at, map_of};
use crate::text::{contains_str, string_of, views};
use vstd::hash_map::HashMapWithView;
use vstd::hash_set::HashSetWithView;
use vstd::prelude::*;

verus! {

broadcast use vstd::std_specs::hash::group_hash_axioms;

/// How long a forwarded call waits for a reply, in seconds.
pub const FORWARD_TIMEOUT_SECS: u64 = 300;

/// A forwarded call: a dispatch waiting with its reply sender, or a reply
/// that arrived first.
pub enum PendingState<S> {
    AwaitingReply(S),
    EarlyReply(Result<String, String>),
}

/// What a client reply did.
pub enum Resolution<S> {
    /// It goes to the waiting dispatch through this sender.
    Deliver(S, Result<String, String>),
    /// No dispatch waits yet: it is kept for the one that comes.
    Stored,
    /// A reply had already come for this call: the new one is ignored and
    /// the kept one stays for the dispatch.
    Duplicate,
}

/// What a dispatch of a client tool does next.
pub enum DispatchStep {
    /// The tool is not a client tool of this conversation.
    NotOwned,
    /// The call fails at once with this message.
    Fail(String),
    /// The reply had already come.
    Ready(Result<String, String>),
    /// The call waits for the reply on the channel whose sender was given.
    Wait,
}

/// The forwarded call for `call_id` in `conv`, if any.
pub open spec fn pending_at<S>(
    pending: Map<u64, NameTable<PendingState<S>>>,
    conv: u64,
    call_id: Seq<char>,
) -> Option<PendingState<S>> {
    if pending.contains_key(conv) && pending[conv]@.contains_key(call_id) {
        Some(pending[conv]@[call_id])
    } else {
        None
    }
}

/// A reply as a result.
pub open spec fn reply_result(output: String, is_error: bool) -> Result<String, String> {
    if is_error {
        Err(output)
    } else {
        Ok(output)
    }
}

/// Whether some call of conversation `c` waits on sender `s`.
pub open spec fn awaiting_in<S>(p: Map<u64, NameTable<PendingState<S>>>, c: u64, s: S) -> bool {
    exists|call: Seq<char>| pending_at(p, c, call) == Some(PendingState::AwaitingReply(s))
}

/// Every forwarded call but `(c, k)` is as it was.
pub open spec fn same_elsewhere<S>(
    p0: Map<u64, NameTable<PendingState<S>>>,
    p1: Map<u64, NameTable<PendingState<S>>>,
    c: u64,
    k: Seq<char>,
) -> bool {
    forall|c2: u64, k2: Seq<char>| (c2 != c || k2 != k) ==> #[trigger] pending_at(p1, c2, k2) == pending_at(p0, c2, k2)
}

/// A reply `result` for call `k` of conversation `c` took the forwarded
/// calls from `p0` to `p1` and answered `r`: it goes to a waiting dispatch,
/// is kept when none waits, and is refused and ignored (the kept one
/// stays) when a reply had already come.
pub open spec fn resolved<S>(
    p0: Map<u64, NameTable<PendingState<S>>>,
    p1: Map<u64, NameTable<PendingState<S>>>,
    c: u64,
    k: Seq<char>,
    result: Result<String, String>,
    r: Resolution<S>,
) -> bool {
    &&& same_elsewhere(p0, p1, c, k)
    &&& match pending_at(p0, c, k) {
        Some(PendingState::AwaitingReply(tx)) => r == Resolution::Deliver(tx, result) && pending_at(p1, c, k) is None,
        Some(PendingState::EarlyReply(_)) => r is Duplicate && pending_at(p1, c, k) == pending_at(p0, c, k),
        None => r is Stored && pending_at(p1, c, k) == Some(PendingState::<S>::EarlyReply(result)),
    }
}

/// A dispatch of tool `name` for call `k` of conversation `c`, waiting on
/// `tx` if it waits, took the forwarder from `f0` to `f1` and answered `r`.
pub open spec fn begun<S>(f0: Forwarder<S>, f1: Forwarder<S>, c: u64, name: Seq<char>, k: Seq<char>, tx: S, r: DispatchStep) -> bool {
    &&& f1.listeners() == f0.listeners()
    &&& if !f0.listeners().contains(c) {
        r matches DispatchStep::Fail(e) && e@ == no_client_message(name) && f1.pending() == f0.pending()
    } else if k.len() == 0 {
        r matches DispatchStep::Fail(e) && e@ == no_call_id_message(name) && f1.pending() == f0.pending()
    } else {
        &&& same_elsewhere(f0.pending(), f1.pending(), c, k)
        &&& match pending_at(f0.pending(), c, k) {
            Some(PendingState::EarlyReply(res)) => r == DispatchStep::Ready(res) && pending_at(f1.pending(), c, k) is None,
            Some(PendingState::AwaitingReply(_)) => (r matches DispatchStep::Fail(e) && e@ == duplicate_dispatch_message(name, k))
                && pending_at(f1.pending(), c, k) is None,
            None => r is Wait && pending_at(f1.pending(), c, k) == Some(PendingState::AwaitingReply(tx)),
        }
    }
}

/// Call `k` of conversation `c` is no longer pending; nothing else changed.
pub open spec fn abandoned<S>(
    p0: Map<u64, NameTable<PendingState<S>>>,
    p1: Map<u64, NameTable<PendingState<S>>>,
    c: u64,
    k: Seq<char>,
) -> bool {
    same_elsewhere(p0, p1, c, k) && pending_at(p1, c, k) is None
}

/// The forwarded calls of a tool hook: which conversations listen, and
/// per conversation and call id, the waiting dispatch or the early reply.
#[verifier::reject_recursive_types(S)]
pub struct Forwarder<S> {
    listeners: HashSetWithView<u64>,
    pending: HashMapWithView<u64, NameTable<PendingState<S>>>,
}

impl<S> Forwarder<S> {
    /// Conversations with an active stream listener.
    pub closed spec fn listeners(&self) -> Set<u64> {
        self.listeners@
    }

    /// Forwarded calls, per conversation and call id.
    pub closed spec fn pending(&self) -> Map<u64, NameTable<PendingState<S>>> {
        self.pending@
    }

    pub closed spec fn wf(&self) -> bool {
        forall|c: u64| #[trigger] self.pending@.contains_key(c) ==> self.pending@[c].wf()
    }

    /// No listener or forwarded call.
    pub fn new() -> (r: Forwarder<S>)
        ensures
            r.wf(),
            r.listeners() == Set::<u64>::empty(),
            r.pending() == Map::<u64, NameTable<PendingState<S>>>::empty(),
    {
        Forwarder {
            listeners: HashSetWithView::new(),
            pending: HashMapWithView::new(),
        }
    }

    /// Mark `conversation_id` as having an active stream listener.
    pub fn register_listener(&mut self, conversation_id: u64)
        requires
            old(self).wf(),
        ensures
            final(self).wf(),
            final(self).listeners() == old(self).listeners().insert(conversation_id),
            final(self).pending() == old(self).pending(),
    {
        let _ = self.listeners.insert(conversation_id);
    }

    /// Drop the listener and the conversation's forwarded calls. The
    /// result holds the senders of the dispatches still waiting, which are
    /// to be told that the stream closed before the reply arrived.
    pub fn unregister_listener(&mut self, conversation_id: u64) -> (r: Vec<S>)
        requires
            old(self).wf(),
        ensures
            final(self).wf(),
            final(self).listeners() == old(self).listeners().remove(conversation_id),
            final(self).pending() == old(self).pending().remove(conversation_id),
            forall|i: int| 0 <= i < r@.len() ==> awaiting_in(old(self).pending(), conversation_id, #[trigger] r@[i]),
            forall|call: Seq<char>, s: S|
                #![trigger pending_at(old(self).pending(), conversation_id, call), r@.contains(s)]
                pending_at(old(self).pending(), conversation_id, call) == Some(PendingState::AwaitingReply(s))
                    ==> r@.contains(s),
    {
        let _ = self.listeners.remove(&conversation_id);
        let ghost old_pending = self.pending@;
        let mut waiting: Vec<S> = Vec::new();
        match self.pending.remove(&conversation_id) {
            Some(table) => {
                let ghost tm = table@;
                let entries = table.into_entries();
                let ghost es = entries@;
                let total = entries.len();
                let mut rest = entries;
                let mut taken: usize = 0;
                while rest.len() > 0
                    invariant
                        keys_distinct(es),
                        map_of(es) == tm,
                        taken + rest@.len() == es.len(),
                        total == es.len(),
                        rest@ == es.subrange(taken as int, es.len() as int),
                        forall|i: int| 0 <= i < waiting@.len() ==> exists|j: int|
                            0 <= j < taken && es[j].1 == PendingState::AwaitingReply(#[trigger] waiting@[i]),
                        forall|j: int, s: S|
                            #![trigger es[j], waiting@.contains(s)]
                            0 <= j < taken && es[j].1 == PendingState::AwaitingReply(s) ==> waiting@.contains(s),
                    decreases rest@.len(),
                {
                    let (_call, state) = rest.remove(0);
                    let ghost j = taken as int;
                    assert(es[j].1 == state);
                    match state {
                        PendingState::AwaitingReply(tx) => {
                            let ghost prev = waiting@;
                            waiting.push(tx);
                            assert(waiting@[prev.len() as int] == tx);
                            assert forall|j2: int, s: S|
                                #![trigger es[j2], waiting@.contains(s)]
                                0 <= j2 < taken + 1 && es[j2].1 == PendingState::AwaitingReply(s) implies waiting@.contains(s) by {
                                if j2 < taken {
                                    assert(prev.contains(s));
                                    let w = choose|w: int| 0 <= w < prev.len() && prev[w] == s;
                                    assert(waiting@[w] == s);
                                } else {
                                    assert(waiting@[prev.len() as int] == s);
                                }
                            }
                        },
                        PendingState::EarlyReply(_) => {},
                    }
                    taken += 1;
                }
                proof {
                    assert forall|i: int| 0 <= i < waiting@.len() implies awaiting_in(old_pending, conversation_id, #[trigger] waiting@[i]) by {
                        let j = choose|j: int| 0 <= j < taken && es[j].1 == PendingState::AwaitingReply(waiting@[i]);
                        lemma_map_of_at(es, j);
                        assert(pending_at(old_pending, conversation_id, es[j].0@) == Some(PendingState::AwaitingReply(waiting@[i])));
                    }
                    assert forall|call: Seq<char>, s: S|
                        #![trigger pending_at(old_pending, conversation_id, call), waiting@.contains(s)]
                        pending_at(old_pending, conversation_id, call) == Some(PendingState::AwaitingReply(s)) implies waiting@.contains(s) by {
                        assert(tm.contains_key(call));
                        let j = choose|j: int| 0 <= j < es.len() && #[trigger] es[j].0@ == call;
                        lemma_map_of_at(es, j);
                    }
                }
            },
            None => {},
        }
        waiting
    }

    /// Resolve a forwarded call with the client's reply. The reply goes to
    /// the dispatch waiting for it, or is kept when none waits yet; a reply
    /// for a call that already had one is refused and ignored (the kept one
    /// stays).
    pub fn try_resolve(&mut self, conversation_id: u64, call_id: &str, output: String, is_error: bool) -> (r: Resolution<S>)
        requires
            old(self).wf(),
        ensures
            final(self).wf(),
            final(self).listeners() == old(self).listeners(),
            resolved(old(self).pending(), final(self).pending(), conversation_id, call_id@, reply_result(output, is_error), r),
    {
        let result = if is_error { Err(output) } else { Ok(output) };
        let ghost before = self.pending@;
        let mut table = match self.pending.remove(&conversation_id) {
            Some(t) => t,
            None => NameTable::new(),
        };
        let ghost tb = table@;
        let r = match table.remove(call_id) {
            Some(PendingState::AwaitingReply(tx)) => Resolution::Deliver(tx, result),
            Some(PendingState::EarlyReply(kept)) => {
                table.insert(string_of(call_id), PendingState::EarlyReply(kept));
                Resolution::Duplicate
            },
            None => {
                table.insert(string_of(call_id), PendingState::EarlyReply(result));
                Resolution::Stored
            },
        };
        self.pending.insert(conversation_id, table);
        proof {
            assert forall|c: u64| #[trigger] self.pending@.contains_key(c) implies self.pending@[c].wf() by {
                if c != conversation_id {
                    assert(before.contains_key(c));
                }
            }
        }
        r
    }

    /// Begin a forwarded call of tool `name` (call `call_id`) in
    /// conversation `c`; `tx` is the sender the dispatch will wait on, kept
    /// only when it does wait. Fails at once without a listener or a call
    /// id; takes a reply that came early; refuses a second dispatch of a
    /// call that already waits.
    pub fn begin(&mut self, c: u64, name: &str, call_id: &str, tx: S) -> (r: DispatchStep)
        requires
            old(self).wf(),
        ensures
            final(self).wf(),
            begun(*old(self), *final(self), c, name@, call_id@, tx, r),
    {
        let conv = c;
        if !self.listeners.contains(&conv) {
            let mut e = string_of("no client connected to handle '");
            e.append(name);
            e.append("' for this conversation");
            return DispatchStep::Fail(e);
        }
        if call_id.is_empty() {
            let mut e = string_of("'");
            e.append(name);
            e.append("' invoked without a call_id");
            return DispatchStep::Fail(e);
        }
        let ghost before = self.pending@;
        let mut table = match self.pending.remove(&conv) {
            Some(t) => t,
            None => NameTable::new(),
        };
        let r = match table.remove(call_id) {
            Some(PendingState::EarlyReply(result)) => DispatchStep::Ready(result),
            Some(PendingState::AwaitingReply(_)) => {
                let mut e = string_of("'");
                e.append(name);
                e.append("' has a duplicate pending dispatch for call_id '");
                e.append(call_id);
                e.append("'");
                DispatchStep::Fail(e)
            },
            None => {
                table.insert(string_of(call_id), PendingState::AwaitingReply(tx));
                DispatchStep::Wait
            },
        };
        self.pending.insert(conv, table);
        proof {
            assert forall|c3: u64| #[trigger] self.pending@.contains_key(c3) implies self.pending@[c3].wf() by {
                if c3 != conv {
                    assert(before.contains_key(c3));
                }
            }
        }
        r
    }

    /// Forget a forwarded call whose wait ended (timed out or its channel
    /// closed).
    pub fn abandon(&mut self, conversation_id: u64, call_id: &str)
        requires
            old(self).wf(),
        ensures
            final(self).wf(),
            final(self).listeners() == old(self).listeners(),
            abandoned(old(self).pending(), final(self).pending(), conversation_id, call_id@),
    {
        let ghost before = self.pending@;
        match self.pending.remove(&conversation_id) {
            Some(mut table) => {
                let _ = table.remove(call_id);
                self.pending.insert(conversation_id, table);
            },
            None => {},
        }
        proof {
            assert forall|c: u64| #[trigger] self.pending@.contains_key(c) implies self.pending@[c].wf() by {
                if c != conversation_id {
                    assert(before.contains_key(c));
                }
            }
        }
    }
}

/// Bridge that forwards client-tool dispatches over the active stream. A
/// client's tools are the names it declared for the conversation.
#[verifier::reject_recursive_types(S)]
pub struct ClientBridge<S> {
    conversations: HashMapWithView<u64, Vec<String>>,
    calls: Forwarder<S>,
}

impl<S> ClientBridge<S> {
    /// Declared tool names per conversation.
    pub closed spec fn conversations(&self) -> Map<u64, Vec<String>> {
        self.conversations@
    }

    /// The forwarded calls.
    pub closed spec fn calls(&self) -> Forwarder<S> {
        self.calls
    }

    pub closed spec fn wf(&self) -> bool {
        self.calls.wf()
    }

    /// Whether `name` is a declared client tool of `conv`.
    pub open spec fn owns(&self, conv: u64, name: Seq<char>) -> bool {
        self.conversations().contains_key(conv) && views(self.conversations()[conv]@).contains(name)
    }

    /// No conversation, listener or forwarded call.
    pub fn new() -> (r: ClientBridge<S>)
        ensures
            r.wf(),
            r.conversations() == Map::<u64, Vec<String>>::empty(),
            r.calls().listeners() == Set::<u64>::empty(),
            r.calls().pending() == Map::<u64, NameTable<PendingState<S>>>::empty(),
    {
        ClientBridge { conversations: HashMapWithView::new(), calls: Forwarder::new() }
    }

    /// Record what the client declared for this conversation.
    pub fn register_tools(&mut self, conversation_id: u64, tools: &Vec<Tool>)
        requires
            old(self).wf(),
        ensures
            final(self).wf(),
            final(self).conversations().dom() == old(self).conversations().dom().insert(conversation_id),
            views(final(self).conversations()[conversation_id]@) == tools@.map_values(|t: Tool| t.name@),
            forall|c: u64| c != conversation_id && old(self).conversations().contains_key(c)
                ==> #[trigger] final(self).conversations()[c] == old(self).conversations()[c],
            final(self).calls() == old(self).calls(),
    {
        let mut names: Vec<String> = Vec::new();
        let mut i: usize = 0;
        while i < tools.len()
            invariant
                i <= tools@.len(),
                views(names@) == tools@.map_values(|t: Tool| t.name@).take(i as int),
            decreases tools@.len() - i,
        {
            let ghost prev = names@;
            names.push(tools[i].name.clone());
            assert(views(names@) == views(prev).push(tools@[i as int].name@));
            assert(tools@.map_values(|t: Tool| t.name@).take(i as int + 1) == tools@.map_values(|t: Tool| t.name@).take(
                i as int,
            ).push(tools@[i as int].name@));
            i += 1;
        }
        assert(tools@.map_values(|t: Tool| t.name@).take(i as int) == tools@.map_values(|t: Tool| t.name@));
        self.conversations.insert(conversation_id, names);
    }

    /// Whether `name` is a client tool for this conversation. False when
    /// nothing was declared — there is nowhere to forward it.
    pub fn is_client_tool(&self, conversation_id: u64, name: &str) -> (r: bool)
        ensures
            r == self.owns(conversation_id, name@),
    {
        match self.conversations.get(&conversation_id) {
            Some(names) => contains_str(names, name),
            None => false,
        }
    }

    /// Mark `conversation_id` as having an active stream listener.
    pub fn register_listener(&mut self, conversation_id: u64)
        requires
            old(self).wf(),
        ensures
            final(self).wf(),
            final(self).calls().listeners() == old(self).calls().listeners().insert(conversation_id),
            final(self).calls().pending() == old(self).calls().pending(),
            final(self).conversations() == old(self).conversations(),
    {
        self.calls.register_listener(conversation_id);
    }

    /// Drop the listener and everything kept for the conversation; the
    /// result holds the senders of the dispatches still waiting, which are
    /// to be told that the stream closed before the reply arrived.
    pub fn unregister_listener(&mut self, conversation_id: u64) -> (r: Vec<S>)
        requires
            old(self).wf(),
        ensures
            final(self).wf(),
            final(self).calls().listeners() == old(self).calls().listeners().remove(conversation_id),
            final(self).calls().pending() == old(self).calls().pending().remove(conversation_id),
            final(self).conversations() == old(self).conversations().remove(conversation_id),
            forall|i: int| 0 <= i < r@.len() ==> awaiting_in(old(self).calls().pending(), conversation_id, #[trigger] r@[i]),
            forall|call: Seq<char>, s: S|
                #![trigger pending_at(old(self).calls().pending(), conversation_id, call), r@.contains(s)]
                pending_at(old(self).calls().pending(), conversation_id, call) == Some(PendingState::AwaitingReply(s))
                    ==> r@.contains(s),
    {
        let _ = self.conversations.remove(&conversation_id);
        let ghost before = self.calls;
        assert(before == old(self).calls());
        let r = self.calls.unregister_listener(conversation_id);
        r
    }

    /// Resolve a forwarded call with the client's reply (see
    /// [`Forwarder::try_resolve`]); `false` only on a duplicate reply.
    pub fn try_resolve(&mut self, conversation_id: u64, call_id: &str, output: String, is_error: bool) -> (r: Resolution<S>)
        requires
            old(self).wf(),
        ensures
            final(self).wf(),
            final(self).conversations() == old(self).conversations(),
            final(self).calls().listeners() == old(self).calls().listeners(),
            resolved(old(self).calls().pending(), final(self).calls().pending(), conversation_id, call_id@,
                reply_result(output, is_error), r),
    {
        self.calls.try_resolve(conversation_id, call_id, output, is_error)
    }

    /// Begin dispatching tool `name`: not this bridge's without a
    /// conversation or when the client did not declare it there; otherwise
    /// the call is forwarded (see [`Forwarder::begin`]).
    pub fn dispatch_step(&mut self, conversation_id: Option<u64>, name: &str, call_id: &str, tx: S) -> (r: DispatchStep)
        requires
            old(self).wf(),
        ensures
            final(self).wf(),
            final(self).conversations() == old(self).conversations(),
            final(self).calls().listeners() == old(self).calls().listeners(),
            match conversation_id {
                Some(c) if old(self).owns(c, name@) => begun(old(self).calls(), final(self).calls(), c, name@,
                    call_id@, tx, r),
                _ => r is NotOwned && final(self).calls() == old(self).calls(),
            },
    {
        let conv = match conversation_id {
            Some(c) => c,
            None => {
                return DispatchStep::NotOwned;
            },
        };
        if !self.is_client_tool(conv, name) {
            return DispatchStep::NotOwned;
        }
        self.calls.begin(conv, name, call_id, tx)
    }

    /// Forget a forwarded call whose wait ended.
    pub fn abandon(&mut self, conversation_id: u64, call_id: &str)
        requires
            old(self).wf(),
        ensures
            final(self).wf(),
            final(self).conversations() == old(self).conversations(),
            final(self).calls().listeners() == old(self).calls().listeners(),
            abandoned(old(self).calls().pending(), final(self).calls().pending(), conversation_id, call_id@),
    {
        self.calls.abandon(conversation_id, call_id)
    }
}

/// The failure when no client listens on the conversation.
pub open spec fn no_client_message(name: Seq<char>) -> Seq<char> {
    "no client connected to handle '"@ + name + "' for this conversation"@
}

/// The failure for a call without a call id.
pub open spec fn no_call_id_message(name: Seq<char>) -> Seq<char> {
    "'"@ + name + "' invoked without a call_id"@
}

/// The failure for a second dispatch of a call that already waits.
pub open spec fn duplicate_dispatch_message(name: Seq<char>, call_id: Seq<char>) -> Seq<char> {
    "'"@ + name + "' has a duplicate pending dispatch for call_id '"@ + call_id + "'"@
}

/// What a waiting dispatch is told when its conversation's stream closes
/// before the reply arrived.
pub fn stream_closed_error() -> (r: String)
    ensures
        r@ == "stream closed before reply arrived"@,
{
    string_of("stream closed before reply arrived")
}

/// The failure when the reply channel closed before a reply came.
pub fn cancelled_message(name: &str) -> (r: String)
    ensures
        r@ == "'"@ + name@ + "' cancelled: reply channel closed"@,
{
    let mut e = string_of("'");
    e.append(name);
    e.append("' cancelled: reply channel closed");
    e
}

/// The failure when no reply came in time.
pub fn timed_out_message(name: &str) -> (r: String)
    ensures
        r@ == "'"@ + name@ + "' timed out after 300s"@,
{
    let mut e = string_of("'");
    e.append(name);
    e.append("' timed out after 300s");
    e
}

/// A reply that comes before its dispatch is kept, and the dispatch that
/// comes next for that call returns it at once.
pub proof fn lemma_early_reply_is_picked_up<S>(
    f0: Forwarder<S>,
    f1: Forwarder<S>,
    f2: Forwarder<S>,
    c: u64,
    k: Seq<char>,
    name: Seq<char>,
    result: Result<String, String>,
    tx: S,
    r1: Resolution<S>,
    r2: DispatchStep,
)
    requires
        pending_at(f0.pending(), c, k) is None,
        resolved(f0.pending(), f1.pending(), c, k, result, r1),
        f1.listeners().contains(c),
        k.len() > 0,
        begun(f1, f2, c, name, k, tx, r2),
    ensures
        r1 is Stored,
        r2 == DispatchStep::Ready(result),
        pending_at(f2.pending(), c, k) is None,
{
}

/// A dispatch that comes first waits, and the reply that comes next for
/// that call goes to it.
pub proof fn lemma_reply_reaches_waiting_dispatch<S>(
    f0: Forwarder<S>,
    f1: Forwarder<S>,
    p2: Map<u64, NameTable<PendingState<S>>>,
    c: u64,
    k: Seq<char>,
    name: Seq<char>,
    result: Result<String, String>,
    tx: S,
    r1: DispatchStep,
    r2: Resolution<S>,
)
    requires
        pending_at(f0.pending(), c, k) is None,
        f0.listeners().contains(c),
        k.len() > 0,
        begun(f0, f1, c, name, k, tx, r1),
        resolved(f1.pending(), p2, c, k, result, r2),
    ensures
        r1 is Wait,
        r2 == Resolution::Deliver(tx, result),
        pending_at(p2, c, k) is None,
{
}

/// A second reply for the same call is refused and ignored: the first one
/// stays kept, and a dispatch of the call that comes next gets it.
pub proof fn lemma_duplicate_reply_is_refused<S>(
    p0: Map<u64, NameTable<PendingState<S>>>,
    p1: Map<u64, NameTable<PendingState<S>>>,
    p2: Map<u64, NameTable<PendingState<S>>>,
    c: u64,
    k: Seq<char>,
    first: Result<String, String>,
    second: Result<String, String>,
    r1: Resolution<S>,
    r2: Resolution<S>,
)
    requires
        pending_at(p0, c, k) is None,
        resolved(p0, p1, c, k, first, r1),
        resolved(p1, p2, c, k, second, r2),
    ensures
        r1 is Stored,
        r2 is Duplicate,
        pending_at(p2, c, k) == Some(PendingState::<S>::EarlyReply(first)),
{
}

/// After a duplicate reply, the dispatch of the call still gets the first
/// reply at once.
pub proof fn lemma_duplicate_reply_keeps_first<S>(
    f0: Forwarder<S>,
    f1: Forwarder<S>,
    f2: Forwarder<S>,
    f3: Forwarder<S>,
    c: u64,
    k: Seq<char>,
    name: Seq<char>,
    first: Result<String, String>,
    second: Result<String, String>,
    tx: S,
    r1: Resolution<S>,
    r2: Resolution<S>,
    r3: DispatchStep,
)
    requires
        pending_at(f0.pending(), c, k) is None,
        resolved(f0.pending(), f1.pending(), c, k, first, r1),
        resolved(f1.pending(), f2.pending(), c, k, second, r2),
        f2.listeners().contains(c),
        k.len() > 0,
        begun(f2, f3, c, name, k, tx, r3),
    ensures
        r2 is Duplicate,
        r3 == DispatchStep::Ready(first),
        pending_at(f3.pending(), c, k) is None,
{
}

/// Replies and dispatches of one call leave every other call as it was.
pub proof fn lemma_calls_are_independent<S>(
    p0: Map<u64, NameTable<PendingState<S>>>,
    p1: Map<u64, NameTable<PendingState<S>>>,
    c: u64,
    k: Seq<char>,
    c2: u64,
    k2: Seq<char>,
    result: Result<String, String>,
    r: Resolution<S>,
)
    requires
        resolved(p0, p1, c, k, result, r),
        c2 != c || k2 != k,
    ensures
        pending_at(p1, c2, k2) == pending_at(p0, c2, k2),
{
}

/// Through the bridge, a client's reply and the dispatch of its call meet
/// in either order: a reply that comes first is kept and handed to the
/// dispatch at once; a dispatch that comes first waits and the reply goes
/// to it. Either way nothing stays pending for the call. The steps are
/// what `try_resolve` and `dispatch_step` ensure for a client tool of a
/// listening conversation.
pub proof fn lemma_client_reply_and_dispatch_meet<S>(
    b0: ClientBridge<S>,
    b1: ClientBridge<S>,
    b2: ClientBridge<S>,
    c: u64,
    name: Seq<char>,
    k: Seq<char>,
    result: Result<String, String>,
    tx: S,
    res: Resolution<S>,
    step: DispatchStep,
    reply_first: bool,
)
    requires
        b0.owns(c, name),
        b0.calls().listeners().contains(c),
        k.len() > 0,
        pending_at(b0.calls().pending(), c, k) is None,
        reply_first ==> {
            &&& resolved(b0.calls().pending(), b1.calls().pending(), c, k, result, res)
            &&& b1.conversations() == b0.conversations()
            &&& b1.calls().listeners() == b0.calls().listeners()
            &&& begun(b1.calls(), b2.calls(), c, name, k, tx, step)
        },
        !reply_first ==> {
            &&& begun(b0.calls(), b1.calls(), c, name, k, tx, step)
            &&& resolved(b1.calls().pending(), b2.calls().pending(), c, k, result, res)
        },
    ensures
        reply_first ==> res is Stored && step == DispatchStep::Ready(result),
        !reply_first ==> step is Wait && res == Resolution::Deliver(tx, result),
        pending_at(b2.calls().pending(), c, k) is None,
{
    if reply_first {
        lemma_early_reply_is_picked_up(b0.calls(), b1.calls(), b2.calls(), c, k, name, result, tx, res, step);
    } else {
        lemma_reply_reaches_waiting_dispatch(b0.calls(), b1.calls(), b2.calls().pending(), c, k, name, result, tx, step, res);
    }
}

} // verus!
