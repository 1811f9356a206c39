//! Session persistence: handles, metadata, and an in-memory repository
//! that replays history past its last compaction.

use crate::model::{HistoryEntry, Message, MessageView, ContentView, BlockView, str_eq};
use crate::system::host::{decimal, decimal_string, digit_char};
use crate::text::string_of;
use vstd::prelude::*;

verus! {

/// Opaque handle identifying a persisted session.
#[derive(Debug, Clone, PartialEq, Eq, Hash)]
pub struct SessionHandle(pub String);

impl SessionHandle {
    /// The handle's identifier as characters.
    pub open spec fn view_of(&self) -> Seq<char> {
        self.0@
    }

    /// Construct a handle from a repo-assigned identifier.
    pub fn new(slug: &str) -> (r: SessionHandle)
        ensures
            r.view_of() == slug@,
    {
        SessionHandle(string_of(slug))
    }

    /// The raw identifier.
    pub fn as_str(&self) -> (r: &str)
        ensures
            r@ == self.view_of(),
    {
        self.0.as_str()
    }
}

/// Metadata of a conversation.
#[derive(Debug, Clone)]
pub struct ConversationMeta {
    pub agent: String,
    pub created_by: String,
    pub created_at: String,
    pub title: String,
    pub updated_at: String,
    pub message_count: u64,
    pub summary: Option<String>,
}

/// Snapshot returned by a load: meta plus the working-context history,
/// already replayed past the last compact marker.
pub struct SessionSnapshot {
    pub meta: ConversationMeta,
    pub history: Vec<HistoryEntry>,
}

/// Summary returned by a listing.
pub struct SessionSummary {
    pub handle: SessionHandle,
    pub meta: ConversationMeta,
}

/// One stored session.
pub struct SessionState {
    pub slug: String,
    pub meta: ConversationMeta,
    /// Messages appended since the last compaction.
    pub messages: Vec<HistoryEntry>,
    /// Compaction summaries, oldest first.
    pub compacts: Vec<String>,
}

/// The current time as an RFC 3339 string (`chrono::Utc::now`). The result
/// depends on the clock, so nothing is stated of it.
#[verifier::external_body]
pub(crate) fn now_rfc3339() -> String {
    chrono::Utc::now().to_rfc3339()
}

/// A copy of a meta record.
pub fn copy_meta(m: &ConversationMeta) -> (r: ConversationMeta)
    ensures
        r == *m,
{
    ConversationMeta {
        agent: m.agent.clone(),
        created_by: m.created_by.clone(),
        created_at: m.created_at.clone(),
        title: m.title.clone(),
        updated_at: m.updated_at.clone(),
        message_count: m.message_count,
        summary: match &m.summary {
            Some(s) => Some(s.clone()),
            None => None,
        },
    }
}

/// The working-context history of a session: the last compaction summary
/// as a user message (if any), then the messages appended since.
pub open spec fn replay_view(compacts: Seq<String>, messages: Seq<HistoryEntry>) -> Seq<MessageView> {
    let tail = messages.map_values(|e: HistoryEntry| e.message.view_of());
    if compacts.len() == 0 {
        tail
    } else {
        seq![
            MessageView {
                role: "user"@,
                content: ContentView::Blocks(seq![BlockView::Text { text: compacts.last()@ }]),
            },
        ] + tail
    }
}

/// The producing agents of a list of history entries.
pub open spec fn agents_view(h: Seq<HistoryEntry>) -> Seq<Seq<char>> {
    h.map_values(|e: HistoryEntry| e.agent@)
}

/// Where the replayed entries start in a loaded history: after the
/// compaction summary, when there is one.
pub open spec fn replay_offset(compacts: Seq<String>) -> int {
    if compacts.len() == 0 { 0 } else { 1 }
}

/// The messages of a list of history entries.
pub open spec fn history_view(h: Seq<HistoryEntry>) -> Seq<MessageView> {
    h.map_values(|e: HistoryEntry| e.message.view_of())
}

/// In-memory session repository.
pub struct InMemorySessionRepo {
    pub sessions: Vec<SessionState>,
    pub next_seq: u64,
}

/// The index of the session with slug `slug`.
pub open spec fn slug_index(sessions: Seq<SessionState>, slug: Seq<char>) -> Option<int> {
    if exists|i: int| 0 <= i < sessions.len() && #[trigger] sessions[i].slug@ == slug {
        Some(choose|i: int| 0 <= i < sessions.len() && #[trigger] sessions[i].slug@ == slug)
    } else {
        None
    }
}

/// `slug` ends in `_` and the decimal digits of `k`: the form of a handle
/// the repository issued with counter value `k`.
pub open spec fn numbered(slug: Seq<char>, k: nat) -> bool {
    ("_"@ + decimal(k)).is_suffix_of(slug)
}

/// `slug` was issued with a counter value in `1..=n`.
pub open spec fn issued(slug: Seq<char>, n: nat) -> bool {
    exists|k: nat| 1 <= k <= n && #[trigger] numbered(slug, k)
}

/// Decimal digits are never `_`.
proof fn lemma_decimal_digits(n: nat)
    ensures
        decimal(n).len() >= 1,
        forall|i: int| 0 <= i < decimal(n).len() ==> #[trigger] decimal(n)[i] != '_',
    decreases n,
{
    if n >= 10 {
        lemma_decimal_digits(n / 10);
        let d = decimal(n / 10);
        assert forall|i: int| 0 <= i < decimal(n).len() implies #[trigger] decimal(n)[i] != '_' by {
            if i < d.len() {
                assert(decimal(n)[i] == d[i]);
            } else {
                assert(decimal(n)[i] == digit_char(n % 10));
                assert(('0' as u32) + n % 10 < 95);
            }
        }
    } else {
        assert(('0' as u32) + n < 95);
    }
}

/// Different numbers have different decimal digits.
proof fn lemma_decimal_injective(a: nat, b: nat)
    requires
        decimal(a) == decimal(b),
    ensures
        a == b,
    decreases a,
{
    lemma_decimal_digits(a / 10);
    lemma_decimal_digits(b / 10);
    if a < 10 && b < 10 {
        assert(decimal(a)[0] == digit_char(a));
        assert(decimal(b)[0] == digit_char(b));
        assert(digit_char(a) as u32 == ('0' as u32) + a);
        assert(digit_char(b) as u32 == ('0' as u32) + b);
    } else if a < 10 {
        assert(decimal(b).len() >= 2);
    } else if b < 10 {
        assert(decimal(a).len() >= 2);
    } else {
        assert(decimal(a).last() == digit_char(a % 10));
        assert(decimal(b).last() == digit_char(b % 10));
        assert(digit_char(a % 10) as u32 == ('0' as u32) + a % 10);
        assert(digit_char(b % 10) as u32 == ('0' as u32) + b % 10);
        assert(decimal(a).drop_last() =~= decimal(a / 10));
        assert(decimal(b).drop_last() =~= decimal(b / 10));
        lemma_decimal_injective(a / 10, b / 10);
    }
}

/// A slug numbered `k` is never one numbered `m` with another prefix,
/// unless `k == m`.
proof fn lemma_numbered_unique(slug: Seq<char>, k: nat, m: nat)
    requires
        numbered(slug, k),
        numbered(slug, m),
    ensures
        k == m,
{
    lemma_decimal_digits(k);
    lemma_decimal_digits(m);
    reveal_strlit("_");
    let x = "_"@ + decimal(k);
    let y = "_"@ + decimal(m);
    let n = slug.len();
    assert(slug.subrange(n - x.len(), n as int) == x);
    assert(slug.subrange(n - y.len(), n as int) == y);
    if decimal(k).len() < decimal(m).len() {
        // the `_` before k's digits falls inside m's digits
        let p = n - x.len();
        assert(slug[p] == x[0]);
        assert(slug[p] == y[p - (n - y.len())]);
        assert(y[p - (n - y.len())] == decimal(m)[p - (n - y.len()) - 1]);
    } else if decimal(m).len() < decimal(k).len() {
        let p = n - y.len();
        assert(slug[p] == y[0]);
        assert(slug[p] == x[p - (n - x.len())]);
        assert(x[p - (n - x.len())] == decimal(k)[p - (n - x.len()) - 1]);
    } else {
        assert(decimal(k) =~= decimal(m)) by {
            assert forall|i: int| 0 <= i < decimal(k).len() implies decimal(k)[i] == decimal(m)[i] by {
                assert(x[i + 1] == slug[n - x.len() + i + 1]);
                assert(y[i + 1] == slug[n - y.len() + i + 1]);
            }
        }
        lemma_decimal_injective(k, m);
    }
}

impl InMemorySessionRepo {
    /// Slugs are unique, and each was issued with a counter value no greater
    /// than the current one.
    pub open spec fn wf(&self) -> bool {
        &&& forall|i: int, j: int|
            0 <= i < j < self.sessions@.len() ==> #[trigger] self.sessions@[i].slug@
                != #[trigger] self.sessions@[j].slug@
        &&& forall|i: int| 0 <= i < self.sessions@.len() ==> issued(#[trigger] self.sessions@[i].slug@, self.next_seq as nat)
    }

    /// The session named by `slug`, if stored.
    pub open spec fn find(&self, slug: Seq<char>) -> Option<SessionState> {
        match slug_index(self.sessions@, slug) {
            Some(i) => Some(self.sessions@[i]),
            None => None,
        }
    }

    /// An empty repository.
    pub fn new() -> (r: InMemorySessionRepo)
        ensures
            r.wf(),
            r.sessions@.len() == 0,
            r.next_seq == 0,
    {
        InMemorySessionRepo { sessions: Vec::new(), next_seq: 0 }
    }

    /// The index of the session named by `slug`.
    fn position(&self, slug: &str) -> (r: Option<usize>)
        requires
            self.wf(),
        ensures
            match r {
                Some(i) => i < self.sessions@.len() && self.sessions@[i as int].slug@ == slug@
                    && slug_index(self.sessions@, slug@) == Some(i as int),
                None => slug_index(self.sessions@, slug@) is None,
            },
    {
        let mut i: usize = 0;
        while i < self.sessions.len()
            invariant
                self.wf(),
                i <= self.sessions@.len(),
                forall|j: int| 0 <= j < i ==> #[trigger] self.sessions@[j].slug@ != slug@,
            decreases self.sessions@.len() - i,
        {
            if str_eq(self.sessions[i].slug.as_str(), slug) {
                proof {
                    let k = choose|k: int|
                        0 <= k < self.sessions@.len() && #[trigger] self.sessions@[k].slug@
                            == slug@;
                    assert(self.sessions@[i as int].slug@ == slug@);
                    if k != i {
                        if k < i {
                            assert(self.sessions@[k].slug@ != slug@);
                        } else {
                            assert(self.sessions@[i as int].slug@ != self.sessions@[k].slug@);
                        }
                    }
                }
                return Some(i);
            }
            i += 1;
        }
        None
    }

    /// Create a new session for `(agent, created_by)`. Its handle is
    /// `"{agent}_{n}"` for the next counter value `n`, which no stored
    /// session has; it fails only when the counter is exhausted.
    pub fn create(&mut self, agent: &str, created_by: &str) -> (r: Result<SessionHandle, String>)
        requires
            old(self).wf(),
        ensures
            final(self).wf(),
            r is Ok <==> old(self).next_seq < u64::MAX,
            final(self).next_seq == if old(self).next_seq < u64::MAX {
                (old(self).next_seq + 1) as u64
            } else {
                old(self).next_seq
            },
            match r {
                Ok(h) => {
                    &&& h.view_of() == agent@ + "_"@ + decimal((old(self).next_seq + 1) as nat)
                    &&& old(self).find(h.view_of()) is None
                    &&& final(self).sessions@ == old(self).sessions@.push(final(self).sessions@.last())
                    &&& final(self).sessions@.last().slug@ == h.view_of()
                    &&& final(self).sessions@.last().meta.agent@ == agent@
                    &&& final(self).sessions@.last().meta.created_by@ == created_by@
                    &&& final(self).sessions@.last().meta.title@.len() == 0
                    &&& final(self).sessions@.last().meta.message_count == 0
                    &&& final(self).sessions@.last().meta.summary is None
                    &&& final(self).sessions@.last().messages@.len() == 0
                    &&& final(self).sessions@.last().compacts@.len() == 0
                },
                Err(e) => {
                    &&& final(self).sessions@ == old(self).sessions@
                    &&& e@ == "session counter exhausted"@
                },
            },
    {
        if self.next_seq == u64::MAX {
            return Err(string_of("session counter exhausted"));
        }
        let seq = self.next_seq + 1;
        self.next_seq = seq;
        let mut slug = string_of(agent);
        slug.append("_");
        let digits = decimal_string(seq);
        slug.append(digits.as_str());
        let ghost before = self.sessions@;
        proof {
            let sv = slug@;
            assert(numbered(sv, seq as nat)) by {
                assert(sv.subrange(sv.len() - ("_"@ + decimal(seq as nat)).len(), sv.len() as int)
                    =~= "_"@ + decimal(seq as nat));
            }
            assert forall|i: int| 0 <= i < before.len() implies #[trigger] before[i].slug@ != sv by {
                assert(issued(before[i].slug@, (seq - 1) as nat));
                let k = choose|k: nat| 1 <= k <= (seq - 1) as nat && #[trigger] numbered(before[i].slug@, k);
                if before[i].slug@ == sv {
                    lemma_numbered_unique(sv, k, seq as nat);
                }
            }
            assert(slug_index(before, sv) is None);
        }
        let now = now_rfc3339();
        let meta = ConversationMeta {
            agent: string_of(agent),
            created_by: string_of(created_by),
            created_at: now.clone(),
            title: String::new(),
            updated_at: now,
            message_count: 0,
            summary: None,
        };
        let handle = SessionHandle::new(slug.as_str());
        self.sessions.push(
            SessionState { slug, meta, messages: Vec::new(), compacts: Vec::new() },
        );
        proof {
            assert forall|i: int, j: int|
                0 <= i < j < self.sessions@.len() implies #[trigger] self.sessions@[i].slug@
                != #[trigger] self.sessions@[j].slug@ by {
                assert(self.sessions@[i] == before[i]);
                if j < before.len() {
                    assert(self.sessions@[j] == before[j]);
                }
            }
            assert forall|i: int| 0 <= i < self.sessions@.len() implies issued(
                #[trigger] self.sessions@[i].slug@,
                self.next_seq as nat,
            ) by {
                if i < before.len() {
                    assert(self.sessions@[i] == before[i]);
                    assert(issued(before[i].slug@, (seq - 1) as nat));
                    let k = choose|k: nat| 1 <= k <= (seq - 1) as nat && #[trigger] numbered(before[i].slug@, k);
                    assert(numbered(self.sessions@[i].slug@, k));
                } else {
                    assert(numbered(self.sessions@[i].slug@, seq as nat));
                }
            }
            assert(self.sessions@ =~= before.push(self.sessions@.last()));
        }
        Ok(handle)
    }

    /// The latest session for an `(agent, created_by)` identity.
    pub fn find_latest(&self, agent: &str, created_by: &str) -> (r: Result<Option<SessionHandle>, String>)
        ensures
            match r {
                Ok(Some(h)) => exists|i: int|
                    0 <= i < self.sessions@.len() && #[trigger] self.sessions@[i].slug@
                        == h.view_of() && self.sessions@[i].meta.agent@ == agent@
                        && self.sessions@[i].meta.created_by@ == created_by@
                        && forall|j: int| i < j < self.sessions@.len() ==> !(#[trigger] self.sessions@[j].meta.agent@
                            == agent@ && self.sessions@[j].meta.created_by@ == created_by@),
                Ok(None) => forall|i: int|
                    0 <= i < self.sessions@.len() ==> !(#[trigger] self.sessions@[i].meta.agent@
                        == agent@ && self.sessions@[i].meta.created_by@ == created_by@),
                Err(_) => false,
            },
    {
        let mut i = self.sessions.len();
        while i > 0
            invariant
                i <= self.sessions@.len(),
                forall|j: int|
                    i <= j < self.sessions@.len() ==> !(#[trigger] self.sessions@[j].meta.agent@
                        == agent@ && self.sessions@[j].meta.created_by@ == created_by@),
            decreases i,
        {
            let s = &self.sessions[i - 1];
            if str_eq(s.meta.agent.as_str(), agent) && str_eq(s.meta.created_by.as_str(), created_by) {
                let h = SessionHandle::new(s.slug.as_str());
                assert(self.sessions@[i - 1].slug@ == h.view_of());
                return Ok(Some(h));
            }
            i -= 1;
        }
        Ok(None)
    }

    /// Load a session's meta and working-context history: the last
    /// compaction summary as a user message, then what was appended since.
    pub fn load(&self, handle: &SessionHandle) -> (r: Result<Option<SessionSnapshot>, String>)
        requires
            self.wf(),
        ensures
            match r {
                Ok(Some(snap)) => self.find(handle.view_of()) matches Some(s) && snap.meta == s.meta
                    && history_view(snap.history@) == replay_view(s.compacts@, s.messages@)
                    && agents_view(snap.history@.skip(replay_offset(s.compacts@))) == agents_view(s.messages@),
                Ok(None) => self.find(handle.view_of()) is None,
                Err(_) => false,
            },
    {
        let Some(i) = self.position(handle.as_str()) else {
            return Ok(None);
        };
        let s = &self.sessions[i];
        let mut history: Vec<HistoryEntry> = Vec::new();
        let n = s.compacts.len();
        if n > 0 {
            history.push(HistoryEntry::user(s.compacts[n - 1].as_str()));
        }
        let ghost start = history@;
        let mut k: usize = 0;
        while k < s.messages.len()
            invariant
                k <= s.messages@.len(),
                history@ == start + history@.subrange(start.len() as int, history@.len() as int),
                history_view(history@) == history_view(start) + history_view(s.messages@.take(k as int)),
                start.len() == replay_offset(s.compacts@),
                agents_view(history@.subrange(start.len() as int, history@.len() as int)) == agents_view(
                    s.messages@.take(k as int),
                ),
            decreases s.messages@.len() - k,
        {
            let e = &s.messages[k];
            let copy = HistoryEntry {
                agent: e.agent.clone(),
                sender: e.sender.clone(),
                auto_injected: e.auto_injected,
                message: e.message.copy(),
            };
            let ghost before = history@;
            history.push(copy);
            proof {
                assert(s.messages@.take(k + 1) =~= s.messages@.take(k as int).push(s.messages@[k as int]));
                assert(history_view(history@) =~= history_view(before).push(copy.message.view_of()));
                assert(history_view(s.messages@.take(k + 1)) =~= history_view(s.messages@.take(k as int)).push(
                    s.messages@[k as int].message.view_of(),
                ));
                assert(history@.subrange(start.len() as int, history@.len() as int) =~= before.subrange(
                    start.len() as int,
                    before.len() as int,
                ).push(copy));
                assert(agents_view(history@.subrange(start.len() as int, history@.len() as int)) =~= agents_view(
                    before.subrange(start.len() as int, before.len() as int),
                ).push(copy.agent@));
                assert(agents_view(s.messages@.take(k + 1)) =~= agents_view(s.messages@.take(k as int)).push(
                    s.messages@[k as int].agent@,
                ));
            }
            k += 1;
        }
        proof {
            assert(s.messages@.take(k as int) =~= s.messages@);
            if n > 0 {
                assert(history_view(start) =~= seq![
                    MessageView {
                        role: "user"@,
                        content: ContentView::Blocks(seq![BlockView::Text { text: s.compacts@.last()@ }]),
                    },
                ]);
            } else {
                assert(history_view(start) =~= Seq::<MessageView>::empty());
            }
            assert(history_view(history@) =~= replay_view(s.compacts@, s.messages@));
            assert(history@.skip(replay_offset(s.compacts@)) =~= history@.subrange(
                start.len() as int,
                history@.len() as int,
            ));
        }
        Ok(Some(SessionSnapshot { meta: copy_meta(&s.meta), history }))
    }

    /// List all sessions.
    pub fn list_sessions(&self) -> (r: Result<Vec<SessionSummary>, String>)
        ensures
            match r {
                Ok(list) => list@.len() == self.sessions@.len() && forall|i: int|
                    0 <= i < list@.len() ==> #[trigger] list@[i].handle.view_of()
                        == self.sessions@[i].slug@ && list@[i].meta == self.sessions@[i].meta,
                Err(_) => false,
            },
    {
        let mut out: Vec<SessionSummary> = Vec::new();
        let mut i: usize = 0;
        while i < self.sessions.len()
            invariant
                i <= self.sessions@.len(),
                out@.len() == i,
                forall|j: int|
                    0 <= j < i ==> #[trigger] out@[j].handle.view_of() == self.sessions@[j].slug@
                        && out@[j].meta == self.sessions@[j].meta,
            decreases self.sessions@.len() - i,
        {
            let s = &self.sessions[i];
            out.push(
                SessionSummary {
                    handle: SessionHandle::new(s.slug.as_str()),
                    meta: copy_meta(&s.meta),
                },
            );
            i += 1;
        }
        Ok(out)
    }

    /// Append history entries to a session; nothing happens for an unknown
    /// handle. Auto-injected entries are filtered by the caller.
    pub fn append_messages(&mut self, handle: &SessionHandle, entries: &[HistoryEntry]) -> (r: Result<(), String>)
        requires
            old(self).wf(),
        ensures
            final(self).wf(),
            r is Ok,
            final(self).sessions@.len() == old(self).sessions@.len(),
            match slug_index(old(self).sessions@, handle.view_of()) {
                Some(i) => {
                    &&& final(self).sessions@ == old(self).sessions@.update(i, final(self).sessions@[i])
                    &&& final(self).sessions@[i].slug == old(self).sessions@[i].slug
                    &&& final(self).sessions@[i].meta == old(self).sessions@[i].meta
                    &&& final(self).sessions@[i].compacts == old(self).sessions@[i].compacts
                    &&& history_view(final(self).sessions@[i].messages@) == history_view(
                        old(self).sessions@[i].messages@,
                    ) + history_view(entries@)
                    &&& agents_view(final(self).sessions@[i].messages@) == agents_view(
                        old(self).sessions@[i].messages@,
                    ) + agents_view(entries@)
                },
                None => final(self).sessions@ == old(self).sessions@,
            },
    {
        let Some(i) = self.position(handle.as_str()) else {
            return Ok(());
        };
        let mut s = self.sessions.remove(i);
        let ghost m0 = s.messages@;
        let ghost s0 = s;
        let mut k: usize = 0;
        while k < entries.len()
            invariant
                k <= entries@.len(),
                s.slug == s0.slug,
                s.meta == s0.meta,
                s.compacts == s0.compacts,
                history_view(s.messages@) == history_view(m0) + history_view(entries@.take(k as int)),
                agents_view(s.messages@) == agents_view(m0) + agents_view(entries@.take(k as int)),
            decreases entries@.len() - k,
        {
            let e = &entries[k];
            let copy = HistoryEntry {
                agent: e.agent.clone(),
                sender: e.sender.clone(),
                auto_injected: e.auto_injected,
                message: e.message.copy(),
            };
            let ghost before = s.messages@;
            s.messages.push(copy);
            proof {
                assert(entries@.take(k + 1) =~= entries@.take(k as int).push(entries@[k as int]));
                assert(history_view(s.messages@) =~= history_view(before).push(copy.message.view_of()));
                assert(history_view(entries@.take(k + 1)) =~= history_view(entries@.take(k as int)).push(
                    entries@[k as int].message.view_of(),
                ));
                assert(agents_view(s.messages@) =~= agents_view(before).push(copy.agent@));
                assert(agents_view(entries@.take(k + 1)) =~= agents_view(entries@.take(k as int)).push(
                    entries@[k as int].agent@,
                ));
            }
            k += 1;
        }
        assert(entries@.take(k as int) =~= entries@);
        let ghost old_sessions = old(self).sessions@;
        self.sessions.insert(i, s);
        proof {
            assert(self.sessions@ =~= old_sessions.update(i as int, s));
            assert forall|a: int, b: int|
                0 <= a < b < self.sessions@.len() implies #[trigger] self.sessions@[a].slug@
                != #[trigger] self.sessions@[b].slug@ by {
                assert(self.sessions@[a].slug == old_sessions[a].slug);
                assert(self.sessions@[b].slug == old_sessions[b].slug);
            }
        }
        Ok(())
    }

    /// Append a compaction marker: the summary becomes the start of the
    /// working context and the messages before it are archived.
    pub fn append_compact(&mut self, handle: &SessionHandle, summary: &str) -> (r: Result<(), String>)
        requires
            old(self).wf(),
        ensures
            final(self).wf(),
            r is Ok,
            final(self).sessions@.len() == old(self).sessions@.len(),
            match slug_index(old(self).sessions@, handle.view_of()) {
                Some(i) => {
                    &&& final(self).sessions@ == old(self).sessions@.update(i, final(self).sessions@[i])
                    &&& final(self).sessions@[i].slug == old(self).sessions@[i].slug
                    &&& final(self).sessions@[i].meta == old(self).sessions@[i].meta
                    &&& final(self).sessions@[i].messages@.len() == 0
                    &&& final(self).sessions@[i].compacts@.len() > 0
                    &&& final(self).sessions@[i].compacts@.last()@ == summary@
                },
                None => final(self).sessions@ == old(self).sessions@,
            },
    {
        let Some(i) = self.position(handle.as_str()) else {
            return Ok(());
        };
        let mut s = self.sessions.remove(i);
        s.compacts.push(string_of(summary));
        s.messages = Vec::new();
        let ghost old_sessions = old(self).sessions@;
        self.sessions.insert(i, s);
        proof {
            assert(self.sessions@ =~= old_sessions.update(i as int, s));
            assert forall|a: int, b: int|
                0 <= a < b < self.sessions@.len() implies #[trigger] self.sessions@[a].slug@
                != #[trigger] self.sessions@[b].slug@ by {
                assert(self.sessions@[a].slug == old_sessions[a].slug);
                assert(self.sessions@[b].slug == old_sessions[b].slug);
            }
        }
        Ok(())
    }

    /// Overwrite session metadata; the handle does not change.
    pub fn update_meta(&mut self, handle: &SessionHandle, meta: &ConversationMeta) -> (r: Result<(), String>)
        requires
            old(self).wf(),
        ensures
            final(self).wf(),
            r is Ok,
            final(self).sessions@.len() == old(self).sessions@.len(),
            match slug_index(old(self).sessions@, handle.view_of()) {
                Some(i) => {
                    &&& final(self).sessions@ == old(self).sessions@.update(i, final(self).sessions@[i])
                    &&& final(self).sessions@[i].slug == old(self).sessions@[i].slug
                    &&& final(self).sessions@[i].meta == *meta
                    &&& final(self).sessions@[i].messages == old(self).sessions@[i].messages
                    &&& final(self).sessions@[i].compacts == old(self).sessions@[i].compacts
                },
                None => final(self).sessions@ == old(self).sessions@,
            },
    {
        let Some(i) = self.position(handle.as_str()) else {
            return Ok(());
        };
        let mut s = self.sessions.remove(i);
        s.meta = copy_meta(meta);
        let ghost old_sessions = old(self).sessions@;
        self.sessions.insert(i, s);
        proof {
            assert(self.sessions@ =~= old_sessions.update(i as int, s));
            assert forall|a: int, b: int|
                0 <= a < b < self.sessions@.len() implies #[trigger] self.sessions@[a].slug@
                != #[trigger] self.sessions@[b].slug@ by {
                assert(self.sessions@[a].slug == old_sessions[a].slug);
                assert(self.sessions@[b].slug == old_sessions[b].slug);
            }
        }
        Ok(())
    }

    /// Delete a session entirely. Returns `true` if it existed.
    pub fn delete(&mut self, handle: &SessionHandle) -> (r: Result<bool, String>)
        requires
            old(self).wf(),
        ensures
            final(self).wf(),
            match slug_index(old(self).sessions@, handle.view_of()) {
                Some(i) => r == Ok::<bool, String>(true) && final(self).sessions@
                    == old(self).sessions@.remove(i),
                None => r == Ok::<bool, String>(false) && final(self).sessions@
                    == old(self).sessions@,
            },
            final(self).find(handle.view_of()) is None,
    {
        let Some(i) = self.position(handle.as_str()) else {
            return Ok(false);
        };
        let ghost old_sessions = old(self).sessions@;
        self.sessions.remove(i);
        proof {
            assert forall|a: int, b: int|
                0 <= a < b < self.sessions@.len() implies #[trigger] self.sessions@[a].slug@
                != #[trigger] self.sessions@[b].slug@ by {
                let a0 = if a < i { a } else { a + 1 };
                let b0 = if b < i { b } else { b + 1 };
                assert(self.sessions@[a] == old_sessions[a0]);
                assert(self.sessions@[b] == old_sessions[b0]);
            }
            if exists|k: int| 0 <= k < self.sessions@.len() && #[trigger] self.sessions@[k].slug@
                == handle.view_of() {
                let k = choose|k: int| 0 <= k < self.sessions@.len() && #[trigger] self.sessions@[k].slug@
                    == handle.view_of();
                let k0 = if k < i { k } else { k + 1 };
                assert(self.sessions@[k] == old_sessions[k0]);
                assert(old_sessions[i as int].slug@ == handle.view_of());
            }
        }
        Ok(true)
    }
}

// ── Laws ────────────────────────────────────────────────────────────

/// What a load reads back is what was written: after a compaction with
/// `summary` and then an append of `entries`, a session's working context
/// is the summary as a user message followed by exactly those entries.
pub proof fn lemma_load_after_compact_and_append(summary: Seq<char>, compacts: Seq<String>, entries: Seq<HistoryEntry>)
    requires
        compacts.len() > 0,
        compacts.last()@ == summary,
    ensures
        replay_view(compacts, entries) == seq![
            MessageView {
                role: "user"@,
                content: ContentView::Blocks(seq![BlockView::Text { text: summary }]),
            },
        ] + history_view(entries),
{
}

/// Without a compaction, the working context is every appended entry in
/// order.
pub proof fn lemma_load_without_compact(messages: Seq<HistoryEntry>)
    ensures
        replay_view(Seq::empty(), messages) == history_view(messages),
{
}

} // verus!
