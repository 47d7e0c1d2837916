//! Session records and storage backends.

use vstd::prelude::*;

verus! {

/// Broker-assigned session identifier: a version-4 UUID as its 128-bit
/// value.
#[derive(Debug, Clone, Copy, PartialEq, Eq, Hash, Structural)]
pub struct SessionId(pub u128);

/// Session lifecycle status.
#[derive(Debug, Clone, Copy, PartialEq, Eq, Structural)]
pub enum SessionStatus {
    /// Queued but not yet started.
    Pending,
    /// Currently running.
    Running,
    /// Completed successfully.
    Completed,
    /// Failed.
    Failed,
    /// Cancelled.
    Cancelled,
}

/// Whether a status is terminal. Once a session reaches a terminal status
/// it stays there: a later status update is a no-op.
pub open spec fn is_terminal(s: SessionStatus) -> bool {
    s is Completed || s is Failed || s is Cancelled
}

/// Execution context for an agent session: the working directory and an
/// opaque key-to-JSON metadata map the broker does not interpret.
#[derive(Debug)]
pub struct ExecutionContext {
    /// Working directory for the agent session.
    pub working_dir: String,
    /// Arbitrary metadata for app-specific needs, in insertion order.
    pub metadata: Vec<(String, serde_json::Value)>,
}

/// The value stored under a key, taking the first entry that matches.
pub open spec fn meta_lookup(
    md: Seq<(String, serde_json::Value)>,
    key: Seq<char>,
) -> Option<serde_json::Value>
    decreases md.len(),
{
    if md.len() == 0 {
        None
    } else if md[0].0@ == key {
        Some(md[0].1)
    } else {
        meta_lookup(md.drop_first(), key)
    }
}

proof fn lemma_meta_lookup_prefix_miss(md: Seq<(String, serde_json::Value)>, key: Seq<char>, i: int)
    requires
        0 <= i <= md.len(),
        forall|j: int| 0 <= j < i ==> (#[trigger] md[j]).0@ != key,
    ensures
        meta_lookup(md, key) == meta_lookup(md.skip(i), key),
    decreases i,
{
    if i > 0 {
        assert(md[0].0@ != key);
        assert forall|j: int| 0 <= j < i - 1 implies (#[trigger] md.drop_first()[j]).0@ != key by {
            assert(md.drop_first()[j] == md[j + 1]);
        }
        lemma_meta_lookup_prefix_miss(md.drop_first(), key, i - 1);
        assert(md.drop_first().skip(i - 1) =~= md.skip(i));
    } else {
        assert(md.skip(0) =~= md);
    }
}

proof fn lemma_meta_lookup_update(
    md: Seq<(String, serde_json::Value)>,
    md2: Seq<(String, serde_json::Value)>,
    i: int,
    key: Seq<char>,
)
    requires
        0 <= i < md.len(),
        md2.len() == md.len(),
        forall|j: int| 0 <= j < md.len() && j != i ==> #[trigger] md2[j] == md[j],
        md[i].0@ == key,
        md2[i].0@ == key,
        forall|j: int| 0 <= j < i ==> (#[trigger] md[j]).0@ != key,
    ensures
        meta_lookup(md2, key) == Some(md2[i].1),
        forall|k2: Seq<char>|
            k2 != key ==> #[trigger] meta_lookup(md2, k2) == meta_lookup(md, k2),
    decreases md.len(),
{
    if i == 0 {
        assert(md2[0].0@ == key);
        assert(meta_lookup(md2, key) == Some(md2[0].1));
        assert forall|k2: Seq<char>|
            k2 != key implies #[trigger] meta_lookup(md2, k2) == meta_lookup(md, k2) by {
            assert(md2.drop_first() =~= md.drop_first());
            assert(md2[0].0@ != k2);
            assert(md[0].0@ != k2);
            assert(meta_lookup(md2, k2) == meta_lookup(md2.drop_first(), k2));
            assert(meta_lookup(md, k2) == meta_lookup(md.drop_first(), k2));
        }
    } else {
        assert(md2[0] == md[0]);
        assert forall|j: int|
            0 <= j < md.drop_first().len() && j != i - 1 implies #[trigger] md2.drop_first()[j]
            == md.drop_first()[j] by {
            assert(md2.drop_first()[j] == md2[j + 1]);
            assert(md.drop_first()[j] == md[j + 1]);
        }
        assert forall|j: int|
            0 <= j < i - 1 implies (#[trigger] md.drop_first()[j]).0@ != key by {
            assert(md.drop_first()[j] == md[j + 1]);
        }
        assert(md.drop_first()[i - 1] == md[i]);
        assert(md2.drop_first()[i - 1] == md2[i]);
        lemma_meta_lookup_update(md.drop_first(), md2.drop_first(), i - 1, key);
        assert(md[0].0@ != key);
        assert(md2[0].0@ != key);
        assert(meta_lookup(md2, key) == meta_lookup(md2.drop_first(), key));
        assert(meta_lookup(md2, key) == Some(md2[i].1));
        assert forall|k2: Seq<char>|
            k2 != key implies #[trigger] meta_lookup(md2, k2) == meta_lookup(md, k2) by {
            if md[0].0@ == k2 {
                assert(meta_lookup(md2, k2) == Some(md2[0].1));
                assert(meta_lookup(md, k2) == Some(md[0].1));
            } else {
                assert(meta_lookup(md2, k2) == meta_lookup(md2.drop_first(), k2));
                assert(meta_lookup(md, k2) == meta_lookup(md.drop_first(), k2));
            }
        }
    }
}

proof fn lemma_meta_lookup_push(
    md: Seq<(String, serde_json::Value)>,
    e: (String, serde_json::Value),
)
    requires
        forall|j: int| 0 <= j < md.len() ==> (#[trigger] md[j]).0@ != e.0@,
    ensures
        meta_lookup(md.push(e), e.0@) == Some(e.1),
        forall|k2: Seq<char>|
            k2 != e.0@ ==> #[trigger] meta_lookup(md.push(e), k2) == meta_lookup(md, k2),
    decreases md.len(),
{
    if md.len() == 0 {
        assert(md.push(e)[0] == e);
        assert(meta_lookup(md.push(e), e.0@) == Some(e.1));
        assert forall|k2: Seq<char>|
            k2 != e.0@ implies #[trigger] meta_lookup(md.push(e), k2) == meta_lookup(md, k2) by {
            assert(md.push(e)[0] == e);
            assert(md.push(e)[0].0@ != k2);
            assert(md.push(e).drop_first() =~= Seq::<(String, serde_json::Value)>::empty());
            assert(meta_lookup(md.push(e), k2) == meta_lookup(md.push(e).drop_first(), k2));
        }
    } else {
        assert(md.push(e)[0] == md[0]);
        assert(md.push(e).drop_first() =~= md.drop_first().push(e));
        assert forall|j: int|
            0 <= j < md.drop_first().len() implies (#[trigger] md.drop_first()[j]).0@ != e.0@ by {
            assert(md.drop_first()[j] == md[j + 1]);
        }
        lemma_meta_lookup_push(md.drop_first(), e);
        assert(md[0].0@ != e.0@);
        assert(meta_lookup(md.push(e), e.0@) == meta_lookup(md.drop_first().push(e), e.0@));
        assert(meta_lookup(md.push(e), e.0@) == Some(e.1));
        assert forall|k2: Seq<char>|
            k2 != e.0@ implies #[trigger] meta_lookup(md.push(e), k2) == meta_lookup(md, k2) by {
            if md[0].0@ == k2 {
                assert(meta_lookup(md.push(e), k2) == Some(md.push(e)[0].1));
                assert(meta_lookup(md, k2) == Some(md[0].1));
            } else {
                assert(meta_lookup(md.push(e), k2) == meta_lookup(md.drop_first().push(e), k2));
                assert(meta_lookup(md, k2) == meta_lookup(md.drop_first(), k2));
            }
        }
    }
}

impl ExecutionContext {
    /// Create a context with just a working directory.
    pub fn new(working_dir: String) -> (r: Self)
        ensures
            r.working_dir == working_dir,
            r.metadata@ == Seq::<(String, serde_json::Value)>::empty(),
    {
        ExecutionContext { working_dir, metadata: Vec::new() }
    }

    /// Create a context with metadata.
    pub fn with_metadata(working_dir: String, metadata: Vec<(String, serde_json::Value)>) -> (r:
        Self)
        ensures
            r.working_dir == working_dir,
            r.metadata == metadata,
    {
        ExecutionContext { working_dir, metadata }
    }

    /// Get a metadata value by key: exactly the value stored under it.
    pub fn get_metadata(&self, key: &String) -> (r: Option<&serde_json::Value>)
        ensures
            r is Some <==> meta_lookup(self.metadata@, key@) is Some,
            r matches Some(v) ==> meta_lookup(self.metadata@, key@) == Some(*v),
    {
        let n = self.metadata.len();
        let mut i: usize = 0;
        while i < n
            invariant
                i <= n,
                n == self.metadata@.len(),
                forall|j: int| 0 <= j < i ==> (#[trigger] self.metadata@[j]).0@ != key@,
            decreases n - i,
        {
            if self.metadata[i].0 == *key {
                proof {
                    assert((self.metadata@[i as int]).0@ == key@);
                    lemma_meta_lookup_prefix_miss(self.metadata@, key@, i as int);
                    assert(self.metadata@.skip(i as int)[0] == self.metadata@[i as int]);
                }
                return Some(&self.metadata[i].1);
            }
            i = i + 1;
        }
        proof {
            lemma_meta_lookup_prefix_miss(self.metadata@, key@, n as int);
            assert(self.metadata@.skip(n as int) =~= Seq::<(String, serde_json::Value)>::empty());
        }
        None
    }

    /// Set a metadata value: afterwards the key holds exactly `value`, and
    /// every other key holds what it held before.
    pub fn set_metadata(&mut self, key: String, value: serde_json::Value)
        ensures
            final(self).working_dir == old(self).working_dir,
            meta_lookup(final(self).metadata@, key@) == Some(value),
            forall|k2: Seq<char>|
                k2 != key@ ==> #[trigger] meta_lookup(final(self).metadata@, k2) == meta_lookup(
                    old(self).metadata@,
                    k2,
                ),
    {
        let ghost kv = key@;
        let n = self.metadata.len();
        let mut i: usize = 0;
        while i < n
            invariant
                i <= n,
                n == self.metadata@.len(),
                kv == key@,
                self.working_dir == old(self).working_dir,
                self.metadata@ == old(self).metadata@,
                forall|j: int| 0 <= j < i ==> (#[trigger] self.metadata@[j]).0@ != key@,
            decreases n - i,
        {
            if self.metadata[i].0 == *(&key) {
                let _ = self.metadata.remove(i);
                self.metadata.insert(i, (key, value));
                proof {
                    assert(self.metadata@ =~= old(self).metadata@.update(i as int, (key, value)));
                    assert(self.metadata@[i as int] == (key, value));
                    assert((self.metadata@[i as int]).0@ == kv);
                    assert((self.metadata@[i as int]).1 == value);
                    lemma_meta_lookup_update(old(self).metadata@, self.metadata@, i as int, kv);
                }
                return ;
            }
            i = i + 1;
        }
        self.metadata.push((key, value));
        proof {
            let m = self.metadata@.len() - 1;
            assert(self.metadata@ =~= old(self).metadata@.push((key, value)));
            assert(self.metadata@[m] == (key, value));
            assert((self.metadata@[m]).0@ == kv);
            assert((self.metadata@[m]).1 == value);
            lemma_meta_lookup_push(old(self).metadata@, self.metadata@[m]);
        }
    }
}

impl Clone for ExecutionContext {
    fn clone(&self) -> (r: Self)
        ensures
            r@ == self@,
    {
        let n = self.metadata.len();
        let mut md: Vec<(String, serde_json::Value)> = Vec::new();
        let mut i: usize = 0;
        while i < n
            invariant
                i <= n,
                n == self.metadata@.len(),
                md@ == self.metadata@.take(i as int),
            decreases n - i,
        {
            let k = self.metadata[i].0.clone();
            let v = crate::jsonval::value_clone(&self.metadata[i].1);
            proof {
                assert((k, v) == self.metadata@[i as int]);
            }
            md.push((k, v));
            proof {
                assert(md@ =~= self.metadata@.take(i as int + 1));
            }
            i = i + 1;
        }
        proof {
            assert(self.metadata@.take(n as int) =~= self.metadata@);
        }
        ExecutionContext { working_dir: self.working_dir.clone(), metadata: md }
    }
}

/// Mathematical value of an execution context. Metadata values are opaque
/// JSON documents and are compared as such.
pub struct CtxV {
    pub working_dir: Seq<char>,
    pub metadata: Seq<(String, serde_json::Value)>,
}

impl View for ExecutionContext {
    type V = CtxV;

    open spec fn view(&self) -> CtxV {
        CtxV { working_dir: self.working_dir@, metadata: self.metadata@ }
    }
}

/// Persisted session record.
#[derive(Debug)]
pub struct Session {
    /// Unique session identifier.
    pub id: SessionId,
    /// Execution context.
    pub context: ExecutionContext,
    /// Current status.
    pub status: SessionStatus,
    /// The agent's own session id, once announced (enables follow-up).
    pub agent_session_id: Option<String>,
    /// Creation timestamp (Unix seconds).
    pub created_at: i64,
    /// Last update timestamp (Unix seconds).
    pub updated_at: i64,
}

/// Mathematical value of a session record.
pub struct SessionV {
    pub id: SessionId,
    pub context: CtxV,
    pub status: SessionStatus,
    pub agent_session_id: Option<Seq<char>>,
    pub created_at: i64,
    pub updated_at: i64,
}

impl View for Session {
    type V = SessionV;

    open spec fn view(&self) -> SessionV {
        SessionV {
            id: self.id,
            context: self.context@,
            status: self.status,
            agent_session_id: match self.agent_session_id {
                Some(s) => Some(s@),
                None => None,
            },
            created_at: self.created_at,
            updated_at: self.updated_at,
        }
    }
}

impl Clone for Session {
    fn clone(&self) -> (r: Self)
        ensures
            r@ == self@,
    {
        let agent = match &self.agent_session_id {
            Some(s) => Some(s.clone()),
            None => None,
        };
        Session {
            id: self.id,
            context: self.context.clone(),
            status: self.status,
            agent_session_id: agent,
            created_at: self.created_at,
            updated_at: self.updated_at,
        }
    }
}

/// Filter for session listing.
#[derive(Debug)]
pub struct SessionFilter {
    /// Keep only sessions with this status.
    pub status: Option<SessionStatus>,
    /// Keep only sessions with this working directory.
    pub working_dir: Option<String>,
    /// Return at most this many sessions.
    pub limit: Option<usize>,
}

impl Default for SessionFilter {
    fn default() -> (r: Self)
        ensures
            r.status is None,
            r.working_dir is None,
            r.limit is None,
    {
        SessionFilter { status: None, working_dir: None, limit: None }
    }
}

/// Storage failure.
#[derive(Debug)]
pub enum StorageError {
    /// No session with the given id.
    NotFound(SessionId),
    /// Backend failure, described in text.
    Internal(String),
}

/// Relies on std::time::SystemTime::now and the distance to the Unix epoch:
/// the current time in whole seconds, clamped to zero before the epoch and
/// to the type's maximum far in the future. Never negative.
#[verifier::external_body]
pub fn now() -> (r: i64)
    ensures
        r >= 0,
{
    match std::time::SystemTime::now().duration_since(std::time::UNIX_EPOCH) {
        Ok(d) => d.as_secs().min(i64::MAX as u64) as i64,
        Err(_) => 0,
    }
}

/// Relies on uuid::Uuid::new_v4: a fresh random version-4 UUID, returned as
/// its 128-bit value. The result is random, so nothing is promised of it;
/// the call aborts the process if the operating system's randomness source
/// fails, an environmental failure outside any contract here.
#[verifier::external_body]
fn uuid_new_v4() -> (r: u128)
{
    uuid::Uuid::new_v4().as_u128()
}

/// Whether a session passes a filter.
pub open spec fn passes(s: SessionV, status: Option<SessionStatus>, wd: Option<Seq<char>>) -> bool {
    &&& (status matches Some(st) ==> s.status == st)
    &&& (wd matches Some(w) ==> s.context.working_dir == w)
}

/// The subsequence of sessions that pass a filter, in stored order.
pub open spec fn filtered(
    s: Seq<SessionV>,
    status: Option<SessionStatus>,
    wd: Option<Seq<char>>,
) -> Seq<SessionV>
    decreases s.len(),
{
    if s.len() == 0 {
        s
    } else {
        let front = filtered(s.drop_last(), status, wd);
        if passes(s.last(), status, wd) {
            front.push(s.last())
        } else {
            front
        }
    }
}

/// Sessions ordered by creation time, newest first.
pub open spec fn sorted_desc(s: Seq<SessionV>) -> bool {
    forall|i: int, j: int| 0 <= i < j < s.len() ==> s[i].created_at >= s[j].created_at
}

/// The sessions after a status update at index `j`: only that record
/// changed, and only its status and update timestamp. A record already in
/// a terminal status is left exactly as it was: terminal statuses are
/// absorbing.
pub open spec fn updated_status_at(
    pre: Seq<SessionV>,
    post: Seq<SessionV>,
    j: int,
    id: SessionId,
    status: SessionStatus,
) -> bool {
    &&& 0 <= j < pre.len()
    &&& pre[j].id == id
    &&& post.len() == pre.len()
    &&& (forall|k: int| 0 <= k < pre.len() && k != j ==> #[trigger] post[k] == pre[k])
    &&& post[j].id == pre[j].id
    &&& post[j].context == pre[j].context
    &&& post[j].status == (if is_terminal(pre[j].status) {
        pre[j].status
    } else {
        status
    })
    &&& post[j].agent_session_id == pre[j].agent_session_id
    &&& post[j].created_at == pre[j].created_at
    &&& (is_terminal(pre[j].status) ==> post[j].updated_at == pre[j].updated_at)
    &&& (!is_terminal(pre[j].status) ==> post[j].updated_at >= 0)
}

/// Law: session statuses are monotone. Once a stored record is in a
/// terminal status, a status update leaves it terminal (indeed unchanged),
/// and no other record's status moves at all.
pub proof fn lemma_status_monotonic(
    pre: Seq<SessionV>,
    post: Seq<SessionV>,
    j: int,
    id: SessionId,
    status: SessionStatus,
    k: int,
)
    requires
        updated_status_at(pre, post, j, id, status),
        0 <= k < pre.len(),
        is_terminal(pre[k].status),
    ensures
        is_terminal(post[k].status),
        post[k].status == pre[k].status,
{
}

/// The sessions after recording an agent session id at index `j`.
pub open spec fn updated_agent_at(
    pre: Seq<SessionV>,
    post: Seq<SessionV>,
    j: int,
    id: SessionId,
    agent: Seq<char>,
) -> bool {
    &&& 0 <= j < pre.len()
    &&& pre[j].id == id
    &&& post.len() == pre.len()
    &&& (forall|k: int| 0 <= k < pre.len() && k != j ==> #[trigger] post[k] == pre[k])
    &&& post[j].id == pre[j].id
    &&& post[j].context == pre[j].context
    &&& post[j].status == pre[j].status
    &&& post[j].agent_session_id == Some(agent)
    &&& post[j].created_at == pre[j].created_at
    &&& post[j].updated_at >= 0
}

/// Behavioral contract for session storage backends.
pub trait SessionStorage: Sized {
    /// The stored sessions, in creation order.
    spec fn sessions(&self) -> Seq<SessionV>;

    /// The stored output blob of a session, if any.
    spec fn output_of(&self, id: SessionId) -> Option<Seq<u8>>;

    /// Backend invariant; among other things it keeps session ids unique.
    spec fn storage_wf(&self) -> bool;

    /// Insert a fresh `Pending` session with a new unique id and an empty
    /// output blob.
    fn create(&mut self, ctx: &ExecutionContext) -> (r: Result<SessionId, StorageError>)
        requires
            old(self).storage_wf(),
        ensures
            final(self).storage_wf(),
            r matches Ok(id) ==> {
                &&& forall|j: int|
                    0 <= j < old(self).sessions().len() ==> (#[trigger] old(self).sessions()[j]).id != id
                &&& final(self).sessions().len() == old(self).sessions().len() + 1
                &&& final(self).sessions().take(old(self).sessions().len() as int) == old(self).sessions()
                &&& final(self).sessions().last().id == id
                &&& final(self).sessions().last().context == ctx@
                &&& final(self).sessions().last().status is Pending
                &&& final(self).sessions().last().agent_session_id is None
                &&& final(self).sessions().last().created_at >= 0
                &&& final(self).sessions().last().updated_at == final(self).sessions().last().created_at
                &&& final(self).output_of(id) == Some(Seq::<u8>::empty())
                &&& forall|id2: SessionId|
                    id2 != id ==> #[trigger] final(self).output_of(id2) == old(self).output_of(
                        id2,
                    )
            },
            r is Err ==> final(self).sessions() == old(self).sessions(),
    ;

    /// Fetch a session by id.
    fn get(&self, id: SessionId) -> (r: Result<Option<Session>, StorageError>)
        requires
            self.storage_wf(),
        ensures
            r matches Ok(o) ==> {
                &&& (o is Some <==> exists|j: int|
                    0 <= j < self.sessions().len() && (#[trigger] self.sessions()[j]).id == id)
                &&& (o matches Some(s) ==> self.sessions().contains(s@) && s@.id == id)
            },
            r matches Err(e) ==> !(e is NotFound),
    ;

    /// Update a session's status (and its update timestamp).
    fn update_status(&mut self, id: SessionId, status: SessionStatus) -> (r: Result<
        (),
        StorageError,
    >)
        requires
            old(self).storage_wf(),
        ensures
            final(self).storage_wf(),
            r is Ok ==> exists|j: int| #[trigger] updated_status_at(
                old(self).sessions(),
                final(self).sessions(),
                j,
                id,
                status,
            ),
            r matches Err(e) ==> {
                &&& final(self).sessions() == old(self).sessions()
                &&& (e matches StorageError::NotFound(id2) ==> id2 == id && !exists|j: int|
                    0 <= j < old(self).sessions().len() && (#[trigger] old(self).sessions()[j]).id
                        == id)
            },
            forall|id2: SessionId| #[trigger]
                final(self).output_of(id2) == old(self).output_of(id2),
    ;

    /// Record the agent's own session id.
    fn set_agent_session_id(&mut self, id: SessionId, agent_session_id: String) -> (r: Result<
        (),
        StorageError,
    >)
        requires
            old(self).storage_wf(),
        ensures
            final(self).storage_wf(),
            r is Ok ==> exists|j: int| #[trigger] updated_agent_at(
                old(self).sessions(),
                final(self).sessions(),
                j,
                id,
                agent_session_id@,
            ),
            r matches Err(e) ==> {
                &&& final(self).sessions() == old(self).sessions()
                &&& (e matches StorageError::NotFound(id2) ==> id2 == id && !exists|j: int|
                    0 <= j < old(self).sessions().len() && (#[trigger] old(self).sessions()[j]).id
                        == id)
            },
    ;

    /// List sessions passing the filter, newest first, truncated to the
    /// limit.
    fn list(&self, filter: &SessionFilter) -> (r: Result<Vec<Session>, StorageError>)
        requires
            self.storage_wf(),
        ensures
            r matches Ok(v) ==> exists|full: Seq<SessionV>|
                {
                    let wd = match filter.working_dir {
                        Some(w) => Some(w@),
                        None => None,
                    };
                    let cut = match filter.limit {
                        Some(l) => if l as int <= full.len() {
                            l as int
                        } else {
                            full.len() as int
                        },
                        None => full.len() as int,
                    };
                    &&& #[trigger] sorted_desc(full)
                    &&& full.to_multiset() == filtered(
                        self.sessions(),
                        filter.status,
                        wd,
                    ).to_multiset()
                    &&& v@.map_values(|s: Session| s@) == full.take(cut)
                },
    ;

    /// Append bytes to a session's output blob.
    fn append_output(&mut self, id: SessionId, data: &[u8]) -> (r: Result<(), StorageError>)
        requires
            old(self).storage_wf(),
        ensures
            final(self).storage_wf(),
            final(self).sessions() == old(self).sessions(),
            r is Ok ==> old(self).output_of(id) is Some && final(self).output_of(id) == Some(
                old(self).output_of(id).unwrap() + data@,
            ),
            r matches Err(e) ==> {
                &&& (forall|id2: SessionId| #[trigger]
                    final(self).output_of(id2) == old(self).output_of(id2))
                &&& (e matches StorageError::NotFound(id2) ==> id2 == id && old(self).output_of(
                    id,
                ) is None)
            },
            forall|id2: SessionId|
                id2 != id ==> #[trigger] final(self).output_of(id2) == old(self).output_of(id2),
    ;

    /// Fetch a session's full output blob.
    fn get_output(&self, id: SessionId) -> (r: Result<Vec<u8>, StorageError>)
        requires
            self.storage_wf(),
        ensures
            r matches Ok(v) ==> self.output_of(id) == Some(v@),
            r matches Err(e) ==> (e matches StorageError::NotFound(id2) ==> (id2 == id
                && self.output_of(id) is None)),
    ;
}

/// The views of a sequence of sessions.
pub open spec fn views_of(s: Seq<Session>) -> Seq<SessionV> {
    s.map_values(|x: Session| x@)
}

/// In-memory storage: development backend holding sessions and output
/// blobs in insertion order. Data is lost on restart.
pub struct MemoryStorage {
    sessions: Vec<Session>,
    outputs: Vec<(SessionId, Vec<u8>)>,
}

impl MemoryStorage {
    /// Create an empty in-memory storage.
    pub fn new() -> (r: Self)
        ensures
            r.storage_wf(),
            r.sessions() == Seq::<SessionV>::empty(),
            forall|id: SessionId| #[trigger] r.output_of(id) is None,
    {
        let r = MemoryStorage { sessions: Vec::new(), outputs: Vec::new() };
        proof {
            assert(r.sessions() =~= Seq::<SessionV>::empty());
        }
        r
    }

    fn contains_id(&self, id: SessionId) -> (r: bool)
        ensures
            r <==> exists|j: int|
                0 <= j < self.sessions().len() && (#[trigger] self.sessions()[j]).id == id,
    {
        let n = self.sessions.len();
        let mut i: usize = 0;
        while i < n
            invariant
                i <= n,
                n == self.sessions@.len(),
                forall|j: int| 0 <= j < i ==> (#[trigger] self.sessions@[j]).id != id,
            decreases n - i,
        {
            if self.sessions[i].id == id {
                proof {
                    assert(self.sessions()[i as int].id == id);
                }
                return true;
            }
            i = i + 1;
        }
        proof {
            assert forall|j: int|
                0 <= j < self.sessions().len() implies (#[trigger] self.sessions()[j]).id
                != id by {
                assert(self.sessions()[j] == self.sessions@[j]@);
            }
        }
        false
    }

    fn find_index(&self, id: SessionId) -> (r: Option<usize>)
        ensures
            r matches Some(j) ==> j < self.sessions().len() && self.sessions()[j as int].id == id,
            r is None ==> !exists|j: int|
                0 <= j < self.sessions().len() && (#[trigger] self.sessions()[j]).id == id,
    {
        let n = self.sessions.len();
        let mut i: usize = 0;
        while i < n
            invariant
                i <= n,
                n == self.sessions@.len(),
                forall|j: int| 0 <= j < i ==> (#[trigger] self.sessions@[j]).id != id,
            decreases n - i,
        {
            if self.sessions[i].id == id {
                return Some(i);
            }
            i = i + 1;
        }
        proof {
            assert forall|j: int|
                0 <= j < self.sessions().len() implies (#[trigger] self.sessions()[j]).id
                != id by {
                assert(self.sessions()[j] == self.sessions@[j]@);
            }
        }
        None
    }

    fn find_output(&self, id: SessionId) -> (r: Option<usize>)
        ensures
            r matches Some(j) ==> j < self.outputs@.len() && (self.outputs@[j as int]).0 == id,
            r is None ==> !exists|j: int|
                0 <= j < self.outputs@.len() && (#[trigger] self.outputs@[j]).0 == id,
    {
        let n = self.outputs.len();
        let mut i: usize = 0;
        while i < n
            invariant
                i <= n,
                n == self.outputs@.len(),
                forall|j: int| 0 <= j < i ==> (#[trigger] self.outputs@[j]).0 != id,
            decreases n - i,
        {
            if self.outputs[i].0 == id {
                return Some(i);
            }
            i = i + 1;
        }
        None
    }
}

impl SessionStorage for MemoryStorage {
    closed spec fn sessions(&self) -> Seq<SessionV> {
        views_of(self.sessions@)
    }

    closed spec fn output_of(&self, id: SessionId) -> Option<Seq<u8>> {
        if exists|j: int| 0 <= j < self.outputs@.len() && (#[trigger] self.outputs@[j]).0 == id {
            let j = choose|j: int|
                0 <= j < self.outputs@.len() && (#[trigger] self.outputs@[j]).0 == id;
            Some(self.outputs@[j].1@)
        } else {
            None
        }
    }

    closed spec fn storage_wf(&self) -> bool {
        &&& forall|i: int, j: int|
            0 <= i < j < self.sessions@.len() ==> (#[trigger] self.sessions@[i]).id != (
            #[trigger] self.sessions@[j]).id
        &&& forall|i: int, j: int|
            0 <= i < j < self.outputs@.len() ==> (#[trigger] self.outputs@[i]).0 != (
            #[trigger] self.outputs@[j]).0
    }

    fn create(&mut self, ctx: &ExecutionContext) -> (r: Result<SessionId, StorageError>) {
        let id = SessionId(uuid_new_v4());
        if self.contains_id(id) {
            return Err(
                StorageError::Internal(
                    <String as vstd::string::StringExecFns>::from_str("session id collision"),
                ),
            );
        }
        let ts = now();
        let s = Session {
            id,
            context: ctx.clone(),
            status: SessionStatus::Pending,
            agent_session_id: None,
            created_at: ts,
            updated_at: ts,
        };
        self.sessions.push(s);
        let fresh_out: Vec<u8> = Vec::new();
        if self.find_output(id).is_some() {
            // outputs never hold an id that sessions lack a counterpart for;
            // a stale entry would break uniqueness, so refuse it outright
            let _ = self.sessions.pop();
            proof {
                assert(self.sessions@ =~= old(self).sessions@);
                assert(self.sessions() =~= old(self).sessions());
            }
            return Err(
                StorageError::Internal(
                    <String as vstd::string::StringExecFns>::from_str("output id collision"),
                ),
            );
        }
        self.outputs.push((id, fresh_out));
        proof {
            assert(self.sessions() =~= views_of(old(self).sessions@).push(s@));
            assert forall|a: int, b: int|
                0 <= a < b < self.sessions@.len() implies (#[trigger] self.sessions@[a]).id != (
            #[trigger] self.sessions@[b]).id by {
                if b == self.sessions@.len() - 1 {
                    assert(old(self).sessions()[a].id == old(self).sessions@[a].id);
                    assert(old(self).sessions@[a] == self.sessions@[a]);
                } else {
                    assert(old(self).sessions@[a] == self.sessions@[a]);
                    assert(old(self).sessions@[b] == self.sessions@[b]);
                }
            }
            assert forall|a: int, b: int|
                0 <= a < b < self.outputs@.len() implies (#[trigger] self.outputs@[a]).0 != (
            #[trigger] self.outputs@[b]).0 by {
                if b == self.outputs@.len() - 1 {
                    assert(old(self).outputs@[a] == self.outputs@[a]);
                } else {
                    assert(old(self).outputs@[a] == self.outputs@[a]);
                    assert(old(self).outputs@[b] == self.outputs@[b]);
                }
            }
            assert(self.sessions().take(old(self).sessions().len() as int) =~= old(
                self,
            ).sessions());
            assert forall|j: int|
                0 <= j < old(self).sessions().len() implies (#[trigger] old(
                self,
            ).sessions()[j]).id != id by {
                assert(old(self).sessions()[j] == old(self).sessions@[j]@);
            }
            // the new output entry is found, and no other entry changes
            let m = self.outputs@.len() - 1;
            assert((self.outputs@[m]).0 == id);
            assert(self.output_of(id) == Some(Seq::<u8>::empty()));
            assert forall|id2: SessionId|
                id2 != id implies #[trigger] self.output_of(id2) == old(self).output_of(id2) by {
                if exists|j: int|
                    0 <= j < old(self).outputs@.len() && (#[trigger] old(self).outputs@[j]).0
                        == id2 {
                    let j = choose|j: int|
                        0 <= j < old(self).outputs@.len() && (#[trigger] old(self).outputs@[j]).0
                            == id2;
                    assert((self.outputs@[j]).0 == id2);
                }
            }
        }
        Ok(id)
    }

    fn get(&self, id: SessionId) -> (r: Result<Option<Session>, StorageError>) {
        match self.find_index(id) {
            Some(i) => {
                let s = self.sessions[i].clone();
                proof {
                    assert(self.sessions()[i as int] == self.sessions@[i as int]@);
                    assert(self.sessions().contains(s@));
                }
                Ok(Some(s))
            },
            None => Ok(None),
        }
    }

    fn update_status(&mut self, id: SessionId, status: SessionStatus) -> (r: Result<
        (),
        StorageError,
    >) {
        match self.find_index(id) {
            Some(i) => {
                let current = self.sessions[i].status;
                let terminal = match current {
                    SessionStatus::Completed => true,
                    SessionStatus::Failed => true,
                    SessionStatus::Cancelled => true,
                    _ => false,
                };
                if terminal {
                    // terminal statuses are absorbing: leave the record as is
                    proof {
                        assert(old(self).sessions()[i as int] == old(self).sessions@[i as int]@);
                        assert(updated_status_at(
                            old(self).sessions(),
                            self.sessions(),
                            i as int,
                            id,
                            status,
                        ));
                    }
                    return Ok(());
                }
                let mut s = self.sessions.remove(i);
                s.status = status;
                s.updated_at = now();
                self.sessions.insert(i, s);
                proof {
                    assert(self.sessions@ =~= old(self).sessions@.update(
                        i as int,
                        self.sessions@[i as int],
                    ));
                    assert(old(self).sessions()[i as int] == old(self).sessions@[i as int]@);
                    assert forall|k: int|
                        0 <= k < old(self).sessions().len() && k != i implies #[trigger] self.sessions()[k]
                        == old(self).sessions()[k] by {
                        assert(self.sessions@[k] == old(self).sessions@[k]);
                    }
                    assert forall|id2: SessionId| #[trigger]
                        self.output_of(id2) == old(self).output_of(id2) by {
                        lemma_output_of_same(self, old(self), id2);
                    }
                    assert(updated_status_at(
                        old(self).sessions(),
                        self.sessions(),
                        i as int,
                        id,
                        status,
                    ));
                }
                Ok(())
            },
            None => {
                proof {
                    assert forall|id2: SessionId| #[trigger]
                        self.output_of(id2) == old(self).output_of(id2) by {
                        lemma_output_of_same(self, old(self), id2);
                    }
                }
                Err(StorageError::NotFound(id))
            },
        }
    }

    fn set_agent_session_id(&mut self, id: SessionId, agent_session_id: String) -> (r: Result<
        (),
        StorageError,
    >) {
        let ghost av = agent_session_id@;
        match self.find_index(id) {
            Some(i) => {
                let mut s = self.sessions.remove(i);
                s.agent_session_id = Some(agent_session_id);
                s.updated_at = now();
                self.sessions.insert(i, s);
                proof {
                    assert(self.sessions@ =~= old(self).sessions@.update(
                        i as int,
                        self.sessions@[i as int],
                    ));
                    assert(old(self).sessions()[i as int] == old(self).sessions@[i as int]@);
                    assert forall|k: int|
                        0 <= k < old(self).sessions().len() && k != i implies #[trigger] self.sessions()[k]
                        == old(self).sessions()[k] by {
                        assert(self.sessions@[k] == old(self).sessions@[k]);
                    }
                    assert(updated_agent_at(
                        old(self).sessions(),
                        self.sessions(),
                        i as int,
                        id,
                        av,
                    ));
                }
                Ok(())
            },
            None => {
                proof {
                    assert forall|id2: SessionId| #[trigger]
                        self.output_of(id2) == old(self).output_of(id2) by {
                        lemma_output_of_same(self, old(self), id2);
                    }
                }
                Err(StorageError::NotFound(id))
            },
        }
    }

    fn list(&self, filter: &SessionFilter) -> (r: Result<Vec<Session>, StorageError>) {
        let picked = filter_sessions(&self.sessions, filter);
        let sorted = sort_sessions_desc(picked);
        let ghost full = views_of(sorted@);
        let mut out = sorted;
        match filter.limit {
            Some(l) => {
                out.truncate(l);
                proof {
                    assert(views_of(out@) =~= full.take(
                        if l as int <= full.len() {
                            l as int
                        } else {
                            full.len() as int
                        },
                    ));
                }
            },
            None => {
                proof {
                    assert(views_of(out@) =~= full.take(full.len() as int));
                }
            },
        }
        proof {
            assert(out@.map_values(|s: Session| s@) == views_of(out@));
        }
        Ok(out)
    }

    fn append_output(&mut self, id: SessionId, data: &[u8]) -> (r: Result<(), StorageError>) {
        match self.find_output(id) {
            Some(i) => {
                let ghost pre = self.outputs@;
                let mut entry = self.outputs.remove(i);
                let mut extra = vstd::slice::slice_to_vec(data);
                entry.1.append(&mut extra);
                self.outputs.insert(i, entry);
                proof {
                    assert(self.outputs@ =~= pre.update(i as int, self.outputs@[i as int]));
                    assert((pre[i as int]).0 == id);
                    assert(old(self).output_of(id) == Some(pre[i as int].1@));
                    assert((self.outputs@[i as int]).0 == id);
                    assert(self.output_of(id) == Some(self.outputs@[i as int].1@));
                    assert forall|id2: SessionId|
                        id2 != id implies #[trigger] self.output_of(id2) == old(self).output_of(
                        id2,
                    ) by {
                        if exists|j: int|
                            0 <= j < pre.len() && (#[trigger] pre[j]).0 == id2 {
                            let j = choose|j: int| 0 <= j < pre.len() && (#[trigger] pre[j]).0 == id2;
                            assert((self.outputs@[j]).0 == id2);
                        } else {
                            if exists|j: int|
                                0 <= j < self.outputs@.len() && (#[trigger] self.outputs@[j]).0
                                    == id2 {
                                let j = choose|j: int|
                                    0 <= j < self.outputs@.len() && (#[trigger] self.outputs@[j]).0
                                        == id2;
                                assert((pre[j]).0 == id2);
                            }
                        }
                    }
                }
                Ok(())
            },
            None => Err(StorageError::NotFound(id)),
        }
    }

    fn get_output(&self, id: SessionId) -> (r: Result<Vec<u8>, StorageError>) {
        match self.find_output(id) {
            Some(i) => {
                let v = vstd::slice::slice_to_vec(self.outputs[i].1.as_slice());
                proof {
                    assert((self.outputs@[i as int]).0 == id);
                }
                Ok(v)
            },
            None => Err(StorageError::NotFound(id)),
        }
    }
}

proof fn lemma_output_of_same(s1: &MemoryStorage, s2: &MemoryStorage, id: SessionId)
    requires
        s1.outputs@ == s2.outputs@,
        forall|i: int, j: int|
            0 <= i < j < s1.outputs@.len() ==> (#[trigger] s1.outputs@[i]).0 != (
            #[trigger] s1.outputs@[j]).0,
    ensures
        s1.output_of(id) == s2.output_of(id),
{
    if exists|j: int| 0 <= j < s1.outputs@.len() && (#[trigger] s1.outputs@[j]).0 == id {
        let j = choose|j: int| 0 <= j < s1.outputs@.len() && (#[trigger] s1.outputs@[j]).0 == id;
        assert((s2.outputs@[j]).0 == id);
    }
    if exists|j: int| 0 <= j < s2.outputs@.len() && (#[trigger] s2.outputs@[j]).0 == id {
        let j = choose|j: int| 0 <= j < s2.outputs@.len() && (#[trigger] s2.outputs@[j]).0 == id;
        assert((s1.outputs@[j]).0 == id);
    }
    if s1.output_of(id) is Some {
        let j1 = choose|j: int| 0 <= j < s1.outputs@.len() && (#[trigger] s1.outputs@[j]).0 == id;
        let j2 = choose|j: int| 0 <= j < s2.outputs@.len() && (#[trigger] s2.outputs@[j]).0 == id;
        if j1 != j2 {
            assert((s1.outputs@[j2]).0 == id);
        }
        assert(s1.outputs@[j1] == s2.outputs@[j1]);
        assert(s1.outputs@[j2] == s2.outputs@[j2]);
        assert(j1 == j2);
    }
}

/// Law: session ids in a well-formed storage are pairwise distinct, and
/// `create` only ever adds an id distinct from every stored one.
pub proof fn lemma_session_ids_distinct(s: &MemoryStorage)
    requires
        s.storage_wf(),
    ensures
        forall|i: int, j: int|
            0 <= i < j < s.sessions().len() ==> (#[trigger] s.sessions()[i]).id != (
            #[trigger] s.sessions()[j]).id,
{
    assert forall|i: int, j: int|
        0 <= i < j < s.sessions().len() implies (#[trigger] s.sessions()[i]).id != (
    #[trigger] s.sessions()[j]).id by {
        assert(s.sessions()[i] == s.sessions@[i]@);
        assert(s.sessions()[j] == s.sessions@[j]@);
    }
}

/// Sessions passing the filter, in stored order.
fn filter_sessions(v: &Vec<Session>, filter: &SessionFilter) -> (r: Vec<Session>)
    ensures
        views_of(r@) == filtered(
            views_of(v@),
            filter.status,
            match filter.working_dir {
                Some(w) => Some(w@),
                None => None,
            },
        ),
{
    let ghost wd: Option<Seq<char>> = match &filter.working_dir {
        Some(w) => Some(w@),
        None => None,
    };
    let n = v.len();
    let mut r: Vec<Session> = Vec::new();
    let mut i: usize = 0;
    while i < n
        invariant
            i <= n,
            n == v@.len(),
            wd == (match filter.working_dir {
                Some(w) => Some(w@),
                None => None,
            }),
            views_of(r@) == filtered(views_of(v@).take(i as int), filter.status, wd),
        decreases n - i,
    {
        proof {
            assert(views_of(v@).take(i as int + 1).drop_last() =~= views_of(v@).take(i as int));
            assert(views_of(v@).take(i as int + 1).last() == views_of(v@)[i as int]);
            assert(views_of(v@)[i as int] == v@[i as int]@);
        }
        let sv = &v[i];
        let status_ok = match &filter.status {
            Some(st) => sv.status == *st,
            None => true,
        };
        let wd_ok = match &filter.working_dir {
            Some(w) => sv.context.working_dir == *w,
            None => true,
        };
        if status_ok && wd_ok {
            r.push(sv.clone());
            proof {
                assert(views_of(r@) =~= filtered(
                    views_of(v@).take(i as int + 1),
                    filter.status,
                    wd,
                ));
            }
        } else {
            proof {
                assert(!passes(views_of(v@)[i as int], filter.status, wd));
                assert(views_of(r@) =~= filtered(
                    views_of(v@).take(i as int + 1),
                    filter.status,
                    wd,
                ));
            }
        }
        i = i + 1;
    }
    proof {
        assert(views_of(v@).take(n as int) =~= views_of(v@));
    }
    r
}

/// Insertion sort by creation time, newest first.
fn sort_sessions_desc(v: Vec<Session>) -> (r: Vec<Session>)
    ensures
        sorted_desc(views_of(r@)),
        views_of(r@).to_multiset() == views_of(v@).to_multiset(),
{
    broadcast use vstd::seq_lib::group_to_multiset_ensures;

    let n = v.len();
    let mut out: Vec<Session> = Vec::new();
    let mut i: usize = 0;
    while i < n
        invariant
            i <= n,
            n == v@.len(),
            sorted_desc(views_of(out@)),
            views_of(out@).to_multiset() == views_of(v@).take(i as int).to_multiset(),
        decreases n - i,
    {
        let x = v[i].clone();
        let m = out.len();
        let mut j: usize = 0;
        while j < m && out[j].created_at >= x.created_at
            invariant
                j <= m,
                m == out@.len(),
                x@ == v@[i as int]@,
                forall|k: int| 0 <= k < j ==> (#[trigger] views_of(out@)[k]).created_at
                    >= x@.created_at,
                sorted_desc(views_of(out@)),
            decreases m - j,
        {
            proof {
                assert(views_of(out@)[j as int] == out@[j as int]@);
            }
            j = j + 1;
        }
        proof {
            if j < m {
                assert(views_of(out@)[j as int] == out@[j as int]@);
                assert(views_of(out@)[j as int].created_at < x@.created_at);
            }
        }
        let ghost pre_out = views_of(out@);
        out.insert(j, x);
        proof {
            assert(views_of(out@) =~= pre_out.insert(j as int, v@[i as int]@));
            assert forall|a: int, b: int|
                0 <= a < b < views_of(out@).len() implies views_of(out@)[a].created_at
                >= views_of(out@)[b].created_at by {
                let cur = views_of(out@);
                if b < j {
                } else if a > j {
                } else if a < j && b == j {
                } else if a == j && b > j {
                    assert(cur[b] == pre_out[b - 1]);
                    if j < pre_out.len() {
                        assert(pre_out[j as int].created_at >= pre_out[b - 1].created_at);
                    }
                } else if a < j && b > j {
                    assert(cur[a] == pre_out[a]);
                    assert(cur[b] == pre_out[b - 1]);
                }
            }
            assert(views_of(v@).take(i as int + 1) =~= views_of(v@).take(i as int).push(
                v@[i as int]@,
            ));
            vstd::seq_lib::to_multiset_insert(pre_out, j as int, v@[i as int]@);
            vstd::seq_lib::to_multiset_build(views_of(v@).take(i as int), v@[i as int]@);
            assert(views_of(out@).to_multiset() == pre_out.to_multiset().insert(v@[i as int]@));
            assert(views_of(v@).take(i as int).push(v@[i as int]@).to_multiset()
                =~= views_of(v@).take(i as int).to_multiset().insert(v@[i as int]@));
        }
        i = i + 1;
    }
    proof {
        assert(views_of(v@).take(n as int) =~= views_of(v@));
    }
    out
}

/// SQLite storage: an interface-only stub pending a real database backend;
/// every operation reports an internal error.
pub struct SqliteStorage {}

impl SqliteStorage {
    /// Create a new SQLite storage. Always fails: the backend is a stub.
    pub fn new(database_url: &str) -> (r: Result<Self, StorageError>)
        ensures
            r is Err,
    {
        let _ = database_url;
        Err(
            StorageError::Internal(
                <String as vstd::string::StringExecFns>::from_str(
                    "SQLite storage not yet implemented",
                ),
            ),
        )
    }
}

impl SessionStorage for SqliteStorage {
    open spec fn sessions(&self) -> Seq<SessionV> {
        Seq::empty()
    }

    open spec fn output_of(&self, id: SessionId) -> Option<Seq<u8>> {
        None
    }

    open spec fn storage_wf(&self) -> bool {
        true
    }

    fn create(&mut self, ctx: &ExecutionContext) -> (r: Result<SessionId, StorageError>) {
        Err(
            StorageError::Internal(
                <String as vstd::string::StringExecFns>::from_str("not implemented"),
            ),
        )
    }

    fn get(&self, id: SessionId) -> (r: Result<Option<Session>, StorageError>) {
        Err(
            StorageError::Internal(
                <String as vstd::string::StringExecFns>::from_str("not implemented"),
            ),
        )
    }

    fn update_status(&mut self, id: SessionId, status: SessionStatus) -> (r: Result<
        (),
        StorageError,
    >) {
        Err(
            StorageError::Internal(
                <String as vstd::string::StringExecFns>::from_str("not implemented"),
            ),
        )
    }

    fn set_agent_session_id(&mut self, id: SessionId, agent_session_id: String) -> (r: Result<
        (),
        StorageError,
    >) {
        Err(
            StorageError::Internal(
                <String as vstd::string::StringExecFns>::from_str("not implemented"),
            ),
        )
    }

    fn list(&self, filter: &SessionFilter) -> (r: Result<Vec<Session>, StorageError>) {
        Err(
            StorageError::Internal(
                <String as vstd::string::StringExecFns>::from_str("not implemented"),
            ),
        )
    }

    fn append_output(&mut self, id: SessionId, data: &[u8]) -> (r: Result<(), StorageError>) {
        Err(
            StorageError::Internal(
                <String as vstd::string::StringExecFns>::from_str("not implemented"),
            ),
        )
    }

    fn get_output(&self, id: SessionId) -> (r: Result<Vec<u8>, StorageError>) {
        Err(
            StorageError::Internal(
                <String as vstd::string::StringExecFns>::from_str("not implemented"),
            ),
        )
    }
}

} // verus!
