//! Session orchestration: persisted-record and live-store bookkeeping.
//!
//! Spawning child processes and forwarding their streams is outside work
//! that the surrounding application drives; the manager makes the decisions
//! and owns the per-session state.

use vstd::prelude::*;

use crate::log_msg::{LogMsg, MsgView};
use crate::msg_store::MsgStore;
use crate::storage::{ExecutionContext, SessionId, SessionStatus, SessionStorage, StorageError};

verus! {

/// Whether a session with this id is stored.
pub open spec fn stored_id(s: Seq<crate::storage::SessionV>, id: SessionId) -> bool {
    exists|j: int| 0 <= j < s.len() && (#[trigger] s[j]).id == id
}

/// Executor failure.
#[derive(Debug)]
pub enum ExecutorError {
    /// Spawning the child failed.
    SpawnFailed(String),
    /// The executable could not be found.
    ExecutableNotFound(String),
    /// An I/O failure, described in text.
    Io(String),
    /// The command could not be built.
    CommandBuild(String),
}

/// Session manager failure.
#[derive(Debug)]
pub enum ManagerError {
    /// A storage failure.
    Storage(StorageError),
    /// An executor failure.
    Executor(ExecutorError),
    /// No such session.
    NotFound(SessionId),
    /// The session is already running.
    AlreadyRunning,
}

struct ActiveSession {
    msg_store: MsgStore,
    interrupt_requested: bool,
}

/// Orchestrates agent sessions over a storage backend: creation, follow-up
/// validation, live message stores, and interrupt requests.
pub struct SessionManager<S: SessionStorage> {
    storage: S,
    active: Vec<(SessionId, ActiveSession)>,
}

impl<S: SessionStorage> SessionManager<S> {
    /// The storage backend's state.
    pub closed spec fn storage_spec(&self) -> S {
        self.storage
    }

    /// Ids of the active sessions, in registration order.
    pub closed spec fn active_ids(&self) -> Seq<SessionId> {
        self.active@.map_values(|p: (SessionId, ActiveSession)| p.0)
    }

    /// The push history of the active session's store.
    pub closed spec fn store_pushes(&self, i: int) -> Seq<MsgView> {
        self.active@[i].1.msg_store.pushes()
    }

    /// Whether an interrupt was requested for the active session.
    pub closed spec fn interrupt_pending(&self, i: int) -> bool {
        self.active@[i].1.interrupt_requested
    }

    /// Well-formed: the backend invariant holds, active ids are unique, and
    /// every active store is well-formed.
    pub closed spec fn wf(&self) -> bool {
        &&& self.storage.storage_wf()
        &&& forall|i: int, j: int|
            0 <= i < j < self.active@.len() ==> (#[trigger] self.active@[i]).0 != (
            #[trigger] self.active@[j]).0
        &&& forall|i: int| 0 <= i < self.active@.len() ==> (#[trigger] self.active@[i]).1.msg_store.wf()
        &&& forall|i: int|
            0 <= i < self.active@.len() ==> stored_id(
                self.storage.sessions(),
                (#[trigger] self.active@[i]).0,
            )
    }

    /// Create a manager over a storage backend.
    pub fn new(storage: S) -> (r: Self)
        requires
            storage.storage_wf(),
        ensures
            r.wf(),
            r.storage_spec() == storage,
            r.active_ids() == Seq::<SessionId>::empty(),
    {
        let r = SessionManager { storage, active: Vec::new() };
        proof {
            assert(r.active_ids() =~= Seq::<SessionId>::empty());
        }
        r
    }

    fn find_active(&self, id: SessionId) -> (r: Option<usize>)
        ensures
            r matches Some(i) ==> i < self.active_ids().len() && self.active_ids()[i as int] == id,
            r is None ==> !self.active_ids().contains(id),
    {
        let n = self.active.len();
        let mut i: usize = 0;
        while i < n
            invariant
                i <= n,
                n == self.active@.len(),
                forall|j: int| 0 <= j < i ==> (#[trigger] self.active@[j]).0 != id,
            decreases n - i,
        {
            if self.active[i].0 == id {
                proof {
                    assert(self.active_ids()[i as int] == id);
                }
                return Some(i);
            }
            i = i + 1;
        }
        proof {
            assert forall|j: int|
                0 <= j < self.active_ids().len() implies #[trigger] self.active_ids()[j] != id by {
                assert(self.active_ids()[j] == self.active@[j].0);
            }
        }
        None
    }

    /// Start a new session: persist it, mark it running, and register a
    /// fresh live store. The caller spawns the agent and forwards its
    /// output into the store.
    pub fn start_session(&mut self, ctx: &ExecutionContext) -> (r: Result<SessionId, ManagerError>)
        requires
            old(self).wf(),
        ensures
            final(self).wf(),
            r matches Ok(id) ==> {
                &&& final(self).active_ids() == old(self).active_ids().push(id)
                &&& final(self).storage_spec().sessions().len() == old(self).storage_spec().sessions().len() + 1
                &&& final(self).storage_spec().sessions().take(
                    old(self).storage_spec().sessions().len() as int,
                ) == old(self).storage_spec().sessions()
                &&& (forall|j: int|
                    0 <= j < old(self).storage_spec().sessions().len() ==> (#[trigger] old(
                        self,
                    ).storage_spec().sessions()[j]).id != id)
                &&& final(self).storage_spec().sessions().last().id == id
                &&& final(self).storage_spec().sessions().last().status is Running
                &&& final(self).storage_spec().sessions().last().context == ctx@
                &&& final(self).store_pushes(final(self).active_ids().len() - 1) == Seq::<
                    MsgView,
                >::empty()
                &&& !final(self).interrupt_pending(final(self).active_ids().len() - 1)
            },
            r is Err ==> final(self).active_ids() == old(self).active_ids(),
    {
        let id = match self.storage.create(ctx) {
            Ok(id) => id,
            Err(e) => {
                return Err(ManagerError::Storage(e));
            },
        };
        let ghost after_create = self.storage;
        match self.storage.update_status(id, SessionStatus::Running) {
            Ok(()) => {},
            Err(e) => {
                return Err(ManagerError::Storage(e));
            },
        }
        proof {
            // the updated record can only be the freshly created last one
            let j = choose|j: int| #[trigger] crate::storage::updated_status_at(
                after_create.sessions(),
                self.storage.sessions(),
                j,
                id,
                SessionStatus::Running,
            );
            if j < after_create.sessions().len() - 1 {
                assert(after_create.sessions().take(after_create.sessions().len() - 1)[j].id
                    == id);
                assert(false);
            }
            assert(self.storage.sessions().last().status is Running);
            assert(self.storage.sessions().last().context == ctx@);
            assert forall|k: int|
                0 <= k < self.storage.sessions().len() implies (#[trigger] self.storage.sessions()[k]).id == after_create.sessions()[k].id by {}
        }
        let store = MsgStore::new();
        let entry = ActiveSession { msg_store: store, interrupt_requested: false };
        self.active.push((id, entry));
        proof {
            assert(self.active_ids() =~= old(self).active_ids().push(id));
            let n2 = self.active@.len() - 1;
            assert(stored_id(self.storage.sessions(), id));
            assert forall|i: int|
                0 <= i < self.active@.len() implies stored_id(
                self.storage.sessions(),
                (#[trigger] self.active@[i]).0,
            ) by {
                if i < n2 {
                    assert(self.active@[i] == old(self).active@[i]);
                    assert(stored_id(old(self).storage_spec().sessions(), self.active@[i].0));
                    let j = choose|j: int|
                        0 <= j < old(self).storage_spec().sessions().len() && (#[trigger] old(self).storage_spec().sessions()[j]).id == self.active@[i].0;
                    assert(after_create.sessions()[j].id == self.active@[i].0);
                    assert(self.storage.sessions()[j].id == self.active@[i].0);
                }
            }
            assert forall|i: int, j: int|
                0 <= i < j < self.active@.len() implies (#[trigger] self.active@[i]).0 != (
            #[trigger] self.active@[j]).0 by {
                if j == n2 {
                    assert(stored_id(old(self).storage_spec().sessions(), self.active@[i].0));
                    let k = choose|k: int|
                        0 <= k < old(self).storage_spec().sessions().len() && (#[trigger] old(self).storage_spec().sessions()[k]).id == self.active@[i].0;
                }
            }
        }
        Ok(id)
    }

    /// Validate and begin a follow-up session: the original session must
    /// exist and have announced its agent session id. On success a new
    /// running session (sharing the original's context) is registered and
    /// the agent session id to resume is returned.
    pub fn start_follow_up(&mut self, original_session_id: SessionId) -> (r: Result<
        (SessionId, String),
        ManagerError,
    >)
        requires
            old(self).wf(),
        ensures
            final(self).wf(),
            r matches Ok(pair) ==> {
                &&& exists|j: int|
                    {
                        &&& 0 <= j < old(self).storage_spec().sessions().len()
                        &&& (#[trigger] old(self).storage_spec().sessions()[j]).id
                            == original_session_id
                        &&& old(self).storage_spec().sessions()[j].agent_session_id == Some(
                            pair.1@,
                        )
                    }
                &&& final(self).active_ids() == old(self).active_ids().push(pair.0)
                &&& final(self).storage_spec().sessions().len() == old(self).storage_spec().sessions().len() + 1
                &&& final(self).storage_spec().sessions().take(
                    old(self).storage_spec().sessions().len() as int,
                ) == old(self).storage_spec().sessions()
                &&& (forall|j: int|
                    0 <= j < old(self).storage_spec().sessions().len() ==> (#[trigger] old(
                        self,
                    ).storage_spec().sessions()[j]).id != pair.0)
                &&& final(self).storage_spec().sessions().last().id == pair.0
                &&& final(self).storage_spec().sessions().last().status is Running
            },
            r matches Err(e) ==> (e matches ManagerError::NotFound(x) ==> {
                &&& x == original_session_id
                &&& (!(exists|j: int|
                    0 <= j < old(self).storage_spec().sessions().len() && (#[trigger] old(self).storage_spec().sessions()[j]).id == original_session_id) || exists|j: int|
                    {
                        &&& 0 <= j < old(self).storage_spec().sessions().len()
                        &&& (#[trigger] old(self).storage_spec().sessions()[j]).id
                            == original_session_id
                        &&& old(self).storage_spec().sessions()[j].agent_session_id is None
                    })
            }),
            r is Err ==> final(self).active_ids() == old(self).active_ids(),
    {
        let session = match self.storage.get(original_session_id) {
            Ok(Some(s)) => s,
            Ok(None) => {
                return Err(ManagerError::NotFound(original_session_id));
            },
            Err(e) => {
                return Err(ManagerError::Storage(e));
            },
        };
        let ghost sv = session@;
        let agent_session_id = match &session.agent_session_id {
            Some(a) => a.clone(),
            None => {
                proof {
                    let k = choose|k: int|
                        0 <= k < old(self).storage_spec().sessions().len() && old(self).storage_spec().sessions()[k] == sv;
                    assert(old(self).storage_spec().sessions()[k].id == original_session_id);
                    assert(old(self).storage_spec().sessions()[k].agent_session_id is None);
                }
                return Err(ManagerError::NotFound(original_session_id));
            },
        };
        proof {
            let k = choose|k: int|
                0 <= k < old(self).storage_spec().sessions().len() && old(self).storage_spec().sessions()[k] == sv;
            assert(old(self).storage_spec().sessions()[k].id == original_session_id);
            assert(old(self).storage_spec().sessions()[k].agent_session_id == Some(
                agent_session_id@,
            ));
        }
        let ghost pre = self.storage;
        let new_id = match self.storage.create(&session.context) {
            Ok(id) => id,
            Err(e) => {
                return Err(ManagerError::Storage(e));
            },
        };
        let ghost after_create = self.storage;
        match self.storage.update_status(new_id, SessionStatus::Running) {
            Ok(()) => {},
            Err(e) => {
                return Err(ManagerError::Storage(e));
            },
        }
        proof {
            let j = choose|j: int| #[trigger] crate::storage::updated_status_at(
                after_create.sessions(),
                self.storage.sessions(),
                j,
                new_id,
                SessionStatus::Running,
            );
            if j < after_create.sessions().len() - 1 {
                assert(after_create.sessions().take(after_create.sessions().len() - 1)[j].id
                    == new_id);
                assert(false);
            }
        }
        proof {
            assert forall|k: int|
                0 <= k < self.storage.sessions().len() implies (#[trigger] self.storage.sessions()[k]).id == after_create.sessions()[k].id by {}
        }
        let store = MsgStore::new();
        self.active.push((new_id, ActiveSession { msg_store: store, interrupt_requested: false }));
        proof {
            assert(self.active_ids() =~= old(self).active_ids().push(new_id));
            let n2 = self.active@.len() - 1;
            assert(stored_id(self.storage.sessions(), new_id));
            assert forall|i: int|
                0 <= i < self.active@.len() implies stored_id(
                self.storage.sessions(),
                (#[trigger] self.active@[i]).0,
            ) by {
                if i < n2 {
                    assert(self.active@[i] == old(self).active@[i]);
                    assert(stored_id(old(self).storage_spec().sessions(), self.active@[i].0));
                    let j2 = choose|j2: int|
                        0 <= j2 < old(self).storage_spec().sessions().len() && (#[trigger] old(self).storage_spec().sessions()[j2]).id == self.active@[i].0;
                    assert(after_create.sessions()[j2].id == self.active@[i].0);
                    assert(self.storage.sessions()[j2].id == self.active@[i].0);
                }
            }
            assert forall|i: int, j2: int|
                0 <= i < j2 < self.active@.len() implies (#[trigger] self.active@[i]).0 != (
            #[trigger] self.active@[j2]).0 by {
                if j2 == n2 {
                    assert(stored_id(old(self).storage_spec().sessions(), self.active@[i].0));
                    let k = choose|k: int|
                        0 <= k < old(self).storage_spec().sessions().len() && (#[trigger] old(self).storage_spec().sessions()[k]).id == self.active@[i].0;
                }
            }
        }
        Ok((new_id, agent_session_id))
    }

    /// The live store of an active session, if the session is active.
    pub fn get_msg_store(&self, session_id: SessionId) -> (r: Option<&MsgStore>)
        requires
            self.wf(),
        ensures
            r is Some <==> self.active_ids().contains(session_id),
            r matches Some(st) ==> st.wf(),
    {
        match self.find_active(session_id) {
            Some(i) => {
                proof {
                    assert(self.active_ids().contains(session_id));
                }
                Some(&self.active[i].1.msg_store)
            },
            None => None,
        }
    }

    /// Push a message to an active session's store; reports whether the
    /// session was active.
    pub fn push_msg(&mut self, session_id: SessionId, msg: LogMsg) -> (r: bool)
        requires
            old(self).wf(),
        ensures
            final(self).wf(),
            final(self).active_ids() == old(self).active_ids(),
            final(self).storage_spec() == old(self).storage_spec(),
            r <==> old(self).active_ids().contains(session_id),
            r ==> exists|i: int|
                {
                    &&& 0 <= i < old(self).active_ids().len()
                    &&& (#[trigger] old(self).active_ids()[i]) == session_id
                    &&& final(self).store_pushes(i) == old(self).store_pushes(i).push(msg@)
                },
    {
        match self.find_active(session_id) {
            Some(i) => {
                let mut entry = self.active.remove(i);
                entry.1.msg_store.push(msg);
                self.active.insert(i, entry);
                proof {
                    assert(self.active@ =~= old(self).active@.update(
                        i as int,
                        self.active@[i as int],
                    ));
                    assert(self.active_ids() =~= old(self).active_ids());
                    assert(old(self).active_ids()[i as int] == session_id);
                    assert(final(self).store_pushes(i as int) == old(self).store_pushes(
                        i as int,
                    ).push(msg@));
                }
                true
            },
            None => false,
        }
    }

    /// Request a graceful interrupt of an active session. Idempotent, and
    /// silently succeeds when the session is not active.
    pub fn interrupt_session(&mut self, session_id: SessionId) -> (r: Result<(), ManagerError>)
        requires
            old(self).wf(),
        ensures
            final(self).wf(),
            r is Ok,
            final(self).active_ids() == old(self).active_ids(),
            final(self).storage_spec() == old(self).storage_spec(),
            forall|i: int|
                0 <= i < old(self).active_ids().len() ==> #[trigger] final(self).store_pushes(i)
                    == old(self).store_pushes(i),
            forall|i: int|
                0 <= i < old(self).active_ids().len() && old(self).active_ids()[i] == session_id
                    ==> #[trigger] final(self).interrupt_pending(i),
            forall|i: int|
                0 <= i < old(self).active_ids().len() && old(self).active_ids()[i] != session_id
                    ==> #[trigger] final(self).interrupt_pending(i) == old(self).interrupt_pending(i),
    {
        match self.find_active(session_id) {
            Some(i) => {
                let mut entry = self.active.remove(i);
                entry.1.interrupt_requested = true;
                self.active.insert(i, entry);
                proof {
                    assert(self.active@ =~= old(self).active@.update(
                        i as int,
                        self.active@[i as int],
                    ));
                    assert(self.active_ids() =~= old(self).active_ids());
                    assert forall|k: int|
                        0 <= k < old(self).active_ids().len() && old(self).active_ids()[k]
                            == session_id implies #[trigger] final(self).interrupt_pending(k) by {
                        if k != i {
                            assert(old(self).active@[k].0 == old(self).active@[i as int].0);
                            assert(false);
                        }
                    }
                }
                Ok(())
            },
            None => Ok(()),
        }
    }

    /// Take a pending interrupt request for a session, clearing it; the
    /// caller writes the interrupt frame to the agent. Returns true exactly
    /// when the session is active and an interrupt was pending; afterwards
    /// no interrupt is pending for it, and no other session's flag moves.
    pub fn take_interrupt(&mut self, session_id: SessionId) -> (r: bool)
        requires
            old(self).wf(),
        ensures
            final(self).wf(),
            final(self).active_ids() == old(self).active_ids(),
            final(self).storage_spec() == old(self).storage_spec(),
            forall|i: int|
                0 <= i < old(self).active_ids().len() ==> #[trigger] final(self).store_pushes(i)
                    == old(self).store_pushes(i),
            r <==> exists|i: int|
                0 <= i < old(self).active_ids().len() && (#[trigger] old(self).active_ids()[i])
                    == session_id && old(self).interrupt_pending(i),
            forall|i: int|
                0 <= i < old(self).active_ids().len() && old(self).active_ids()[i] == session_id
                    ==> !(#[trigger] final(self).interrupt_pending(i)),
            forall|i: int|
                0 <= i < old(self).active_ids().len() && old(self).active_ids()[i] != session_id
                    ==> #[trigger] final(self).interrupt_pending(i) == old(
                    self,
                ).interrupt_pending(i),
    {
        match self.find_active(session_id) {
            Some(i) => {
                let mut entry = self.active.remove(i);
                let was = entry.1.interrupt_requested;
                entry.1.interrupt_requested = false;
                self.active.insert(i, entry);
                proof {
                    assert(self.active@ =~= old(self).active@.update(
                        i as int,
                        self.active@[i as int],
                    ));
                    assert(self.active_ids() =~= old(self).active_ids());
                    assert(old(self).active_ids()[i as int] == session_id);
                    assert forall|k: int|
                        0 <= k < old(self).active_ids().len() && old(self).active_ids()[k]
                            == session_id implies k == i by {
                        if k != i {
                            assert(old(self).active@[k].0 == old(self).active@[i as int].0);
                            assert(false);
                        }
                    }
                    if was {
                        assert(old(self).interrupt_pending(i as int));
                    }
                }
                was
            },
            None => {
                proof {
                    assert forall|i: int|
                        0 <= i < old(self).active_ids().len() implies #[trigger] old(
                        self,
                    ).active_ids()[i] != session_id by {
                        assert(old(self).active_ids().contains(old(self).active_ids()[i]));
                    }
                }
                false
            },
        }
    }

    /// Record the agent's own session id on the persisted record, once the
    /// agent announces it; this is what later permits a follow-up.
    pub fn record_agent_session(&mut self, session_id: SessionId, agent_session_id: String) -> (r:
        Result<(), ManagerError>)
        requires
            old(self).wf(),
        ensures
            final(self).wf(),
            final(self).active_ids() == old(self).active_ids(),
            r is Ok ==> exists|j: int|
                {
                    &&& 0 <= j < old(self).storage_spec().sessions().len()
                    &&& (#[trigger] old(self).storage_spec().sessions()[j]).id == session_id
                    &&& final(self).storage_spec().sessions()[j].agent_session_id == Some(
                        agent_session_id@,
                    )
                },
    {
        let ghost av = agent_session_id@;
        match self.storage.set_agent_session_id(session_id, agent_session_id) {
            Ok(()) => {
                proof {
                    let j = choose|j: int| #[trigger] crate::storage::updated_agent_at(
                        old(self).storage_spec().sessions(),
                        self.storage.sessions(),
                        j,
                        session_id,
                        av,
                    );
                    assert(old(self).storage_spec().sessions()[j].id == session_id);
                    assert(self.storage.sessions()[j].agent_session_id == Some(av));
                    assert forall|k: int|
                        0 <= k < self.storage.sessions().len() implies (#[trigger] self.storage.sessions()[k]).id == old(self).storage_spec().sessions()[k].id by {}
                    assert forall|i: int|
                        0 <= i < self.active@.len() implies stored_id(
                        self.storage.sessions(),
                        (#[trigger] self.active@[i]).0,
                    ) by {
                        assert(stored_id(
                            old(self).storage_spec().sessions(),
                            self.active@[i].0,
                        ));
                        let k = choose|k: int|
                            0 <= k < old(self).storage_spec().sessions().len() && (#[trigger] old(self).storage_spec().sessions()[k]).id == self.active@[i].0;
                        assert(self.storage.sessions()[k].id == self.active@[i].0);
                    }
                }
                Ok(())
            },
            Err(e) => Err(ManagerError::Storage(e)),
        }
    }

    /// Mark a session finished: its status becomes `Completed` on success
    /// or `Failed` otherwise, and `Finished` is pushed as the last event on
    /// its live store (if the session is active).
    pub fn finish_session(&mut self, session_id: SessionId, success: bool) -> (r: Result<
        (),
        ManagerError,
    >)
        requires
            old(self).wf(),
        ensures
            final(self).wf(),
            final(self).active_ids() == old(self).active_ids(),
            r is Ok ==> exists|j: int|
                {
                    &&& 0 <= j < old(self).storage_spec().sessions().len()
                    &&& (#[trigger] old(self).storage_spec().sessions()[j]).id == session_id
                    &&& final(self).storage_spec().sessions()[j].status == (if
                        crate::storage::is_terminal(
                        old(self).storage_spec().sessions()[j].status,
                    ) {
                        old(self).storage_spec().sessions()[j].status
                    } else if success {
                        SessionStatus::Completed
                    } else {
                        SessionStatus::Failed
                    })
                },
            r is Ok ==> forall|i: int|
                0 <= i < old(self).active_ids().len() && old(self).active_ids()[i] == session_id
                    ==> #[trigger] final(self).store_pushes(i) == old(self).store_pushes(i).push(
                    MsgView::Finished,
                ),
    {
        let status = if success {
            SessionStatus::Completed
        } else {
            SessionStatus::Failed
        };
        match self.storage.update_status(session_id, status) {
            Ok(()) => {
                proof {
                    let j = choose|j: int| #[trigger] crate::storage::updated_status_at(
                        old(self).storage_spec().sessions(),
                        self.storage.sessions(),
                        j,
                        session_id,
                        status,
                    );
                    assert(old(self).storage_spec().sessions()[j].id == session_id);
                    assert(self.storage.sessions()[j].status == (if crate::storage::is_terminal(
                        old(self).storage_spec().sessions()[j].status,
                    ) {
                        old(self).storage_spec().sessions()[j].status
                    } else {
                        status
                    }));
                    assert forall|k: int|
                        0 <= k < self.storage.sessions().len() implies (#[trigger] self.storage.sessions()[k]).id == old(self).storage_spec().sessions()[k].id by {}
                    assert forall|i: int|
                        0 <= i < self.active@.len() implies stored_id(
                        self.storage.sessions(),
                        (#[trigger] self.active@[i]).0,
                    ) by {
                        assert(stored_id(
                            old(self).storage_spec().sessions(),
                            self.active@[i].0,
                        ));
                        let k = choose|k: int|
                            0 <= k < old(self).storage_spec().sessions().len() && (#[trigger] old(self).storage_spec().sessions()[k]).id == self.active@[i].0;
                        assert(self.storage.sessions()[k].id == self.active@[i].0);
                    }
                }
            },
            Err(e) => {
                return Err(ManagerError::Storage(e));
            },
        }
        match self.find_active(session_id) {
            Some(i) => {
                let mut entry = self.active.remove(i);
                entry.1.msg_store.push(LogMsg::Finished);
                self.active.insert(i, entry);
                proof {
                    assert(self.active@ =~= old(self).active@.update(
                        i as int,
                        self.active@[i as int],
                    ));
                    assert(self.active_ids() =~= old(self).active_ids());
                    assert forall|k: int|
                        0 <= k < old(self).active_ids().len() && old(self).active_ids()[k]
                            == session_id implies #[trigger] final(self).store_pushes(k) == old(self).store_pushes(k).push(MsgView::Finished) by {
                        if k != i {
                            assert(old(self).active@[k].0 == old(self).active@[i as int].0);
                            assert(false);
                        }
                    }
                }
                Ok(())
            },
            None => {
                proof {
                    assert forall|k: int|
                        0 <= k < old(self).active_ids().len() && old(self).active_ids()[k]
                            == session_id implies #[trigger] final(self).store_pushes(k) == old(self).store_pushes(k).push(MsgView::Finished) by {
                        assert(old(self).active_ids().contains(session_id));
                    }
                }
                Ok(())
            },
        }
    }
}

} // verus!
