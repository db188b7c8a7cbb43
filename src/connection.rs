use vstd::prelude::*;
use crate::push::DataType;

verus! {

/// How a connection attempt failed.
#[derive(Clone, Copy, Debug, PartialEq, Eq, Structural)]
pub enum ConnectErrorKind {
    AuthFailed,
    Transport,
    ServerRejected,
}

#[derive(Clone, Debug)]
pub struct ConnectError {
    pub kind: ConnectErrorKind,
    pub reason: String,
}

/// The connection of one account, as its users observe it.
#[derive(Clone, Debug)]
pub enum ClientState {
    Disconnected { last_error: Option<ConnectError>, delay_connect_until: Option<u64> },
    Connecting,
    /// Connected; the number tells the sessions apart.
    Connected { session: u64 },
}

/// The milliseconds that separate a failure from the next attempt.
pub const RECONNECT_DELAY_MS: u64 = 10000;

/// One published state may follow another.
pub open spec fn client_step(prev: ClientState, next: ClientState) -> bool {
    match prev {
        ClientState::Disconnected { .. } => next is Connecting,
        ClientState::Connecting => next is Connected || next is Disconnected,
        ClientState::Connected { .. } => next is Disconnected,
    }
}

/// The published states start disconnected and move only along
/// `client_step`.
pub open spec fn client_history_ok(h: Seq<ClientState>) -> bool {
    &&& h.len() >= 1
    &&& h[0] is Disconnected
    &&& forall|i: int| 1 <= i < h.len() ==> client_step(h[i - 1], #[trigger] h[i])
}

/// In a published history a session is only ever entered from an attempt,
/// and an attempt only ever starts while disconnected.
pub proof fn lemma_client_history_order(h: Seq<ClientState>, i: int)
    requires
        client_history_ok(h),
        0 < i < h.len(),
    ensures
        h[i] is Connected ==> h[i - 1] is Connecting,
        h[i] is Connecting ==> h[i - 1] is Disconnected,
        h[i - 1] is Connected ==> h[i] is Disconnected,
{
    assert(client_step(h[i - 1], h[i]));
}

/// The kinds of data whose changes a new session asks the server to push:
/// exactly email, core and mailbox data.
pub fn push_types() -> (r: Vec<DataType>)
    ensures
        r@ == seq![DataType::Email, DataType::Core, DataType::Mailbox],
{
    let mut r: Vec<DataType> = Vec::new();
    r.push(DataType::Email);
    r.push(DataType::Core);
    r.push(DataType::Mailbox);
    assert(r@ =~= seq![DataType::Email, DataType::Core, DataType::Mailbox]);
    r
}

/// What the supervisor does next while disconnected.
#[derive(Clone, Copy, Debug, PartialEq, Eq, Structural)]
pub enum SupervisorAction {
    /// Wait until the network is reported online.
    WaitOnline,
    /// Sleep until the given instant, in milliseconds.
    SleepUntil(u64),
    /// Attempt to connect now.
    Connect,
}

/// The decisions of one account's connection supervisor.
pub struct ConnectionSupervisor {
    pub state: ClientState,
    /// Sessions established so far.
    pub sessions: u64,
    /// Every state published so far, oldest first.
    pub published: Ghost<Seq<ClientState>>,
}

impl ConnectionSupervisor {
    pub open spec fn wf(&self) -> bool {
        &&& client_history_ok(self.published@)
        &&& self.published@.last() == self.state
    }

    pub fn new() -> (r: ConnectionSupervisor)
        ensures
            r.wf(),
            r.state == (ClientState::Disconnected { last_error: None, delay_connect_until: None }),
            r.published@.len() == 1,
            r.sessions == 0,
    {
        let s = ClientState::Disconnected { last_error: None, delay_connect_until: None };
        let ghost first = seq![s];
        ConnectionSupervisor { state: s, sessions: 0, published: Ghost(first) }
    }

    fn publish(&mut self, s: ClientState)
        requires
            old(self).wf(),
            client_step(old(self).state, s),
        ensures
            final(self).wf(),
            final(self).state == s,
            final(self).published@ == old(self).published@.push(s),
            final(self).sessions == old(self).sessions,
    {
        proof {
            let h = self.published@;
            let g = h.push(s);
            assert forall|i: int| 1 <= i < g.len() implies client_step(g[i - 1], #[trigger] g[i]) by {
                if i < h.len() {
                    assert(g[i] == h[i] && g[i - 1] == h[i - 1]);
                }
            }
        }
        self.published = Ghost(self.published@.push(s));
        self.state = s;
    }

    /// While disconnected: wait for the network, then for the deadline that
    /// the last failure set, then connect.
    pub fn next_action(&self, online: bool, now: u64) -> (a: SupervisorAction)
        requires
            self.state is Disconnected,
        ensures
            !online ==> a == SupervisorAction::WaitOnline,
            online ==> match self.state {
                ClientState::Disconnected { delay_connect_until: Some(t), .. } => if now < t {
                    a == SupervisorAction::SleepUntil(t)
                } else {
                    a == SupervisorAction::Connect
                },
                _ => a == SupervisorAction::Connect,
            },
    {
        if !online {
            return SupervisorAction::WaitOnline;
        }
        match &self.state {
            ClientState::Disconnected { delay_connect_until: Some(t), .. } => {
                if now < *t {
                    SupervisorAction::SleepUntil(*t)
                } else {
                    SupervisorAction::Connect
                }
            },
            _ => SupervisorAction::Connect,
        }
    }

    /// An attempt starts.
    pub fn begin_connect(&mut self)
        requires
            old(self).wf(),
            old(self).state is Disconnected,
        ensures
            final(self).wf(),
            final(self).state is Connecting,
            final(self).published@ == old(self).published@.push(ClientState::Connecting),
    {
        self.publish(ClientState::Connecting);
    }

    /// The session, the push channel and push delivery are all up; returns the
    /// new session's number.
    pub fn on_connected(&mut self) -> (session: u64)
        requires
            old(self).wf(),
            old(self).state is Connecting,
            old(self).sessions < u64::MAX,
        ensures
            final(self).wf(),
            session == old(self).sessions + 1,
            final(self).sessions == session,
            final(self).state == (ClientState::Connected { session }),
            final(self).published@ == old(self).published@.push(final(self).state),
    {
        let session = self.sessions + 1;
        self.publish(ClientState::Connected { session });
        self.sessions = session;
        session
    }

    /// The attempt failed, or the running session ended: the next attempt
    /// waits for the reconnect delay.
    pub fn on_failure(&mut self, error: ConnectError, now: u64)
        requires
            old(self).wf(),
            !(old(self).state is Disconnected),
        ensures
            final(self).wf(),
            final(self).state == (ClientState::Disconnected {
                last_error: Some(error),
                delay_connect_until: Some(
                    if now <= u64::MAX - RECONNECT_DELAY_MS {
                        (now + RECONNECT_DELAY_MS) as u64
                    } else {
                        u64::MAX
                    },
                ),
            }),
            final(self).published@ == old(self).published@.push(final(self).state),
            final(self).sessions == old(self).sessions,
    {
        let until = now.saturating_add(RECONNECT_DELAY_MS);
        self.publish(
            ClientState::Disconnected { last_error: Some(error), delay_connect_until: Some(until) },
        );
    }
}

} // verus!
