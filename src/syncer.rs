use vstd::prelude::*;
use crate::push::{DataType, PushObject};
use crate::query_state::{EmailQueryState, lemma_query_history_push, query_history_ok, query_step};

verus! {

/// What the task that owns a mailbox syncer does next.
#[derive(Clone, Copy, Debug, PartialEq, Eq, Structural)]
pub enum SyncerAction {
    /// Run one sync of the mailbox, then report its outcome.
    StartSync,
    /// Wait for the next event.
    Wait,
}

/// The decisions of one mailbox's email syncer: it syncs only while someone
/// watches, once for each new watcher and once for each relevant push.
pub struct MailboxSyncer {
    /// The state published to watchers.
    pub state: EmailQueryState,
    /// The number of watchers subscribed.
    pub watchers: usize,
    /// A sync was asked for while one was running.
    pub sync_requested: bool,
    /// Every state published so far, oldest first.
    pub published: Ghost<Seq<EmailQueryState>>,
}

impl MailboxSyncer {
    pub open spec fn syncing(&self) -> bool {
        self.state is InProgress
    }

    pub open spec fn wf(&self) -> bool {
        &&& query_history_ok(self.published@)
        &&& self.published@.last() == self.state
        &&& self.sync_requested ==> self.syncing()
    }

    pub fn new() -> (r: MailboxSyncer)
        ensures
            r.wf(),
            r.state is NotStarted,
            r.watchers == 0,
            r.published@ == seq![EmailQueryState::NotStarted],
    {
        let ghost first = seq![EmailQueryState::NotStarted];
        MailboxSyncer {
            state: EmailQueryState::NotStarted,
            watchers: 0,
            sync_requested: false,
            published: Ghost(first),
        }
    }

    fn publish(&mut self, s: EmailQueryState)
        requires
            old(self).wf(),
            query_step(old(self).state, s),
            !(s is InProgress) ==> !old(self).sync_requested,
        ensures
            final(self).wf(),
            final(self).state == s,
            final(self).published@ == old(self).published@.push(s),
            final(self).watchers == old(self).watchers,
            final(self).sync_requested == old(self).sync_requested,
    {
        proof {
            lemma_query_history_push(self.published@, s);
        }
        self.published = Ghost(self.published@.push(s));
        self.state = s;
    }

    /// Starts a sync now, or asks for one after the running sync.
    fn request_sync(&mut self) -> (a: SyncerAction)
        requires
            old(self).wf(),
        ensures
            final(self).wf(),
            final(self).watchers == old(self).watchers,
            final(self).syncing(),
            old(self).syncing() ==> a == SyncerAction::Wait && final(self).sync_requested
                && final(self).published == old(self).published,
            !old(self).syncing() ==> a == SyncerAction::StartSync && !final(self).sync_requested
                && final(self).published@ == old(self).published@.push(EmailQueryState::InProgress),
    {
        if let EmailQueryState::InProgress = self.state {
            self.sync_requested = true;
            SyncerAction::Wait
        } else {
            self.publish(EmailQueryState::InProgress);
            SyncerAction::StartSync
        }
    }

    /// A new watcher subscribed: it is handed the current state and a sync
    /// starts for it.
    pub fn on_watcher_request(&mut self) -> (a: SyncerAction)
        requires
            old(self).wf(),
            old(self).watchers < usize::MAX,
        ensures
            final(self).wf(),
            final(self).watchers == old(self).watchers + 1,
            final(self).syncing(),
            old(self).syncing() ==> a == SyncerAction::Wait && final(self).published
                == old(self).published,
            !old(self).syncing() ==> a == SyncerAction::StartSync && final(self).published@
                == old(self).published@.push(EmailQueryState::InProgress),
            old(self).syncing() ==> final(self).sync_requested,
            !old(self).syncing() ==> !final(self).sync_requested,
    {
        self.watchers = self.watchers + 1;
        self.request_sync()
    }

    /// A watcher went away.
    pub fn on_watcher_dropped(&mut self)
        requires
            old(self).wf(),
        ensures
            final(self).wf(),
            final(self).watchers == if old(self).watchers > 0 {
                old(self).watchers - 1
            } else {
                0
            },
            final(self).state == old(self).state,
            final(self).published == old(self).published,
    {
        if self.watchers > 0 {
            self.watchers = self.watchers - 1;
        }
    }

    /// A push arrived: a change of emails starts a sync when someone watches.
    pub fn on_push(&mut self, push: &PushObject) -> (a: SyncerAction)
        requires
            old(self).wf(),
        ensures
            final(self).wf(),
            final(self).watchers == old(self).watchers,
            !(push.names(DataType::Email) && old(self).watchers > 0) ==> a == SyncerAction::Wait
                && *final(self) == *old(self),
            push.names(DataType::Email) && old(self).watchers > 0 ==> final(self).syncing() && (a
                == SyncerAction::StartSync <==> !old(self).syncing()),
            a == SyncerAction::StartSync ==> final(self).published@ == old(self).published@.push(
                EmailQueryState::InProgress,
            ) && !final(self).sync_requested,
    {
        if self.watchers > 0 && push.mentions(DataType::Email) {
            self.request_sync()
        } else {
            SyncerAction::Wait
        }
    }

    /// The running sync ended: its outcome is published, and a sync asked for
    /// meanwhile starts when someone still watches.
    pub fn on_sync_finished(&mut self, outcome: Result<(), String>) -> (a: SyncerAction)
        requires
            old(self).wf(),
            old(self).syncing(),
        ensures
            final(self).wf(),
            final(self).watchers == old(self).watchers,
            ({
                let done = match outcome {
                    Ok(()) => EmailQueryState::UpToDate,
                    Err(details) => EmailQueryState::Error { details },
                };
                &&& old(self).sync_requested && old(self).watchers > 0 ==> a
                    == SyncerAction::StartSync && final(self).published@ == old(
                    self,
                ).published@.push(done).push(EmailQueryState::InProgress)
                &&& !final(self).sync_requested
                &&& !(old(self).sync_requested && old(self).watchers > 0) ==> a
                    == SyncerAction::Wait && final(self).state == done && final(self).published@
                    == old(self).published@.push(done)
            }),
    {
        let again = self.sync_requested && self.watchers > 0;
        self.sync_requested = false;
        let done = match outcome {
            Ok(()) => EmailQueryState::UpToDate,
            Err(details) => EmailQueryState::Error { details },
        };
        self.publish(done);
        if again {
            self.publish(EmailQueryState::InProgress);
            SyncerAction::StartSync
        } else {
            SyncerAction::Wait
        }
    }
}

} // verus!
