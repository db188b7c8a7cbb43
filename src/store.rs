use vstd::prelude::*;
use crate::model::{
    Account, AccountId, Blob, Changes, DraftRecord, EmailDraft, EmailRecord, ExternalCache,
    MailboxRecord, StoreError, TableName,
};
use crate::table::{Row, Table, row_matches};

verus! {

/// An account together with its mailbox-list cursor.
pub struct AccountRow {
    pub id: AccountId,
    pub account: Account,
    pub mailboxes_sync_state: Option<String>,
}

pub struct MailboxRow {
    pub account_id: AccountId,
    pub id: String,
    pub metadata: String,
    /// The cursor of the last durable email snapshot of this mailbox.
    pub email_sync_state: Option<String>,
}

pub struct EmailRow {
    pub account_id: AccountId,
    pub id: String,
    pub metadata: String,
    /// Body values, attachments and structure, once fetched.
    pub part_details: Option<String>,
    pub thread_id: String,
    pub received_at: i64,
    pub subject: String,
}

/// Membership of an email in a mailbox.
pub struct MailboxEmail {
    pub account_id: AccountId,
    pub mailbox_id: String,
    pub email_id: String,
}

pub struct DraftRow {
    pub account_id: AccountId,
    pub draft: DraftRecord,
}

pub struct BlobRow {
    pub account_id: AccountId,
    pub id: String,
    pub blob: Blob,
    pub last_accessed: i64,
}

pub struct CacheRow {
    pub account_id: AccountId,
    pub url: String,
    pub cache: ExternalCache,
    pub last_accessed: i64,
}

impl Row for MailboxRow {
    open spec fn account(&self) -> i64 {
        self.account_id
    }

    open spec fn key(&self) -> Seq<char> {
        self.id@
    }

    fn has_key(&self, account: i64, id: &String) -> (r: bool) {
        self.account_id == account && self.id == *id
    }

    fn account_of(&self) -> (r: i64) {
        self.account_id
    }

    fn key_string(&self) -> (r: String) {
        self.id.clone()
    }
}

impl Row for EmailRow {
    open spec fn account(&self) -> i64 {
        self.account_id
    }

    open spec fn key(&self) -> Seq<char> {
        self.id@
    }

    fn has_key(&self, account: i64, id: &String) -> (r: bool) {
        self.account_id == account && self.id == *id
    }

    fn account_of(&self) -> (r: i64) {
        self.account_id
    }

    fn key_string(&self) -> (r: String) {
        self.id.clone()
    }
}

impl Row for DraftRow {
    open spec fn account(&self) -> i64 {
        self.account_id
    }

    open spec fn key(&self) -> Seq<char> {
        self.draft.id@
    }

    fn has_key(&self, account: i64, id: &String) -> (r: bool) {
        self.account_id == account && self.draft.id == *id
    }

    fn account_of(&self) -> (r: i64) {
        self.account_id
    }

    fn key_string(&self) -> (r: String) {
        self.draft.id.clone()
    }
}

impl Row for BlobRow {
    open spec fn account(&self) -> i64 {
        self.account_id
    }

    open spec fn key(&self) -> Seq<char> {
        self.id@
    }

    fn has_key(&self, account: i64, id: &String) -> (r: bool) {
        self.account_id == account && self.id == *id
    }

    fn account_of(&self) -> (r: i64) {
        self.account_id
    }

    fn key_string(&self) -> (r: String) {
        self.id.clone()
    }
}

impl Row for CacheRow {
    open spec fn account(&self) -> i64 {
        self.account_id
    }

    open spec fn key(&self) -> Seq<char> {
        self.url@
    }

    fn has_key(&self, account: i64, id: &String) -> (r: bool) {
        self.account_id == account && self.url == *id
    }

    fn account_of(&self) -> (r: i64) {
        self.account_id
    }

    fn key_string(&self) -> (r: String) {
        self.url.clone()
    }
}

pub fn copy_opt_string(s: &Option<String>) -> (r: Option<String>)
    ensures
        r == *s,
{
    match s {
        Some(v) => Some(v.clone()),
        None => None,
    }
}

/// The local store: accounts, mailboxes, emails, their memberships, drafts and
/// cached objects.
pub struct Store {
    pub accounts: Vec<AccountRow>,
    pub next_account_id: AccountId,
    pub mailboxes: Table<MailboxRow>,
    pub emails: Table<EmailRow>,
    pub links: Vec<MailboxEmail>,
    pub drafts: Table<DraftRow>,
    pub blobs: Table<BlobRow>,
    pub external_cache: Table<CacheRow>,
}

impl Store {
    pub open spec fn accounts_wf(&self) -> bool {
        &&& 0 < self.next_account_id
        &&& forall|i: int|
            0 <= i < self.accounts@.len() ==> 0 < #[trigger] self.accounts@[i].id
                < self.next_account_id
        &&& forall|i: int, j: int|
            0 <= i < j < self.accounts@.len() ==> #[trigger] self.accounts@[i].id
                != #[trigger] self.accounts@[j].id
    }

    pub open spec fn has_link(&self, account: AccountId, mailbox: Seq<char>, email: Seq<char>) -> bool {
        exists|i: int|
            0 <= i < self.links@.len() && (#[trigger] self.links@[i]).account_id == account
                && self.links@[i].mailbox_id@ == mailbox && self.links@[i].email_id@ == email
    }

    /// Every membership names an email that is stored.
    pub open spec fn links_wf(&self) -> bool {
        forall|i: int|
            0 <= i < self.links@.len() ==> self.emails.contains(
                (#[trigger] self.links@[i]).account_id,
                self.links@[i].email_id@,
            )
    }

    pub open spec fn wf(&self) -> bool {
        &&& self.accounts_wf()
        &&& self.mailboxes.wf()
        &&& self.emails.wf()
        &&& self.links_wf()
        &&& self.drafts.wf()
        &&& self.blobs.wf()
        &&& self.external_cache.wf()
    }

    pub open spec fn has_account(&self, id: AccountId) -> bool {
        exists|i: int| 0 <= i < self.accounts@.len() && (#[trigger] self.accounts@[i]).id == id
    }

    /// The account row stored under an identifier, if any.
    pub open spec fn account_row(&self, id: AccountId) -> Option<AccountRow> {
        if self.has_account(id) {
            Some(
                self.accounts@[choose|i: int|
                    0 <= i < self.accounts@.len() && (#[trigger] self.accounts@[i]).id == id],
            )
        } else {
            None
        }
    }

    /// The mailbox-list cursor of an account.
    pub open spec fn mailboxes_cursor(&self, id: AccountId) -> Option<Seq<char>> {
        match self.account_row(id) {
            Some(row) => match row.mailboxes_sync_state {
                Some(s) => Some(s@),
                None => None,
            },
            None => None,
        }
    }

    /// The email cursor of a mailbox.
    pub open spec fn email_cursor(&self, account: AccountId, mailbox: Seq<char>) -> Option<Seq<char>> {
        match self.mailboxes.get(account, mailbox) {
            Some(row) => match row.email_sync_state {
                Some(s) => Some(s@),
                None => None,
            },
            None => None,
        }
    }

    /// The envelope stored for an email, if the email is stored.
    pub open spec fn email_metadata(&self, account: AccountId, id: Seq<char>) -> Option<Seq<char>> {
        match self.emails.get(account, id) {
            Some(row) => Some(row.metadata@),
            None => None,
        }
    }

    pub proof fn lemma_account_at(&self, i: int)
        requires
            self.accounts_wf(),
            0 <= i < self.accounts@.len(),
        ensures
            self.account_row(self.accounts@[i].id) == Some(self.accounts@[i]),
    {
        let id = self.accounts@[i].id;
        let j = choose|j: int| 0 <= j < self.accounts@.len() && (#[trigger] self.accounts@[j]).id == id;
        if j < i {
            assert(self.accounts@[j].id != self.accounts@[i].id);
        } else if i < j {
            assert(self.accounts@[i].id != self.accounts@[j].id);
        }
    }

    /// An empty store.
    pub fn new() -> (r: Store)
        ensures
            r.wf(),
            r.accounts@.len() == 0,
            r.links@.len() == 0,
            forall|a: AccountId, k: Seq<char>|
                #[trigger] r.mailboxes.get(a, k) is None && r.emails.get(a, k) is None
                    && r.drafts.get(a, k) is None && r.blobs.get(a, k) is None
                    && r.external_cache.get(a, k) is None,
    {
        Store {
            accounts: Vec::new(),
            next_account_id: 1,
            mailboxes: Table::new(),
            emails: Table::new(),
            links: Vec::new(),
            drafts: Table::new(),
            blobs: Table::new(),
            external_cache: Table::new(),
        }
    }

    /// The position of an account's row.
    pub fn find_account(&self, id: AccountId) -> (r: Option<usize>)
        requires
            self.accounts_wf(),
        ensures
            r is None <==> !self.has_account(id),
            r matches Some(i) ==> i < self.accounts@.len() && self.accounts@[i as int].id == id
                && self.account_row(id) == Some(self.accounts@[i as int]),
    {
        let mut i: usize = 0;
        while i < self.accounts.len()
            invariant
                self.accounts_wf(),
                i <= self.accounts@.len(),
                forall|j: int| 0 <= j < i ==> (#[trigger] self.accounts@[j]).id != id,
            decreases self.accounts@.len() - i,
        {
            if self.accounts[i].id == id {
                proof {
                    self.lemma_account_at(i as int);
                }
                return Some(i);
            }
            i = i + 1;
        }
        None
    }

    /// Adds an account with no mailbox-list cursor and returns its new
    /// identifier.
    pub fn add_account(&mut self, account: Account) -> (r: Result<AccountId, StoreError>)
        requires
            old(self).wf(),
        ensures
            final(self).wf(),
            r is Err <==> old(self).next_account_id == i64::MAX,
            r is Err ==> *final(self) == *old(self),
            r matches Ok(id) ==> {
                &&& !old(self).has_account(id)
                &&& final(self).account_row(id) == Some(
                    AccountRow { id, account, mailboxes_sync_state: None },
                )
                &&& forall|other: AccountId|
                    other != id ==> #[trigger] final(self).account_row(other) == old(
                        self,
                    ).account_row(other)
                &&& final(self).mailboxes == old(self).mailboxes
                &&& final(self).emails == old(self).emails
                &&& final(self).links == old(self).links
                &&& final(self).drafts == old(self).drafts
            },
    {
        if self.next_account_id == i64::MAX {
            return Err(StoreError::Conflict);
        }
        let ghost pre = *self;
        let id = self.next_account_id;
        let ghost row = AccountRow { id, account, mailboxes_sync_state: None };
        self.accounts.push(AccountRow { id, account, mailboxes_sync_state: None });
        self.next_account_id = id + 1;
        let ghost n = pre.accounts@.len() as int;
        assert(self.accounts@[n] == row);
        assert(self.accounts_wf()) by {
            assert forall|i: int| 0 <= i < self.accounts@.len() implies 0 < #[trigger] self.accounts@[i].id
                < self.next_account_id by {
                if i < n {
                    assert(self.accounts@[i] == pre.accounts@[i]);
                }
            }
            assert forall|i: int, j: int|
                0 <= i < j < self.accounts@.len() implies #[trigger] self.accounts@[i].id
                != #[trigger] self.accounts@[j].id by {
                assert(self.accounts@[i] == pre.accounts@[i]);
                if j < n {
                    assert(self.accounts@[j] == pre.accounts@[j]);
                }
            }
        }
        proof {
            self.lemma_account_at(n);
            if pre.has_account(id) {
                let i = choose|i: int| 0 <= i < pre.accounts@.len() && (#[trigger] pre.accounts@[i]).id == id;
            }
            assert forall|other: AccountId| other != id implies #[trigger] self.account_row(other)
                == pre.account_row(other) by {
                if pre.has_account(other) {
                    let i = choose|i: int|
                        0 <= i < pre.accounts@.len() && (#[trigger] pre.accounts@[i]).id == other;
                    pre.lemma_account_at(i);
                    assert(self.accounts@[i] == pre.accounts@[i]);
                    self.lemma_account_at(i);
                } else if self.has_account(other) {
                    let i = choose|i: int|
                        0 <= i < self.accounts@.len() && (#[trigger] self.accounts@[i]).id == other;
                    assert(i < n);
                    assert(self.accounts@[i] == pre.accounts@[i]);
                }
            }
        }
        Ok(id)
    }

    /// An account's configuration.
    pub fn get_account(&self, id: AccountId) -> (r: Option<&Account>)
        requires
            self.wf(),
        ensures
            r is None <==> !self.has_account(id),
            r matches Some(a) ==> self.account_row(id) matches Some(row) && row.account == *a,
    {
        match self.find_account(id) {
            Some(i) => Some(&self.accounts[i].account),
            None => None,
        }
    }

    /// Every account with its identifier, in the order they were added.
    pub fn list_accounts(&self) -> (r: Vec<(AccountId, Account)>)
        requires
            self.wf(),
        ensures
            r@.len() == self.accounts@.len(),
            forall|i: int|
                0 <= i < r@.len() ==> (#[trigger] r@[i]).0 == self.accounts@[i].id && r@[i].1
                    == self.accounts@[i].account,
    {
        let mut out: Vec<(AccountId, Account)> = Vec::new();
        let mut i: usize = 0;
        while i < self.accounts.len()
            invariant
                i <= self.accounts@.len(),
                out@.len() == i,
                forall|j: int|
                    0 <= j < i ==> (#[trigger] out@[j]).0 == self.accounts@[j].id && out@[j].1
                        == self.accounts@[j].account,
            decreases self.accounts@.len() - i,
        {
            out.push((self.accounts[i].id, self.accounts[i].account.copy()));
            i = i + 1;
        }
        out
    }

    /// The mailbox-list cursor of an account.
    pub fn get_mailboxes_sync_state(&self, account_id: AccountId) -> (r: Result<
        Option<String>,
        StoreError,
    >)
        requires
            self.wf(),
        ensures
            r is Err <==> !self.has_account(account_id),
            r matches Err(e) ==> e == StoreError::AccountNotFound,
            r matches Ok(s) ==> self.account_row(account_id) matches Some(row)
                && s == row.mailboxes_sync_state,
    {
        match self.find_account(account_id) {
            Some(i) => Ok(copy_opt_string(&self.accounts[i].mailboxes_sync_state)),
            None => Err(StoreError::AccountNotFound),
        }
    }
}


/// Whether some identifier of a list has the given text.
pub open spec fn names(ids: Seq<String>, k: Seq<char>) -> bool {
    exists|i: int| 0 <= i < ids.len() && (#[trigger] ids[i])@ == k
}

/// The position is the last one of the list with that identifier.
pub open spec fn last_mailbox(recs: Seq<MailboxRecord>, i: int) -> bool {
    forall|l: int| i < l < recs.len() ==> (#[trigger] recs[l]).id@ != recs[i].id@
}

/// Whether one of the first `n` identifiers of a list has the given text.
pub open spec fn names_upto(ids: Seq<String>, n: int, k: Seq<char>) -> bool {
    exists|j: int| 0 <= j < n && (#[trigger] ids[j])@ == k
}

pub proof fn lemma_names_upto_step(ids: Seq<String>, n: int, k: Seq<char>)
    requires
        0 <= n < ids.len(),
    ensures
        names_upto(ids, n + 1, k) == (names_upto(ids, n, k) || ids[n]@ == k),
{
    if names_upto(ids, n + 1, k) && !(ids[n]@ == k) {
        let j = choose|j: int| 0 <= j < n + 1 && (#[trigger] ids[j])@ == k;
        assert(j < n);
    }
    if ids[n]@ == k {
        assert(0 <= n < n + 1 && ids[n]@ == k);
    }
}

pub open spec fn names_mailbox(recs: Seq<MailboxRecord>, k: Seq<char>) -> bool {
    exists|i: int| 0 <= i < recs.len() && (#[trigger] recs[i]).id@ == k
}

impl MailboxEmail {
    pub fn copy(&self) -> (r: MailboxEmail)
        ensures
            r == *self,
    {
        MailboxEmail {
            account_id: self.account_id,
            mailbox_id: self.mailbox_id.clone(),
            email_id: self.email_id.clone(),
        }
    }
}

impl Store {
    /// The mailbox stored under a key has this metadata and email cursor.
    pub open spec fn mailbox_is(
        &self,
        account: AccountId,
        id: Seq<char>,
        metadata: Seq<char>,
        sync: Option<String>,
    ) -> bool {
        match self.mailboxes.get(account, id) {
            Some(row) => row.metadata@ == metadata && row.email_sync_state == sync,
            None => false,
        }
    }

    /// The email cursor stored with a mailbox, none for a mailbox not stored.
    pub open spec fn prior_email_state(&self, account: AccountId, id: Seq<char>) -> Option<String> {
        match self.mailboxes.get(account, id) {
            Some(o) => o.email_sync_state,
            None => None,
        }
    }

    /// The memberships other than those of one account that the two stores share.
    pub open spec fn links_same_elsewhere(&self, other: &Store, account: AccountId) -> bool {
        forall|a: AccountId, m: Seq<char>, e: Seq<char>|
            a != account ==> (#[trigger] self.has_link(a, m, e) <==> other.has_link(a, m, e))
    }

    /// Removes every membership of one mailbox, or of one email.
    fn drop_links(&mut self, account_id: AccountId, id: &String, by_mailbox: bool)
        requires
            old(self).wf(),
        ensures
            final(self).wf(),
            final(self).accounts == old(self).accounts,
            final(self).next_account_id == old(self).next_account_id,
            final(self).mailboxes == old(self).mailboxes,
            final(self).emails == old(self).emails,
            final(self).drafts == old(self).drafts,
            final(self).blobs == old(self).blobs,
            final(self).external_cache == old(self).external_cache,
            forall|a: AccountId, m: Seq<char>, e: Seq<char>|
                #[trigger] final(self).has_link(a, m, e) <==> (old(self).has_link(a, m, e) && !(a
                    == account_id && (if by_mailbox {
                    m == id@
                } else {
                    e == id@
                }))),
    {
        let ghost pre = *self;
        let mut kept: Vec<MailboxEmail> = Vec::new();
        let mut i: usize = 0;
        while i < self.links.len()
            invariant
                *self == pre,
                pre.wf(),
                i <= self.links@.len(),
                forall|j: int|
                    0 <= j < kept@.len() ==> pre.emails.contains(
                        (#[trigger] kept@[j]).account_id,
                        kept@[j].email_id@,
                    ),
                forall|j: int|
                    0 <= j < kept@.len() ==> exists|x: int|
                        0 <= x < i && #[trigger] kept@[j] == pre.links@[x],
                forall|j: int|
                    0 <= j < kept@.len() ==> !((#[trigger] kept@[j]).account_id == account_id
                        && (if by_mailbox {
                        kept@[j].mailbox_id@ == id@
                    } else {
                        kept@[j].email_id@ == id@
                    })),
                forall|x: int|
                    0 <= x < i && !((#[trigger] pre.links@[x]).account_id == account_id && (
                    if by_mailbox {
                        pre.links@[x].mailbox_id@ == id@
                    } else {
                        pre.links@[x].email_id@ == id@
                    })) ==> exists|j: int| 0 <= j < kept@.len() && kept@[j] == pre.links@[x],
            decreases self.links@.len() - i,
        {
            let l = &self.links[i];
            let hit = l.account_id == account_id && (if by_mailbox {
                l.mailbox_id == *id
            } else {
                l.email_id == *id
            });
            if !hit {
                let ghost before = kept@;
                kept.push(l.copy());
                proof {
                    assert forall|j: int|
                        0 <= j < kept@.len() implies exists|x: int|
                            0 <= x < i + 1 && #[trigger] kept@[j] == pre.links@[x] by {
                        if j < before.len() {
                            assert(kept@[j] == before[j]);
                        } else {
                            assert(kept@[j] == pre.links@[i as int]);
                        }
                    }
                    assert forall|x: int|
                        0 <= x < i + 1 && !((#[trigger] pre.links@[x]).account_id == account_id
                            && (if by_mailbox {
                            pre.links@[x].mailbox_id@ == id@
                        } else {
                            pre.links@[x].email_id@ == id@
                        })) implies exists|j: int|
                        0 <= j < kept@.len() && kept@[j] == pre.links@[x] by {
                        if x < i {
                            let j = choose|j: int| 0 <= j < before.len() && before[j] == pre.links@[x];
                            assert(kept@[j] == before[j]);
                        } else {
                            assert(kept@[before.len() as int] == pre.links@[x]);
                        }
                    }
                }
            }
            i = i + 1;
        }
        self.links = kept;
        proof {
            assert forall|a: AccountId, m: Seq<char>, e: Seq<char>|
                #[trigger] self.has_link(a, m, e) <==> (pre.has_link(a, m, e) && !(a == account_id
                    && (if by_mailbox {
                    m == id@
                } else {
                    e == id@
                }))) by {
                if self.has_link(a, m, e) {
                    let j = choose|j: int|
                        0 <= j < self.links@.len() && (#[trigger] self.links@[j]).account_id == a
                            && self.links@[j].mailbox_id@ == m && self.links@[j].email_id@ == e;
                    let x = choose|x: int| 0 <= x < pre.links@.len() && #[trigger] self.links@[j] == pre.links@[x];
                    assert(pre.links@[x].account_id == a);
                }
                if pre.has_link(a, m, e) && !(a == account_id && (if by_mailbox {
                    m == id@
                } else {
                    e == id@
                })) {
                    let x = choose|x: int|
                        0 <= x < pre.links@.len() && (#[trigger] pre.links@[x]).account_id == a
                            && pre.links@[x].mailbox_id@ == m && pre.links@[x].email_id@ == e;
                    let j = choose|j: int| 0 <= j < self.links@.len() && self.links@[j] == pre.links@[x];
                    assert(self.links@[j].account_id == a);
                }
            }
        }
    }

    /// Records a new mailbox-list cursor for the account at a position.
    fn set_mailboxes_cursor_at(&mut self, i: usize, state: &String)
        requires
            old(self).wf(),
            i < old(self).accounts@.len(),
        ensures
            final(self).wf(),
            final(self).mailboxes_cursor(old(self).accounts@[i as int].id) == Some(state@),
            final(self).account_row(old(self).accounts@[i as int].id) matches Some(row)
                && row.account == old(self).accounts@[i as int].account,
            forall|other: AccountId|
                other != old(self).accounts@[i as int].id ==> #[trigger] final(self).account_row(
                    other,
                ) == old(self).account_row(other),
            final(self).mailboxes == old(self).mailboxes,
            final(self).emails == old(self).emails,
            final(self).links == old(self).links,
            final(self).drafts == old(self).drafts,
            final(self).blobs == old(self).blobs,
            final(self).external_cache == old(self).external_cache,
    {
        let ghost pre = *self;
        let row = AccountRow {
            id: self.accounts[i].id,
            account: self.accounts[i].account.copy(),
            mailboxes_sync_state: Some(state.clone()),
        };
        self.accounts.set(i, row);
        assert(self.accounts_wf()) by {
            assert forall|x: int| 0 <= x < self.accounts@.len() implies 0 < #[trigger] self.accounts@[x].id
                < self.next_account_id by {
                assert(self.accounts@[x].id == pre.accounts@[x].id);
            }
            assert forall|x: int, y: int|
                0 <= x < y < self.accounts@.len() implies #[trigger] self.accounts@[x].id
                != #[trigger] self.accounts@[y].id by {
                assert(self.accounts@[x].id == pre.accounts@[x].id);
                assert(self.accounts@[y].id == pre.accounts@[y].id);
            }
        }
        proof {
            self.lemma_account_at(i as int);
            assert forall|other: AccountId| other != pre.accounts@[i as int].id implies #[trigger] self.account_row(other)
                == pre.account_row(other) by {
                if pre.has_account(other) {
                    let x = choose|x: int|
                        0 <= x < pre.accounts@.len() && (#[trigger] pre.accounts@[x]).id == other;
                    pre.lemma_account_at(x);
                    assert(self.accounts@[x] == pre.accounts@[x]);
                    self.lemma_account_at(x);
                } else if self.has_account(other) {
                    let x = choose|x: int|
                        0 <= x < self.accounts@.len() && (#[trigger] self.accounts@[x]).id == other;
                    assert(self.accounts@[x] == pre.accounts@[x]);
                }
            }
        }
    }

    /// Applies one mailbox-list snapshot in one step: stores the updated
    /// mailboxes, deletes the destroyed ones with their memberships, and records
    /// the new cursor. The event names `mailboxes` when a row was written or
    /// deleted.
    pub fn update_mailboxes(
        &mut self,
        account_id: AccountId,
        new_state: &String,
        updated: &Vec<MailboxRecord>,
        deleted: &Vec<String>,
    ) -> (r: Result<Changes, StoreError>)
        requires
            old(self).wf(),
        ensures
            final(self).wf(),
            r is Err <==> !old(self).has_account(account_id),
            r matches Err(e) ==> e == StoreError::AccountNotFound && *final(self) == *old(self),
            r matches Ok(ch) ==> {
                &&& final(self).mailboxes_cursor(account_id) == Some(new_state@)
                &&& forall|other: AccountId|
                    other != account_id ==> #[trigger] final(self).account_row(other) == old(
                        self,
                    ).account_row(other)
                &&& final(self).account_row(account_id) matches Some(row) && old(self).account_row(
                    account_id,
                ) matches Some(orow) && row.account == orow.account
                &&& forall|i: int|
                    0 <= i < deleted@.len() ==> !final(self).mailboxes.contains(
                        account_id,
                        (#[trigger] deleted@[i])@,
                    )
                &&& forall|i: int|
                    0 <= i < updated@.len() && last_mailbox(updated@, i) && !names(
                        deleted@,
                        (#[trigger] updated@[i]).id@,
                    ) ==> final(self).mailbox_is(account_id, updated@[i].id@, updated@[i].metadata@, old(self).prior_email_state(account_id, updated@[i].id@))
                &&& forall|a: AccountId, k: Seq<char>|
                    !(a == account_id && (names_mailbox(updated@, k) || names(deleted@, k)))
                        ==> #[trigger] final(self).mailboxes.get(a, k) == old(self).mailboxes.get(
                        a,
                        k,
                    )
                &&& forall|m: Seq<char>, e: Seq<char>|
                    #[trigger] final(self).has_link(account_id, m, e) <==> (old(self).has_link(
                        account_id,
                        m,
                        e,
                    ) && !names(deleted@, m))
                &&& final(self).links_same_elsewhere(old(self), account_id)
                &&& final(self).emails == old(self).emails
                &&& final(self).drafts == old(self).drafts
                &&& final(self).blobs == old(self).blobs
                &&& ch.has(TableName::Mailboxes) <==> (updated@.len() > 0 || exists|i: int|
                    0 <= i < deleted@.len() && old(self).mailboxes.contains(
                        account_id,
                        (#[trigger] deleted@[i])@,
                    ))
                &&& forall|t: TableName| #[trigger] ch.has(t) ==> t == TableName::Mailboxes
            },
    {
        let pos = match self.find_account(account_id) {
            Some(p) => p,
            None => {
                return Err(StoreError::AccountNotFound);
            },
        };
        let ghost orig = *self;
        let mut i: usize = 0;
        while i < updated.len()
            invariant
                self.wf(),
                i <= updated@.len(),
                self.accounts == orig.accounts,
                self.next_account_id == orig.next_account_id,
                self.emails == orig.emails,
                self.links == orig.links,
                self.drafts == orig.drafts,
                self.blobs == orig.blobs,
                self.external_cache == orig.external_cache,
                forall|j: int|
                    0 <= j < i && (forall|l: int| j < l < i ==> (#[trigger] updated@[l]).id@
                        != updated@[j].id@) ==> self.mailbox_is(account_id, updated@[j].id@, updated@[j].metadata@, orig.prior_email_state(account_id, updated@[j].id@)),
                forall|j: int|
                    0 <= j < i ==> self.mailboxes.contains(account_id, (#[trigger] updated@[j]).id@) && self.prior_email_state(account_id, updated@[j].id@) == orig.prior_email_state(account_id, updated@[j].id@),
                forall|a: AccountId, k: Seq<char>|
                    !(a == account_id && (exists|j: int| 0 <= j < i && (#[trigger] updated@[j]).id@ == k))
                        ==> #[trigger] self.mailboxes.get(a, k) == orig.mailboxes.get(a, k),
            decreases updated@.len() - i,
        {
            let rec = &updated[i];
            let ghost before = *self;
            let sync = match self.mailboxes.lookup(account_id, &rec.id) {
                Some(row) => copy_opt_string(&row.email_sync_state),
                None => None,
            };
            self.mailboxes.upsert(
                MailboxRow {
                    account_id,
                    id: rec.id.clone(),
                    metadata: rec.metadata.clone(),
                    email_sync_state: sync,
                },
            );
            proof {
                assert forall|j: int|
                    0 <= j < i + 1 implies self.mailboxes.contains(account_id, (#[trigger] updated@[j]).id@) && self.prior_email_state(account_id, updated@[j].id@) == orig.prior_email_state(account_id, updated@[j].id@) by {
                    if j < i && updated@[j].id@ != rec.id@ {
                        assert(self.mailboxes.get(account_id, updated@[j].id@) == before.mailboxes.get(account_id, updated@[j].id@));
                    }
                    if j < i && updated@[j].id@ == rec.id@ {
                        assert(before.mailboxes.get(account_id, updated@[j].id@) is Some);
                    }
                    if j == i {
                        if exists|l: int| 0 <= l < i && (#[trigger] updated@[l]).id@ == rec.id@ {
                            let l = choose|l: int| 0 <= l < i && (#[trigger] updated@[l]).id@ == rec.id@;
                            assert(before.mailboxes.get(account_id, updated@[l].id@) is Some);
                        } else {
                            assert(before.mailboxes.get(account_id, rec.id@) == orig.mailboxes.get(account_id, rec.id@));
                        }
                    }
                }
                assert forall|j: int|
                    0 <= j < i + 1 && (forall|l: int| j < l < i + 1 ==> (#[trigger] updated@[l]).id@
                        != updated@[j].id@) implies self.mailbox_is(account_id, updated@[j].id@, updated@[j].metadata@, orig.prior_email_state(account_id, updated@[j].id@)) by {
                    if j < i {
                        assert(updated@[i as int].id@ != updated@[j].id@);
                        assert(self.mailboxes.get(account_id, updated@[j].id@) == before.mailboxes.get(account_id, updated@[j].id@));
                    }
                }
                assert forall|a: AccountId, k: Seq<char>|
                    !(a == account_id && (exists|j: int| 0 <= j < i + 1 && (#[trigger] updated@[j]).id@ == k))
                        implies #[trigger] self.mailboxes.get(a, k) == orig.mailboxes.get(a, k) by {
                    if a == account_id {
                        assert(!(exists|j: int| 0 <= j < i && (#[trigger] updated@[j]).id@ == k)) by {
                            if exists|j: int| 0 <= j < i && (#[trigger] updated@[j]).id@ == k {
                                let j = choose|j: int| 0 <= j < i && (#[trigger] updated@[j]).id@ == k;
                                assert(0 <= j < i + 1 && updated@[j].id@ == k);
                            }
                        }
                        assert(updated@[i as int].id@ != k);
                    }
                }
            }
            i = i + 1;
        }
        let ghost mid = *self;
        let mut any_deleted = false;
        let mut d: usize = 0;
        while d < deleted.len()
            invariant
                self.wf(),
                d <= deleted@.len(),
                self.accounts == orig.accounts,
                self.next_account_id == orig.next_account_id,
                self.emails == orig.emails,
                self.drafts == orig.drafts,
                self.blobs == orig.blobs,
                self.external_cache == orig.external_cache,
                mid.wf(),
                forall|j: int| 0 <= j < d ==> !self.mailboxes.contains(account_id, (#[trigger] deleted@[j])@),
                forall|a: AccountId, k: Seq<char>|
                    !(a == account_id && names_upto(deleted@, d as int, k))
                        ==> #[trigger] self.mailboxes.get(a, k) == mid.mailboxes.get(a, k),
                forall|a: AccountId, m: Seq<char>, e: Seq<char>|
                    #[trigger] self.has_link(a, m, e) <==> (mid.has_link(a, m, e) && !(a == account_id
                        && names_upto(deleted@, d as int, m))),
                any_deleted <==> exists|j: int|
                    0 <= j < d && mid.mailboxes.contains(account_id, (#[trigger] deleted@[j])@),
            decreases deleted@.len() - d,
        {
            let ghost before = *self;
            let removed = self.mailboxes.remove(account_id, &deleted[d]);
            self.drop_links(account_id, &deleted[d], true);
            proof {
                let k0 = deleted@[d as int]@;
                assert forall|k: Seq<char>| #[trigger] names_upto(deleted@, d as int + 1, k) == (names_upto(deleted@, d as int, k) || deleted@[d as int]@ == k) by {
                    lemma_names_upto_step(deleted@, d as int, k);
                }
                if names_upto(deleted@, d as int, k0) {
                    let j = choose|j: int| 0 <= j < d && (#[trigger] deleted@[j])@ == k0;
                    assert(!before.mailboxes.contains(account_id, deleted@[j]@));
                } else {
                    assert(before.mailboxes.get(account_id, k0) == mid.mailboxes.get(account_id, k0));
                }
                assert forall|j: int| 0 <= j < d + 1 implies !self.mailboxes.contains(account_id, (#[trigger] deleted@[j])@) by {
                    if j < d && deleted@[j]@ != k0 {
                        assert(self.mailboxes.get(account_id, deleted@[j]@) == before.mailboxes.get(account_id, deleted@[j]@));
                    }
                }
                if exists|j: int| 0 <= j < d + 1 && mid.mailboxes.contains(account_id, (#[trigger] deleted@[j])@) {
                    if !(exists|j: int| 0 <= j < d && mid.mailboxes.contains(account_id, (#[trigger] deleted@[j])@)) {
                        assert(!names_upto(deleted@, d as int, k0)) by {
                            if names_upto(deleted@, d as int, k0) {
                                let j = choose|j: int| 0 <= j < d && (#[trigger] deleted@[j])@ == k0;
                                let j2 = choose|j: int| 0 <= j < d + 1 && mid.mailboxes.contains(account_id, (#[trigger] deleted@[j])@);
                                assert(j2 == d);
                                assert(mid.mailboxes.contains(account_id, deleted@[j]@));
                            }
                        }
                        let j2 = choose|j: int| 0 <= j < d + 1 && mid.mailboxes.contains(account_id, (#[trigger] deleted@[j])@);
                        assert(j2 == d);
                        assert(removed);
                    }
                }
                if removed {
                    assert(0 <= d < d + 1 && mid.mailboxes.contains(account_id, deleted@[d as int]@));
                }
                assert forall|a: AccountId, m: Seq<char>, e: Seq<char>|
                    #[trigger] self.has_link(a, m, e) <==> (mid.has_link(a, m, e) && !(a == account_id
                        && names_upto(deleted@, d as int + 1, m))) by {
                    assert(before.has_link(a, m, e) <==> (mid.has_link(a, m, e) && !(a == account_id
                        && names_upto(deleted@, d as int, m))));
                    lemma_names_upto_step(deleted@, d as int, m);
                }
            }
            any_deleted = any_deleted || removed;
            d = d + 1;
        }
        let ghost after_loop = *self;
        self.set_mailboxes_cursor_at(pos, new_state);
        let mut ch = Changes::none();
        if updated.len() > 0 || any_deleted {
            ch.tables.push(TableName::Mailboxes);
        }
        proof {
            assert forall|a: AccountId, k: Seq<char>|
                !(a == account_id && (names_mailbox(updated@, k) || names(deleted@, k)))
                    implies #[trigger] self.mailboxes.get(a, k) == orig.mailboxes.get(a, k) by {
                if a == account_id {
                    assert(names(deleted@, k) == names_upto(deleted@, deleted@.len() as int, k));
                    assert(!(exists|j: int| 0 <= j < updated@.len() && (#[trigger] updated@[j]).id@ == k));
                }
            }
            assert forall|i: int|
                0 <= i < updated@.len() && last_mailbox(updated@, i) && !names(
                    deleted@,
                    (#[trigger] updated@[i]).id@,
                ) implies self.mailbox_is(account_id, updated@[i].id@, updated@[i].metadata@, orig.prior_email_state(account_id, updated@[i].id@)) by {
                assert(names(deleted@, updated@[i].id@) == names_upto(deleted@, deleted@.len() as int, updated@[i].id@));
                assert(self.mailboxes.get(account_id, updated@[i].id@) == mid.mailboxes.get(account_id, updated@[i].id@));
            }
            assert forall|m: Seq<char>, e: Seq<char>|
                #[trigger] self.has_link(account_id, m, e) <==> (orig.has_link(account_id, m, e)
                    && !names(deleted@, m)) by {
                assert(mid.has_link(account_id, m, e) == orig.has_link(account_id, m, e));
                assert(self.has_link(account_id, m, e) == after_loop.has_link(account_id, m, e));
                assert(names(deleted@, m) == names_upto(deleted@, deleted@.len() as int, m));
            }
            assert forall|a: AccountId, m: Seq<char>, e: Seq<char>|
                a != account_id implies (#[trigger] self.has_link(a, m, e) <==> orig.has_link(a, m, e)) by {
                assert(mid.has_link(a, m, e) == orig.has_link(a, m, e));
                assert(self.has_link(a, m, e) == after_loop.has_link(a, m, e));
            }
            if updated@.len() == 0 {
                assert forall|j: int| 0 <= j < deleted@.len() implies mid.mailboxes.contains(account_id, (#[trigger] deleted@[j])@) == orig.mailboxes.contains(account_id, deleted@[j]@) by {
                    assert(mid.mailboxes.get(account_id, deleted@[j]@) == orig.mailboxes.get(account_id, deleted@[j]@));
                }
            }
            if ch.tables@.len() > 0 {
                assert(ch.tables@[0] == TableName::Mailboxes);
                assert(ch.has(TableName::Mailboxes));
            }
        }
        Ok(ch)
    }
}


/// Whether some identifier of a list has the given text.
pub fn names_exec(ids: &Vec<String>, k: &String) -> (r: bool)
    ensures
        r == names(ids@, k@),
{
    let mut i: usize = 0;
    while i < ids.len()
        invariant
            i <= ids@.len(),
            forall|j: int| 0 <= j < i ==> (#[trigger] ids@[j])@ != k@,
        decreases ids@.len() - i,
    {
        if ids[i] == *k {
            return true;
        }
        i = i + 1;
    }
    false
}

/// The memberships of an email are exactly the mailboxes of a list.
pub open spec fn links_match(s: &Store, account_id: AccountId, email: Seq<char>, ids: Seq<String>) -> bool {
    forall|m: Seq<char>| #[trigger] s.has_link(account_id, m, email) == names(ids, m)
}

/// No two emails of a batch share an identifier.
pub open spec fn distinct_emails(recs: Seq<EmailRecord>) -> bool {
    forall|x: int, y: int| 0 <= x < y < recs.len() ==> (#[trigger] recs[x]).id@ != (#[trigger] recs[y]).id@
}

/// The position is the last one of the batch with that identifier.
pub open spec fn last_email(recs: Seq<EmailRecord>, i: int) -> bool {
    forall|l: int| i < l < recs.len() ==> (#[trigger] recs[l]).id@ != recs[i].id@
}

pub open spec fn names_email_upto(recs: Seq<EmailRecord>, n: int, k: Seq<char>) -> bool {
    exists|j: int| 0 <= j < n && (#[trigger] recs[j]).id@ == k
}

impl Store {
    /// Adds one membership of a stored email.
    fn add_link(&mut self, account_id: AccountId, mailbox_id: &String, email_id: &String)
        requires
            old(self).wf(),
            old(self).emails.contains(account_id, email_id@),
        ensures
            final(self).wf(),
            final(self).accounts == old(self).accounts,
            final(self).next_account_id == old(self).next_account_id,
            final(self).mailboxes == old(self).mailboxes,
            final(self).emails == old(self).emails,
            final(self).drafts == old(self).drafts,
            final(self).blobs == old(self).blobs,
            final(self).external_cache == old(self).external_cache,
            forall|a: AccountId, m: Seq<char>, e: Seq<char>|
                #[trigger] final(self).has_link(a, m, e) <==> (old(self).has_link(a, m, e) || (a
                    == account_id && m == mailbox_id@ && e == email_id@)),
    {
        let ghost pre = *self;
        let mut i: usize = 0;
        while i < self.links.len()
            invariant
                *self == pre,
                pre.wf(),
                i <= self.links@.len(),
                forall|j: int|
                    0 <= j < i ==> !((#[trigger] self.links@[j]).account_id == account_id
                        && self.links@[j].mailbox_id@ == mailbox_id@ && self.links@[j].email_id@
                        == email_id@),
            decreases self.links@.len() - i,
        {
            let l = &self.links[i];
            if l.account_id == account_id && l.mailbox_id == *mailbox_id && l.email_id == *email_id {
                assert(self.links@[i as int].account_id == account_id);
                return;
            }
            i = i + 1;
        }
        self.links.push(
            MailboxEmail {
                account_id,
                mailbox_id: mailbox_id.clone(),
                email_id: email_id.clone(),
            },
        );
        proof {
            let n = pre.links@.len() as int;
            assert forall|x: int| 0 <= x < self.links@.len() implies self.emails.contains(
                (#[trigger] self.links@[x]).account_id,
                self.links@[x].email_id@,
            ) by {
                if x < n {
                    assert(self.links@[x] == pre.links@[x]);
                }
            }
            assert forall|a: AccountId, m: Seq<char>, e: Seq<char>|
                #[trigger] self.has_link(a, m, e) <==> (pre.has_link(a, m, e) || (a == account_id
                    && m == mailbox_id@ && e == email_id@)) by {
                if pre.has_link(a, m, e) {
                    let x = choose|x: int|
                        0 <= x < pre.links@.len() && (#[trigger] pre.links@[x]).account_id == a
                            && pre.links@[x].mailbox_id@ == m && pre.links@[x].email_id@ == e;
                    assert(self.links@[x] == pre.links@[x]);
                }
                if a == account_id && m == mailbox_id@ && e == email_id@ {
                    assert(self.links@[n].account_id == a);
                }
                if self.has_link(a, m, e) {
                    let x = choose|x: int|
                        0 <= x < self.links@.len() && (#[trigger] self.links@[x]).account_id == a
                            && self.links@[x].mailbox_id@ == m && self.links@[x].email_id@ == e;
                    if x < n {
                        assert(self.links@[x] == pre.links@[x]);
                    }
                }
            }
        }
    }

    /// Whether storing an email with these mailboxes would change its
    /// memberships.
    pub fn links_differ(&self, account_id: AccountId, email_id: &String, ids: &Vec<String>) -> (r: bool)
        ensures
            r == !links_match(self, account_id, email_id@, ids@),
    {
        let mut i: usize = 0;
        while i < self.links.len()
            invariant
                i <= self.links@.len(),
                forall|j: int|
                    0 <= j < i && (#[trigger] self.links@[j]).account_id == account_id && self.links@[j].email_id@ == email_id@
                        ==> names(ids@, self.links@[j].mailbox_id@),
            decreases self.links@.len() - i,
        {
            let l = &self.links[i];
            if l.account_id == account_id && l.email_id == *email_id && !names_exec(ids, &l.mailbox_id) {
                assert(self.has_link(account_id, l.mailbox_id@, email_id@));
                return true;
            }
            i = i + 1;
        }
        let mut k: usize = 0;
        while k < ids.len()
            invariant
                k <= ids@.len(),
                forall|j: int|
                    0 <= j < self.links@.len() && (#[trigger] self.links@[j]).account_id == account_id && self.links@[j].email_id@ == email_id@
                        ==> names(ids@, self.links@[j].mailbox_id@),
                forall|j: int| 0 <= j < k ==> self.has_link(account_id, (#[trigger] ids@[j])@, email_id@),
            decreases ids@.len() - k,
        {
            if !self.has_link_exec(account_id, &ids[k], email_id) {
                assert(names(ids@, ids@[k as int]@));
                return true;
            }
            k = k + 1;
        }
        proof {
            assert forall|m: Seq<char>| #[trigger] self.has_link(account_id, m, email_id@) == names(ids@, m) by {
                if self.has_link(account_id, m, email_id@) {
                    let j = choose|j: int|
                        0 <= j < self.links@.len() && (#[trigger] self.links@[j]).account_id == account_id
                            && self.links@[j].mailbox_id@ == m && self.links@[j].email_id@ == email_id@;
                }
                if names(ids@, m) {
                    let j = choose|j: int| 0 <= j < ids@.len() && (#[trigger] ids@[j])@ == m;
                }
            }
        }
        false
    }

    /// Stores one email envelope and makes its memberships exactly the
    /// mailboxes it names. Fetched details are kept.
    pub fn upsert_email(&mut self, account_id: AccountId, rec: &EmailRecord)
        requires
            old(self).wf(),
        ensures
            final(self).wf(),
            final(self).accounts == old(self).accounts,
            final(self).next_account_id == old(self).next_account_id,
            final(self).mailboxes == old(self).mailboxes,
            final(self).drafts == old(self).drafts,
            final(self).blobs == old(self).blobs,
            final(self).external_cache == old(self).external_cache,
            final(self).email_metadata(account_id, rec.id@) == Some(rec.metadata@),
            final(self).emails.same_except(&old(self).emails, account_id, rec.id@),
            forall|a: AccountId, m: Seq<char>, e: Seq<char>|
                #[trigger] final(self).has_link(a, m, e) <==> (if a == account_id && e == rec.id@ {
                    names(rec.mailbox_ids@, m)
                } else {
                    old(self).has_link(a, m, e)
                }),
    {
        let details = match self.emails.lookup(account_id, &rec.id) {
            Some(row) => copy_opt_string(&row.part_details),
            None => None,
        };
        let ghost pre = *self;
        self.emails.upsert(
            EmailRow {
                account_id,
                id: rec.id.clone(),
                metadata: rec.metadata.clone(),
                part_details: details,
                thread_id: rec.thread_id.clone(),
                received_at: rec.received_at,
                subject: rec.subject.clone(),
            },
        );
        assert(self.links_wf()) by {
            assert forall|x: int| 0 <= x < self.links@.len() implies self.emails.contains(
                (#[trigger] self.links@[x]).account_id,
                self.links@[x].email_id@,
            ) by {
                let l = self.links@[x];
                assert(pre.emails.contains(l.account_id, l.email_id@));
                if !(l.account_id == account_id && l.email_id@ == rec.id@) {
                    assert(self.emails.get(l.account_id, l.email_id@) == pre.emails.get(l.account_id, l.email_id@));
                }
            }
        }
        self.drop_links(account_id, &rec.id, false);
        let ghost dropped = *self;
        let mut i: usize = 0;
        while i < rec.mailbox_ids.len()
            invariant
                self.wf(),
                i <= rec.mailbox_ids@.len(),
                self.accounts == pre.accounts,
                self.next_account_id == pre.next_account_id,
                self.mailboxes == pre.mailboxes,
                self.emails == dropped.emails,
                self.drafts == pre.drafts,
                self.blobs == pre.blobs,
                self.external_cache == pre.external_cache,
                self.emails.contains(account_id, rec.id@),
                forall|a: AccountId, m: Seq<char>, e: Seq<char>|
                    #[trigger] self.has_link(a, m, e) <==> (if a == account_id && e == rec.id@ {
                        names_upto(rec.mailbox_ids@, i as int, m)
                    } else {
                        pre.has_link(a, m, e)
                    }),
            decreases rec.mailbox_ids@.len() - i,
        {
            let ghost before = *self;
            self.add_link(account_id, &rec.mailbox_ids[i], &rec.id);
            proof {
                assert forall|a: AccountId, m: Seq<char>, e: Seq<char>|
                    #[trigger] self.has_link(a, m, e) <==> (if a == account_id && e == rec.id@ {
                        names_upto(rec.mailbox_ids@, i as int + 1, m)
                    } else {
                        pre.has_link(a, m, e)
                    }) by {
                    assert(before.has_link(a, m, e) <==> (if a == account_id && e == rec.id@ {
                        names_upto(rec.mailbox_ids@, i as int, m)
                    } else {
                        pre.has_link(a, m, e)
                    }));
                    lemma_names_upto_step(rec.mailbox_ids@, i as int, m);
                }
            }
            i = i + 1;
        }
        proof {
            assert forall|a: AccountId, m: Seq<char>, e: Seq<char>|
                #[trigger] self.has_link(a, m, e) <==> (if a == account_id && e == rec.id@ {
                    names(rec.mailbox_ids@, m)
                } else {
                    pre.has_link(a, m, e)
                }) by {
                assert(names(rec.mailbox_ids@, m) == names_upto(rec.mailbox_ids@, rec.mailbox_ids@.len() as int, m));
            }
        }
    }

    /// Stores a batch of envelopes returned by the server. Afterwards each email
    /// of the batch reads back with the envelope of its last occurrence.
    pub fn update_emails(&mut self, account_id: AccountId, emails: &Vec<EmailRecord>) -> (r: Changes)
        requires
            old(self).wf(),
        ensures
            final(self).wf(),
            final(self).accounts == old(self).accounts,
            final(self).mailboxes == old(self).mailboxes,
            final(self).drafts == old(self).drafts,
            final(self).blobs == old(self).blobs,
            forall|i: int|
                0 <= i < emails@.len() && last_email(emails@, i) ==> final(self).email_metadata(
                    account_id,
                    (#[trigger] emails@[i]).id@,
                ) == Some(emails@[i].metadata@),
            forall|a: AccountId, k: Seq<char>|
                !(a == account_id && names_email_upto(emails@, emails@.len() as int, k))
                    ==> #[trigger] final(self).emails.get(a, k) == old(self).emails.get(a, k),
            forall|i: int|
                0 <= i < emails@.len() && last_email(emails@, i) ==> links_match(
                    final(self),
                    account_id,
                    (#[trigger] emails@[i]).id@,
                    emails@[i].mailbox_ids@,
                ),
            forall|a: AccountId, m: Seq<char>, e: Seq<char>|
                !(a == account_id && names_email_upto(emails@, emails@.len() as int, e))
                    ==> #[trigger] final(self).has_link(a, m, e) == old(self).has_link(a, m, e),
            r.has(TableName::Emails) <==> emails@.len() > 0,
            distinct_emails(emails@) ==> (r.has(TableName::MailboxEmails) <==> exists|i: int|
                0 <= i < emails@.len() && !links_match(
                    old(self),
                    account_id,
                    (#[trigger] emails@[i]).id@,
                    emails@[i].mailbox_ids@,
                )),
            forall|t: TableName|
                #[trigger] r.has(t) ==> t == TableName::Emails || t == TableName::MailboxEmails,
    {
        let ghost orig = *self;
        let mut any_links = false;
        let mut i: usize = 0;
        while i < emails.len()
            invariant
                self.wf(),
                i <= emails@.len(),
                self.accounts == orig.accounts,
                self.next_account_id == orig.next_account_id,
                self.mailboxes == orig.mailboxes,
                self.drafts == orig.drafts,
                self.blobs == orig.blobs,
                self.external_cache == orig.external_cache,
                forall|j: int|
                    0 <= j < i && (forall|l: int| j < l < i ==> (#[trigger] emails@[l]).id@
                        != emails@[j].id@) ==> self.email_metadata(account_id, emails@[j].id@)
                        == Some(emails@[j].metadata@),
                forall|a: AccountId, k: Seq<char>|
                    !(a == account_id && names_email_upto(emails@, i as int, k))
                        ==> #[trigger] self.emails.get(a, k) == orig.emails.get(a, k),
                forall|j: int|
                    0 <= j < i && (forall|l: int| j < l < i ==> (#[trigger] emails@[l]).id@
                        != emails@[j].id@) ==> links_match(self, account_id, emails@[j].id@, emails@[j].mailbox_ids@),
                forall|a: AccountId, m: Seq<char>, e: Seq<char>|
                    !(a == account_id && names_email_upto(emails@, i as int, e))
                        ==> #[trigger] self.has_link(a, m, e) == orig.has_link(a, m, e),
                any_links ==> i > 0,
                distinct_emails(emails@) ==> (any_links <==> exists|j: int|
                    0 <= j < i && !links_match(&orig, account_id, (#[trigger] emails@[j]).id@, emails@[j].mailbox_ids@)),
            decreases emails@.len() - i,
        {
            let ghost before = *self;
            let differs = self.links_differ(account_id, &emails[i].id, &emails[i].mailbox_ids);
            self.upsert_email(account_id, &emails[i]);
            proof {
                let k0 = emails@[i as int].id@;
                let rec = emails@[i as int];
                assert forall|j: int|
                    0 <= j < i + 1 && (forall|l: int| j < l < i + 1 ==> (#[trigger] emails@[l]).id@
                        != emails@[j].id@) implies links_match(self, account_id, emails@[j].id@, emails@[j].mailbox_ids@) by {
                    if j < i {
                        assert(emails@[i as int].id@ != emails@[j].id@);
                        assert forall|m: Seq<char>| #[trigger] self.has_link(account_id, m, emails@[j].id@) == names(emails@[j].mailbox_ids@, m) by {
                            assert(self.has_link(account_id, m, emails@[j].id@) == before.has_link(account_id, m, emails@[j].id@));
                        }
                    } else {
                        assert forall|m: Seq<char>| #[trigger] self.has_link(account_id, m, rec.id@) == names(rec.mailbox_ids@, m) by {}
                    }
                }
                assert forall|a: AccountId, m: Seq<char>, e: Seq<char>|
                    !(a == account_id && names_email_upto(emails@, i as int + 1, e))
                        implies #[trigger] self.has_link(a, m, e) == orig.has_link(a, m, e) by {
                    if a == account_id {
                        if names_email_upto(emails@, i as int, e) {
                            let j = choose|j: int| 0 <= j < i && (#[trigger] emails@[j]).id@ == e;
                            assert(0 <= j < i + 1 && emails@[j].id@ == e);
                        }
                        if e == k0 {
                            assert(0 <= i < i + 1 && emails@[i as int].id@ == e);
                        }
                    }
                    assert(self.has_link(a, m, e) == before.has_link(a, m, e));
                }
                if distinct_emails(emails@) {
                    assert(!names_email_upto(emails@, i as int, k0)) by {
                        if names_email_upto(emails@, i as int, k0) {
                            let j = choose|j: int| 0 <= j < i && (#[trigger] emails@[j]).id@ == k0;
                            assert(emails@[j].id@ != emails@[i as int].id@);
                        }
                    }
                    assert(links_match(&before, account_id, k0, rec.mailbox_ids@) == links_match(&orig, account_id, k0, rec.mailbox_ids@)) by {
                        assert forall|m: Seq<char>| before.has_link(account_id, m, k0) == orig.has_link(account_id, m, k0) by {}
                    }
                    if differs {
                        assert(0 <= i < i + 1 && !links_match(&orig, account_id, emails@[i as int].id@, emails@[i as int].mailbox_ids@));
                    }
                }
                assert forall|j: int|
                    0 <= j < i + 1 && (forall|l: int| j < l < i + 1 ==> (#[trigger] emails@[l]).id@
                        != emails@[j].id@) implies self.email_metadata(account_id, emails@[j].id@)
                        == Some(emails@[j].metadata@) by {
                    if j < i {
                        assert(emails@[i as int].id@ != emails@[j].id@);
                        assert(self.emails.get(account_id, emails@[j].id@) == before.emails.get(account_id, emails@[j].id@));
                    }
                }
                assert forall|a: AccountId, k: Seq<char>|
                    !(a == account_id && names_email_upto(emails@, i as int + 1, k))
                        implies #[trigger] self.emails.get(a, k) == orig.emails.get(a, k) by {
                    if a == account_id {
                        if names_email_upto(emails@, i as int, k) {
                            let j = choose|j: int| 0 <= j < i && (#[trigger] emails@[j]).id@ == k;
                            assert(0 <= j < i + 1 && emails@[j].id@ == k);
                        }
                        if k == k0 {
                            assert(0 <= i < i + 1 && emails@[i as int].id@ == k);
                        }
                    }
                }
            }
            any_links = any_links || differs;
            i = i + 1;
        }
        let mut ch = Changes::none();
        if emails.len() > 0 {
            ch.tables.push(TableName::Emails);
            proof {
                assert(ch.tables@[0] == TableName::Emails);
                assert(ch.has(TableName::Emails));
            }
        }
        let ghost plain = ch.tables@;
        assert(!plain.contains(TableName::MailboxEmails)) by {
            if plain.len() > 0 {
                assert(plain =~= seq![TableName::Emails]);
            }
        }
        if any_links {
            let ghost before = ch.tables@;
            ch.tables.push(TableName::MailboxEmails);
            proof {
                assert(ch.tables@.last() == TableName::MailboxEmails);
                assert(ch.has(TableName::MailboxEmails));
                assert forall|t: TableName| #[trigger] ch.has(t) implies before.contains(t) || t == TableName::MailboxEmails by {
                    let x = choose|x: int| 0 <= x < ch.tables@.len() && ch.tables@[x] == t;
                    if x < before.len() {
                        assert(before[x] == t);
                    }
                }
            }
        }
        proof {
            assert forall|j: int|
                0 <= j < emails@.len() && last_email(emails@, j) implies self.email_metadata(
                    account_id,
                    (#[trigger] emails@[j]).id@,
                ) == Some(emails@[j].metadata@) by {
                assert(forall|l: int| j < l < emails@.len() ==> (#[trigger] emails@[l]).id@ != emails@[j].id@);
            }
            assert forall|j: int|
                0 <= j < emails@.len() && last_email(emails@, j) implies links_match(
                    self,
                    account_id,
                    (#[trigger] emails@[j]).id@,
                    emails@[j].mailbox_ids@,
                ) by {
                assert(forall|l: int| j < l < emails@.len() ==> (#[trigger] emails@[l]).id@ != emails@[j].id@);
            }
            assert(ch.has(TableName::MailboxEmails) == any_links);
            if emails@.len() > 0 {
                assert(ch.tables@[0] == TableName::Emails);
            }
            assert(ch.has(TableName::Emails) == (emails@.len() > 0));
        }
        ch
    }
}


impl Store {
    /// Deletes emails with their memberships. The event names `emails` when a
    /// row was deleted.
    pub fn delete_emails(&mut self, account_id: AccountId, ids: &Vec<String>) -> (r: Changes)
        requires
            old(self).wf(),
        ensures
            final(self).wf(),
            final(self).accounts == old(self).accounts,
            final(self).mailboxes == old(self).mailboxes,
            final(self).drafts == old(self).drafts,
            final(self).blobs == old(self).blobs,
            forall|i: int| 0 <= i < ids@.len() ==> !final(self).emails.contains(account_id, (#[trigger] ids@[i])@),
            forall|a: AccountId, k: Seq<char>|
                !(a == account_id && names(ids@, k)) ==> #[trigger] final(self).emails.get(a, k)
                    == old(self).emails.get(a, k),
            forall|a: AccountId, m: Seq<char>, e: Seq<char>|
                #[trigger] final(self).has_link(a, m, e) <==> (old(self).has_link(a, m, e) && !(a
                    == account_id && names(ids@, e))),
            r.has(TableName::Emails) <==> exists|i: int|
                0 <= i < ids@.len() && old(self).emails.contains(account_id, (#[trigger] ids@[i])@),
            forall|t: TableName| #[trigger] r.has(t) ==> t == TableName::Emails,
    {
        let ghost orig = *self;
        let mut any = false;
        let mut d: usize = 0;
        while d < ids.len()
            invariant
                self.wf(),
                orig.wf(),
                d <= ids@.len(),
                self.accounts == orig.accounts,
                self.next_account_id == orig.next_account_id,
                self.mailboxes == orig.mailboxes,
                self.drafts == orig.drafts,
                self.blobs == orig.blobs,
                self.external_cache == orig.external_cache,
                forall|j: int| 0 <= j < d ==> !self.emails.contains(account_id, (#[trigger] ids@[j])@),
                forall|a: AccountId, k: Seq<char>|
                    !(a == account_id && names_upto(ids@, d as int, k))
                        ==> #[trigger] self.emails.get(a, k) == orig.emails.get(a, k),
                forall|a: AccountId, m: Seq<char>, e: Seq<char>|
                    #[trigger] self.has_link(a, m, e) <==> (orig.has_link(a, m, e) && !(a == account_id
                        && names_upto(ids@, d as int, e))),
                any <==> exists|j: int|
                    0 <= j < d && orig.emails.contains(account_id, (#[trigger] ids@[j])@),
            decreases ids@.len() - d,
        {
            let ghost before = *self;
            self.drop_links(account_id, &ids[d], false);
            let ghost unlinked = *self;
            let removed = self.emails.remove(account_id, &ids[d]);
            proof {
                let k0 = ids@[d as int]@;
                assert(self.links_wf()) by {
                    assert forall|x: int| 0 <= x < self.links@.len() implies self.emails.contains(
                        (#[trigger] self.links@[x]).account_id,
                        self.links@[x].email_id@,
                    ) by {
                        let l = self.links@[x];
                        assert(unlinked.has_link(l.account_id, l.mailbox_id@, l.email_id@));
                        assert(unlinked.emails.contains(l.account_id, l.email_id@));
                        assert(self.emails.get(l.account_id, l.email_id@) == unlinked.emails.get(l.account_id, l.email_id@));
                    }
                }
                if names_upto(ids@, d as int, k0) {
                    let j = choose|j: int| 0 <= j < d && (#[trigger] ids@[j])@ == k0;
                    assert(!before.emails.contains(account_id, ids@[j]@));
                } else {
                    assert(before.emails.get(account_id, k0) == orig.emails.get(account_id, k0));
                }
                assert forall|j: int| 0 <= j < d + 1 implies !self.emails.contains(account_id, (#[trigger] ids@[j])@) by {
                    if j < d && ids@[j]@ != k0 {
                        assert(self.emails.get(account_id, ids@[j]@) == before.emails.get(account_id, ids@[j]@));
                    }
                }
                assert forall|a: AccountId, k: Seq<char>|
                    !(a == account_id && names_upto(ids@, d as int + 1, k))
                        implies #[trigger] self.emails.get(a, k) == orig.emails.get(a, k) by {
                    lemma_names_upto_step(ids@, d as int, k);
                }
                assert forall|a: AccountId, m: Seq<char>, e: Seq<char>|
                    #[trigger] self.has_link(a, m, e) <==> (orig.has_link(a, m, e) && !(a == account_id
                        && names_upto(ids@, d as int + 1, e))) by {
                    assert(before.has_link(a, m, e) <==> (orig.has_link(a, m, e) && !(a == account_id
                        && names_upto(ids@, d as int, e))));
                    assert(self.has_link(a, m, e) == unlinked.has_link(a, m, e));
                    assert(unlinked.has_link(a, m, e) <==> (before.has_link(a, m, e) && !(a == account_id && e == k0)));
                    lemma_names_upto_step(ids@, d as int, e);
                }
                if exists|j: int| 0 <= j < d + 1 && orig.emails.contains(account_id, (#[trigger] ids@[j])@) {
                    if !(exists|j: int| 0 <= j < d && orig.emails.contains(account_id, (#[trigger] ids@[j])@)) {
                        assert(!names_upto(ids@, d as int, k0)) by {
                            if names_upto(ids@, d as int, k0) {
                                let j = choose|j: int| 0 <= j < d && (#[trigger] ids@[j])@ == k0;
                                let j2 = choose|j: int| 0 <= j < d + 1 && orig.emails.contains(account_id, (#[trigger] ids@[j])@);
                                assert(j2 == d);
                                assert(orig.emails.contains(account_id, ids@[j]@));
                            }
                        }
                        let j2 = choose|j: int| 0 <= j < d + 1 && orig.emails.contains(account_id, (#[trigger] ids@[j])@);
                        assert(j2 == d);
                        assert(removed);
                    }
                }
                if removed {
                    assert(0 <= d < d + 1 && orig.emails.contains(account_id, ids@[d as int]@));
                }
            }
            any = any || removed;
            d = d + 1;
        }
        let mut ch = Changes::none();
        if any {
            ch.tables.push(TableName::Emails);
            assert(ch.tables@[0] == TableName::Emails);
            assert(ch.has(TableName::Emails));
        }
        proof {
            assert forall|a: AccountId, k: Seq<char>|
                !(a == account_id && names(ids@, k)) implies #[trigger] self.emails.get(a, k)
                    == orig.emails.get(a, k) by {
                assert(names(ids@, k) == names_upto(ids@, ids@.len() as int, k));
            }
            assert forall|a: AccountId, m: Seq<char>, e: Seq<char>|
                #[trigger] self.has_link(a, m, e) <==> (orig.has_link(a, m, e) && !(a == account_id
                    && names(ids@, e))) by {
                assert(names(ids@, e) == names_upto(ids@, ids@.len() as int, e));
            }
        }
        ch
    }

    /// The distinct identifiers of a list whose email is not stored, in the
    /// order of first occurrence.
    pub fn find_missing_email_ids(&self, account_id: AccountId, ids: &Vec<String>) -> (r: Vec<String>)
        requires
            self.wf(),
        ensures
            forall|k: Seq<char>| names(r@, k) <==> (names(ids@, k) && !self.emails.contains(account_id, k)),
            forall|i: int, j: int| 0 <= i < j < r@.len() ==> (#[trigger] r@[i])@ != (#[trigger] r@[j])@,
    {
        let mut out: Vec<String> = Vec::new();
        let mut i: usize = 0;
        while i < ids.len()
            invariant
                self.wf(),
                i <= ids@.len(),
                forall|k: Seq<char>| names(out@, k) <==> (names_upto(ids@, i as int, k) && !self.emails.contains(account_id, k)),
                forall|x: int, y: int| 0 <= x < y < out@.len() ==> (#[trigger] out@[x])@ != (#[trigger] out@[y])@,
            decreases ids@.len() - i,
        {
            let id = &ids[i];
            let mut seen = false;
            let mut j: usize = 0;
            while j < out.len()
                invariant
                    j <= out@.len(),
                    seen <==> exists|x: int| 0 <= x < j && (#[trigger] out@[x])@ == id@,
                decreases out@.len() - j,
            {
                if out[j] == *id {
                    seen = true;
                }
                j = j + 1;
            }
            let stored = self.emails.find(account_id, id).is_some();
            let ghost before = out@;
            if !seen && !stored {
                out.push(id.clone());
                proof {
                    assert forall|x: int, y: int| 0 <= x < y < out@.len() implies (#[trigger] out@[x])@ != (#[trigger] out@[y])@ by {
                        if y == before.len() {
                            assert(out@[x] == before[x]);
                        } else {
                            assert(out@[x] == before[x]);
                            assert(out@[y] == before[y]);
                        }
                    }
                }
            }
            proof {
                assert forall|k: Seq<char>| names(out@, k) <==> (names_upto(ids@, i as int + 1, k) && !self.emails.contains(account_id, k)) by {
                    lemma_names_upto_step(ids@, i as int, k);
                    if names(out@, k) {
                        let x = choose|x: int| 0 <= x < out@.len() && (#[trigger] out@[x])@ == k;
                        if x < before.len() {
                            assert(out@[x] == before[x]);
                            assert(names(before, k));
                        }
                    }
                    if names(before, k) {
                        let x = choose|x: int| 0 <= x < before.len() && (#[trigger] before[x])@ == k;
                        assert(out@[x] == before[x]);
                    }
                    if k == id@ && !self.emails.contains(account_id, k) && !names(before, k) {
                        assert(out@[before.len() as int]@ == k);
                    }
                }
            }
            i = i + 1;
        }
        proof {
            assert forall|k: Seq<char>| names(out@, k) <==> (names(ids@, k) && !self.emails.contains(account_id, k)) by {
                assert(names(ids@, k) == names_upto(ids@, ids@.len() as int, k));
            }
        }
        out
    }

    /// The stored row of an email.
    pub fn get_email(&self, account_id: AccountId, id: &String) -> (r: Option<&EmailRow>)
        requires
            self.wf(),
        ensures
            r is None <==> !self.emails.contains(account_id, id@),
            r matches Some(row) ==> self.emails.get(account_id, id@) == Some(*row),
    {
        self.emails.lookup(account_id, id)
    }

    /// The fetched details of a stored email, none while not fetched.
    pub fn get_email_parts(&self, account_id: AccountId, id: &String) -> (r: Result<Option<String>, StoreError>)
        requires
            self.wf(),
        ensures
            r is Err <==> !self.emails.contains(account_id, id@),
            r matches Err(e) ==> e == StoreError::EmailNotFound,
            r matches Ok(p) ==> self.emails.get(account_id, id@) matches Some(row) && p == row.part_details,
    {
        match self.emails.lookup(account_id, id) {
            Some(row) => Ok(copy_opt_string(&row.part_details)),
            None => Err(StoreError::EmailNotFound),
        }
    }

    /// Records the fetched details of a stored email. The event names `emails`
    /// when the email is stored.
    pub fn update_email_details(&mut self, account_id: AccountId, id: &String, details: &String) -> (r: Changes)
        requires
            old(self).wf(),
        ensures
            final(self).wf(),
            final(self).accounts == old(self).accounts,
            final(self).mailboxes == old(self).mailboxes,
            final(self).links == old(self).links,
            final(self).drafts == old(self).drafts,
            final(self).emails.same_except(&old(self).emails, account_id, id@),
            match old(self).emails.get(account_id, id@) {
                Some(o) => final(self).emails.get(account_id, id@) == Some(
                    EmailRow { part_details: Some(*details), ..o },
                ) && r.has(TableName::Emails),
                None => final(self).emails.get(account_id, id@) is None && !r.has(TableName::Emails),
            },
            forall|t: TableName| #[trigger] r.has(t) ==> t == TableName::Emails,
    {
        let ghost pre = *self;
        match self.emails.find(account_id, id) {
            Some(i) => {
                let o = &self.emails.rows[i];
                let row = EmailRow {
                    account_id: o.account_id,
                    id: o.id.clone(),
                    metadata: o.metadata.clone(),
                    part_details: Some(details.clone()),
                    thread_id: o.thread_id.clone(),
                    received_at: o.received_at,
                    subject: o.subject.clone(),
                };
                self.emails.upsert(row);
                proof {
                    assert forall|x: int| 0 <= x < self.links@.len() implies self.emails.contains(
                        (#[trigger] self.links@[x]).account_id,
                        self.links@[x].email_id@,
                    ) by {
                        let l = self.links@[x];
                        assert(pre.emails.contains(l.account_id, l.email_id@));
                        if !(l.account_id == account_id && l.email_id@ == id@) {
                            assert(self.emails.get(l.account_id, l.email_id@) == pre.emails.get(l.account_id, l.email_id@));
                        }
                    }
                }
                let mut ch = Changes::none();
                ch.tables.push(TableName::Emails);
                assert(ch.tables@[0] == TableName::Emails);
                ch
            },
            None => {
                let ch = Changes::none();
                ch
            },
        }
    }

    /// The identifiers of an account's mailboxes.
    pub fn get_mailbox_ids(&self, account_id: AccountId) -> (r: Vec<String>)
        requires
            self.wf(),
        ensures
            forall|k: Seq<char>| names(r@, k) <==> self.mailboxes.contains(account_id, k),
    {
        let mut out: Vec<String> = Vec::new();
        let mut i: usize = 0;
        while i < self.mailboxes.rows.len()
            invariant
                self.wf(),
                i <= self.mailboxes.rows@.len(),
                forall|k: Seq<char>| names(out@, k) <==> exists|j: int|
                    0 <= j < i && row_matches(#[trigger] self.mailboxes.rows@[j], account_id, k),
            decreases self.mailboxes.rows@.len() - i,
        {
            let row = &self.mailboxes.rows[i];
            let ghost before = out@;
            if row.account_id == account_id {
                out.push(row.id.clone());
            }
            proof {
                assert forall|k: Seq<char>| names(out@, k) <==> exists|j: int|
                    0 <= j < i + 1 && row_matches(#[trigger] self.mailboxes.rows@[j], account_id, k) by {
                    if names(out@, k) {
                        let x = choose|x: int| 0 <= x < out@.len() && (#[trigger] out@[x])@ == k;
                        if x < before.len() {
                            assert(out@[x] == before[x]);
                            assert(names(before, k));
                        } else {
                            assert(row_matches(self.mailboxes.rows@[i as int], account_id, k));
                        }
                    }
                    if exists|j: int| 0 <= j < i + 1 && row_matches(#[trigger] self.mailboxes.rows@[j], account_id, k) {
                        let j = choose|j: int| 0 <= j < i + 1 && row_matches(#[trigger] self.mailboxes.rows@[j], account_id, k);
                        if j < i {
                            assert(0 <= j < i && row_matches(self.mailboxes.rows@[j], account_id, k));
                            assert(names(before, k));
                            let x = choose|x: int| 0 <= x < before.len() && (#[trigger] before[x])@ == k;
                            assert(out@[x] == before[x]);
                        } else {
                            assert(out@[before.len() as int]@ == k);
                        }
                    }
                }
            }
            i = i + 1;
        }
        out
    }

    /// The stored mailboxes of an account.
    pub fn get_mailboxes(&self, account_id: AccountId) -> (r: Vec<MailboxRecord>)
        requires
            self.wf(),
        ensures
            forall|i: int| 0 <= i < r@.len() ==> (self.mailboxes.get(account_id, (#[trigger] r@[i]).id@) matches Some(row) && row.metadata@ == r@[i].metadata@),
            forall|k: Seq<char>| self.mailboxes.contains(account_id, k) ==> names_mailbox(r@, k),
    {
        let mut out: Vec<MailboxRecord> = Vec::new();
        let mut i: usize = 0;
        while i < self.mailboxes.rows.len()
            invariant
                self.wf(),
                i <= self.mailboxes.rows@.len(),
                forall|x: int| 0 <= x < out@.len() ==> (self.mailboxes.get(account_id, (#[trigger] out@[x]).id@) matches Some(row) && row.metadata@ == out@[x].metadata@),
                forall|j: int| 0 <= j < i && (#[trigger] self.mailboxes.rows@[j]).account_id == account_id ==> names_mailbox(out@, self.mailboxes.rows@[j].id@),
            decreases self.mailboxes.rows@.len() - i,
        {
            let row = &self.mailboxes.rows[i];
            let ghost before = out@;
            if row.account_id == account_id {
                out.push(MailboxRecord { id: row.id.clone(), metadata: row.metadata.clone() });
                proof {
                    self.mailboxes.lemma_get_at(i as int);
                    assert forall|j: int| 0 <= j < i + 1 && (#[trigger] self.mailboxes.rows@[j]).account_id == account_id implies names_mailbox(out@, self.mailboxes.rows@[j].id@) by {
                        if j < i {
                            let x = choose|x: int| 0 <= x < before.len() && (#[trigger] before[x]).id@ == self.mailboxes.rows@[j].id@;
                            assert(out@[x] == before[x]);
                        } else {
                            assert(out@[before.len() as int].id@ == self.mailboxes.rows@[j].id@);
                        }
                    }
                    assert forall|x: int| 0 <= x < out@.len() implies (self.mailboxes.get(account_id, (#[trigger] out@[x]).id@) matches Some(row) && row.metadata@ == out@[x].metadata@) by {
                        if x < before.len() {
                            assert(out@[x] == before[x]);
                        }
                    }
                }
            }
            i = i + 1;
        }
        proof {
            assert forall|k: Seq<char>| self.mailboxes.contains(account_id, k) implies names_mailbox(out@, k) by {
                let j = choose|j: int| 0 <= j < self.mailboxes.rows@.len() && row_matches(#[trigger] self.mailboxes.rows@[j], account_id, k);
                assert(self.mailboxes.rows@[j].account_id == account_id);
            }
        }
        out
    }

    /// The email cursor of a mailbox.
    pub fn get_mailbox_email_sync_state(&self, account_id: AccountId, mailbox_id: &String) -> (r: Result<Option<String>, StoreError>)
        requires
            self.wf(),
        ensures
            r is Err <==> !self.mailboxes.contains(account_id, mailbox_id@),
            r matches Err(e) ==> e == StoreError::MailboxNotFound,
            r matches Ok(s) ==> self.mailboxes.get(account_id, mailbox_id@) matches Some(row) && s == row.email_sync_state,
    {
        match self.mailboxes.lookup(account_id, mailbox_id) {
            Some(row) => Ok(copy_opt_string(&row.email_sync_state)),
            None => Err(StoreError::MailboxNotFound),
        }
    }

    /// Records the email cursor of a stored mailbox; does nothing for a mailbox
    /// not stored.
    pub fn set_mailbox_email_sync_state(&mut self, account_id: AccountId, mailbox_id: &String, state: &String) -> (found: bool)
        requires
            old(self).wf(),
        ensures
            final(self).wf(),
            found == old(self).mailboxes.contains(account_id, mailbox_id@),
            final(self).accounts == old(self).accounts,
            final(self).emails == old(self).emails,
            final(self).links == old(self).links,
            final(self).drafts == old(self).drafts,
            final(self).mailboxes.same_except(&old(self).mailboxes, account_id, mailbox_id@),
            found ==> final(self).email_cursor(account_id, mailbox_id@) == Some(state@),
            found ==> (final(self).mailboxes.get(account_id, mailbox_id@) matches Some(row)
                && old(self).mailboxes.get(account_id, mailbox_id@) matches Some(o)
                && row.metadata == o.metadata),
            !found ==> final(self).mailboxes == old(self).mailboxes,
    {
        match self.mailboxes.find(account_id, mailbox_id) {
            Some(i) => {
                let o = &self.mailboxes.rows[i];
                let row = MailboxRow {
                    account_id: o.account_id,
                    id: o.id.clone(),
                    metadata: o.metadata.clone(),
                    email_sync_state: Some(state.clone()),
                };
                self.mailboxes.upsert(row);
                true
            },
            None => false,
        }
    }
}


pub fn copy_bytes(v: &Vec<u8>) -> (r: Vec<u8>)
    ensures
        r@ == v@,
{
    let mut out: Vec<u8> = Vec::new();
    let mut i: usize = 0;
    while i < v.len()
        invariant
            i <= v@.len(),
            out@ == v@.subrange(0, i as int),
        decreases v@.len() - i,
    {
        out.push(v[i]);
        i = i + 1;
        assert(out@ =~= v@.subrange(0, i as int));
    }
    assert(out@ =~= v@);
    out
}

impl EmailDraft {
    pub fn copy(&self) -> (r: EmailDraft)
        ensures
            r == *self,
    {
        EmailDraft {
            mailbox_id: self.mailbox_id.clone(),
            identity_id: self.identity_id.clone(),
            content: self.content.clone(),
        }
    }
}

impl DraftRecord {
    pub fn copy(&self) -> (r: DraftRecord)
        ensures
            r == *self,
    {
        DraftRecord {
            id: self.id.clone(),
            jmap_email_id: copy_opt_string(&self.jmap_email_id),
            data: self.data.copy(),
            updated_at: self.updated_at,
        }
    }
}

/// The time of an update: the clock's time, but never earlier than the last
/// update, so that update times only grow.
pub open spec fn later_of(last: i64, now: i64) -> i64 {
    if now >= last {
        now
    } else {
        last
    }
}

/// Two blobs hold the same name, type and bytes.
pub open spec fn same_blob(a: Blob, b: Blob) -> bool {
    a.name == b.name && a.mime_type == b.mime_type && a.data@ == b.data@
}

impl Blob {
    pub fn copy(&self) -> (r: Blob)
        ensures
            same_blob(r, *self),
    {
        Blob {
            name: copy_opt_string(&self.name),
            mime_type: copy_opt_string(&self.mime_type),
            data: copy_bytes(&self.data),
        }
    }
}

impl Store {
    /// The draft stored under an identifier.
    pub open spec fn draft(&self, account_id: AccountId, id: Seq<char>) -> Option<DraftRecord> {
        match self.drafts.get(account_id, id) {
            Some(row) => Some(row.draft),
            None => None,
        }
    }

    /// The draft is that of one of the first `n` rows, of the account.
    pub open spec fn draft_among(&self, account_id: AccountId, n: int, d: DraftRecord) -> bool {
        exists|j: int|
            0 <= j < n && (#[trigger] self.drafts.rows@[j]).account_id == account_id
                && self.drafts.rows@[j].draft == d
    }

    /// Stores a new draft with no server mirror.
    pub fn create_draft(&mut self, account_id: AccountId, id: String, data: EmailDraft, now: i64) -> (r: Result<DraftRecord, StoreError>)
        requires
            old(self).wf(),
        ensures
            final(self).wf(),
            r is Err <==> old(self).drafts.contains(account_id, id@),
            r matches Err(e) ==> e == StoreError::Conflict && *final(self) == *old(self),
            r matches Ok(rec) ==> {
                &&& rec == DraftRecord { id, jmap_email_id: None, data, updated_at: now }
                &&& final(self).draft(account_id, id@) == Some(rec)
                &&& final(self).drafts.same_except(&old(self).drafts, account_id, id@)
                &&& final(self).accounts == old(self).accounts
                &&& final(self).mailboxes == old(self).mailboxes
                &&& final(self).emails == old(self).emails
                &&& final(self).links == old(self).links
            },
    {
        if self.drafts.find(account_id, &id).is_some() {
            return Err(StoreError::Conflict);
        }
        let rec = DraftRecord { id, jmap_email_id: None, data, updated_at: now };
        let out = rec.copy();
        self.drafts.upsert(DraftRow { account_id, draft: rec });
        Ok(out)
    }

    /// Replaces a draft's content and time of update; its mirror is kept.
    pub fn update_draft_data(&mut self, account_id: AccountId, id: &String, data: EmailDraft, now: i64) -> (r: Result<(), StoreError>)
        requires
            old(self).wf(),
        ensures
            final(self).wf(),
            r is Err <==> !old(self).drafts.contains(account_id, id@),
            r matches Err(e) ==> e == StoreError::DraftNotFound && *final(self) == *old(self),
            r is Ok ==> (old(self).draft(account_id, id@) matches Some(o) && final(self).draft(account_id, id@) == Some(
                DraftRecord { data, updated_at: later_of(o.updated_at, now), ..o },
            )),
            final(self).drafts.same_except(&old(self).drafts, account_id, id@),
            final(self).accounts == old(self).accounts,
            final(self).mailboxes == old(self).mailboxes,
            final(self).emails == old(self).emails,
            final(self).links == old(self).links,
    {
        match self.drafts.find(account_id, id) {
            Some(i) => {
                let o = &self.drafts.rows[i].draft;
                let updated_at = if now >= o.updated_at {
                    now
                } else {
                    o.updated_at
                };
                let rec = DraftRecord {
                    id: o.id.clone(),
                    jmap_email_id: copy_opt_string(&o.jmap_email_id),
                    data,
                    updated_at,
                };
                self.drafts.upsert(DraftRow { account_id, draft: rec });
                Ok(())
            },
            None => Err(StoreError::DraftNotFound),
        }
    }

    /// Sets or clears the identifier of a draft's server mirror; does nothing
    /// for a draft not stored.
    pub fn set_draft_mirror(&mut self, account_id: AccountId, id: &String, jmap_email_id: Option<String>) -> (found: bool)
        requires
            old(self).wf(),
        ensures
            final(self).wf(),
            found == old(self).drafts.contains(account_id, id@),
            found ==> (old(self).draft(account_id, id@) matches Some(o) && final(self).draft(account_id, id@) == Some(
                DraftRecord { jmap_email_id, ..o },
            )),
            !found ==> *final(self) == *old(self),
            final(self).drafts.same_except(&old(self).drafts, account_id, id@),
            final(self).accounts == old(self).accounts,
            final(self).mailboxes == old(self).mailboxes,
            final(self).emails == old(self).emails,
            final(self).links == old(self).links,
    {
        match self.drafts.find(account_id, id) {
            Some(i) => {
                let o = &self.drafts.rows[i].draft;
                let rec = DraftRecord {
                    id: o.id.clone(),
                    jmap_email_id,
                    data: o.data.copy(),
                    updated_at: o.updated_at,
                };
                self.drafts.upsert(DraftRow { account_id, draft: rec });
                true
            },
            None => false,
        }
    }

    /// Records the identifier of a draft's server mirror.
    pub fn set_draft_jmap_id(&mut self, account_id: AccountId, id: &String, jmap_email_id: &String) -> (found: bool)
        requires
            old(self).wf(),
        ensures
            final(self).wf(),
            found == old(self).drafts.contains(account_id, id@),
            found ==> (old(self).draft(account_id, id@) matches Some(o) && final(self).draft(account_id, id@) == Some(
                DraftRecord { jmap_email_id: Some(*jmap_email_id), ..o },
            )),
            !found ==> *final(self) == *old(self),
            final(self).drafts.same_except(&old(self).drafts, account_id, id@),
    {
        self.set_draft_mirror(account_id, id, Some(jmap_email_id.clone()))
    }

    /// Forgets a draft's server mirror.
    pub fn clear_draft_jmap_id(&mut self, account_id: AccountId, id: &String) -> (found: bool)
        requires
            old(self).wf(),
        ensures
            final(self).wf(),
            found == old(self).drafts.contains(account_id, id@),
            found ==> (old(self).draft(account_id, id@) matches Some(o) && final(self).draft(account_id, id@) == Some(
                DraftRecord { jmap_email_id: None, ..o },
            )),
            !found ==> *final(self) == *old(self),
            final(self).drafts.same_except(&old(self).drafts, account_id, id@),
    {
        self.set_draft_mirror(account_id, id, None)
    }

    /// A copy of a stored draft.
    pub fn get_draft(&self, account_id: AccountId, id: &String) -> (r: Option<DraftRecord>)
        requires
            self.wf(),
        ensures
            r == self.draft(account_id, id@),
    {
        match self.drafts.lookup(account_id, id) {
            Some(row) => Some(row.draft.copy()),
            None => None,
        }
    }

    /// Deletes a draft; returns whether it was stored.
    pub fn delete_draft(&mut self, account_id: AccountId, id: &String) -> (found: bool)
        requires
            old(self).wf(),
        ensures
            final(self).wf(),
            found == old(self).drafts.contains(account_id, id@),
            final(self).draft(account_id, id@) is None,
            final(self).drafts.same_except(&old(self).drafts, account_id, id@),
            final(self).accounts == old(self).accounts,
            final(self).mailboxes == old(self).mailboxes,
            final(self).emails == old(self).emails,
            final(self).links == old(self).links,
    {
        self.drafts.remove(account_id, id)
    }

    /// An account's drafts, most recently updated first.
    #[verifier::rlimit(80)]
    pub fn list_drafts(&self, account_id: AccountId) -> (r: Vec<DraftRecord>)
        requires
            self.wf(),
        ensures
            forall|i: int| 0 <= i < r@.len() ==> self.draft(account_id, (#[trigger] r@[i]).id@) == Some(r@[i]),
            forall|k: Seq<char>| self.drafts.contains(account_id, k) ==> exists|i: int| 0 <= i < r@.len() && (#[trigger] r@[i]).id@ == k,
            forall|i: int, j: int| 0 <= i < j < r@.len() ==> (#[trigger] r@[i]).updated_at >= (#[trigger] r@[j]).updated_at,
            forall|i: int, j: int| 0 <= i < j < r@.len() ==> (#[trigger] r@[i]).id@ != (#[trigger] r@[j]).id@,
    {
        let mut out: Vec<DraftRecord> = Vec::new();
        let mut i: usize = 0;
        while i < self.drafts.rows.len()
            invariant
                self.wf(),
                i <= self.drafts.rows@.len(),
                forall|x: int| 0 <= x < out@.len() ==> self.draft(account_id, (#[trigger] out@[x]).id@) == Some(out@[x]),
                forall|j: int| 0 <= j < i && (#[trigger] self.drafts.rows@[j]).account_id == account_id ==> exists|x: int| 0 <= x < out@.len() && out@[x].id@ == self.drafts.rows@[j].draft.id@,
                forall|x: int, y: int| 0 <= x < y < out@.len() ==> (#[trigger] out@[x]).updated_at >= (#[trigger] out@[y]).updated_at,
                forall|x: int, y: int| 0 <= x < y < out@.len() ==> (#[trigger] out@[x]).id@ != (#[trigger] out@[y]).id@,
                forall|x: int| 0 <= x < out@.len() ==> self.draft_among(account_id, i as int, #[trigger] out@[x]),
            decreases self.drafts.rows@.len() - i,
        {
            let row = &self.drafts.rows[i];
            if row.account_id == account_id {
                let rec = row.draft.copy();
                let mut p: usize = 0;
                while p < out.len() && out[p].updated_at >= rec.updated_at
                    invariant
                        p <= out@.len(),
                        forall|x: int| 0 <= x < p ==> (#[trigger] out@[x]).updated_at >= rec.updated_at,
                    decreases out@.len() - p,
                {
                    p = p + 1;
                }
                let ghost before = out@;
                proof {
                    self.drafts.lemma_get_at(i as int);
                }
                out.insert(p, rec);
                proof {
                    assert forall|x: int| 0 <= x < out@.len() implies self.draft(account_id, (#[trigger] out@[x]).id@) == Some(out@[x]) by {
                        if x < p {
                            assert(out@[x] == before[x]);
                        } else if x > p {
                            assert(out@[x] == before[x - 1]);
                        }
                    }
                    assert forall|j: int| 0 <= j < i + 1 && (#[trigger] self.drafts.rows@[j]).account_id == account_id implies exists|x: int| 0 <= x < out@.len() && out@[x].id@ == self.drafts.rows@[j].draft.id@ by {
                        if j < i {
                            let x = choose|x: int| 0 <= x < before.len() && before[x].id@ == self.drafts.rows@[j].draft.id@;
                            if x < p {
                                assert(out@[x] == before[x]);
                            } else {
                                assert(out@[x + 1] == before[x]);
                            }
                        } else {
                            assert(out@[p as int] == rec);
                        }
                    }
                    assert forall|x: int| 0 <= x < out@.len() implies self.draft_among(account_id, i as int + 1, #[trigger] out@[x]) by {
                        if x < p {
                            assert(out@[x] == before[x]);
                            assert(self.draft_among(account_id, i as int, before[x]));
                        } else if x > p {
                            assert(out@[x] == before[x - 1]);
                            assert(self.draft_among(account_id, i as int, before[x - 1]));
                        } else {
                            assert(self.drafts.rows@[i as int].draft == out@[x]);
                        }
                    }
                    assert forall|x: int| 0 <= x < before.len() implies (#[trigger] before[x]).id@ != rec.id@ by {
                        assert(self.draft_among(account_id, i as int, before[x]));
                        let j = choose|j: int| 0 <= j < i && (#[trigger] self.drafts.rows@[j]).account_id == account_id && self.drafts.rows@[j].draft == before[x];
                        assert(self.drafts.rows@[j].account() == self.drafts.rows@[i as int].account());
                    }
                    assert forall|x: int, y: int| 0 <= x < y < out@.len() implies (#[trigger] out@[x]).id@ != (#[trigger] out@[y]).id@ by {
                        let xx = if x < p { x } else { x - 1 };
                        let yy = if y < p { y } else { y - 1 };
                        if x != p && y != p {
                            assert(out@[x] == before[xx] && out@[y] == before[yy]);
                        } else if x == p {
                            assert(out@[y] == before[yy]);
                        } else {
                            assert(out@[x] == before[xx]);
                        }
                    }
                    assert forall|x: int, y: int| 0 <= x < y < out@.len() implies (#[trigger] out@[x]).updated_at >= (#[trigger] out@[y]).updated_at by {
                        if y < p {
                            assert(out@[x] == before[x] && out@[y] == before[y]);
                        } else if y == p {
                            assert(out@[x] == before[x]);
                        } else if x < p {
                            assert(out@[x] == before[x] && out@[y] == before[y - 1]);
                        } else if x == p {
                            assert(out@[y] == before[y - 1]);
                            if p < before.len() {
                                assert(before[p as int].updated_at < rec.updated_at);
                                if y - 1 > p {
                                    assert(before[p as int].updated_at >= before[y - 1].updated_at);
                                }
                            }
                        } else {
                            assert(out@[x] == before[x - 1] && out@[y] == before[y - 1]);
                        }
                    }
                }
            }
            i = i + 1;
        }
        proof {
            assert forall|k: Seq<char>| self.drafts.contains(account_id, k) implies exists|x: int| 0 <= x < out@.len() && (#[trigger] out@[x]).id@ == k by {
                let j = choose|j: int| 0 <= j < self.drafts.rows@.len() && row_matches(#[trigger] self.drafts.rows@[j], account_id, k);
                assert(self.drafts.rows@[j].account_id == account_id);
                let x = choose|x: int| 0 <= x < out@.len() && out@[x].id@ == self.drafts.rows@[j].draft.id@;
                assert(out@[x].id@ == k);
            }
        }
        out
    }

    /// A cached blob, noting the time of this read.
    pub fn get_blob(&mut self, account_id: AccountId, id: &String, now: i64) -> (r: Option<Blob>)
        requires
            old(self).wf(),
        ensures
            final(self).wf(),
            r is None <==> !old(self).blobs.contains(account_id, id@),
            r matches Some(b) ==> (old(self).blobs.get(account_id, id@) matches Some(o) && same_blob(b, o.blob)
                && (final(self).blobs.get(account_id, id@) matches Some(n) && same_blob(n.blob, o.blob)
                && n.last_accessed == now)),
            r is None ==> *final(self) == *old(self),
            final(self).blobs.same_except(&old(self).blobs, account_id, id@),
            final(self).accounts == old(self).accounts,
            final(self).next_account_id == old(self).next_account_id,
            final(self).mailboxes == old(self).mailboxes,
            final(self).emails == old(self).emails,
            final(self).links == old(self).links,
            final(self).drafts == old(self).drafts,
            final(self).external_cache == old(self).external_cache,
    {
        match self.blobs.find(account_id, id) {
            Some(i) => {
                let o = &self.blobs.rows[i];
                let out = o.blob.copy();
                let kept = o.blob.copy();
                let row = BlobRow { account_id: o.account_id, id: o.id.clone(), blob: kept, last_accessed: now };
                self.blobs.upsert(row);
                Some(out)
            },
            None => None,
        }
    }
}


impl Store {
    /// Caches a blob. A blob already cached keeps its content; only its time
    /// of access moves.
    pub fn save_blob(&mut self, account_id: AccountId, id: &String, blob: &Blob, now: i64)
        requires
            old(self).wf(),
        ensures
            final(self).wf(),
            final(self).blobs.get(account_id, id@) matches Some(n) && n.last_accessed == now
                && same_blob(n.blob, match old(self).blobs.get(account_id, id@) {
                    Some(o) => o.blob,
                    None => *blob,
                }),
            final(self).blobs.same_except(&old(self).blobs, account_id, id@),
            final(self).accounts == old(self).accounts,
            final(self).emails == old(self).emails,
            final(self).links == old(self).links,
            final(self).drafts == old(self).drafts,
    {
        let kept = match self.blobs.lookup(account_id, id) {
            Some(row) => row.blob.copy(),
            None => blob.copy(),
        };
        self.blobs.upsert(BlobRow { account_id, id: id.clone(), blob: kept, last_accessed: now });
    }

    /// A cached copy of an outside resource, noting the time of this read.
    pub fn get_external_cache(&mut self, account_id: AccountId, url: &String, now: i64) -> (r: Option<ExternalCache>)
        requires
            old(self).wf(),
        ensures
            final(self).wf(),
            r is None <==> !old(self).external_cache.contains(account_id, url@),
            r matches Some(c) ==> (old(self).external_cache.get(account_id, url@) matches Some(o)
                && c.data@ == o.cache.data@ && c.mime_type == o.cache.mime_type),
            final(self).external_cache.same_except(&old(self).external_cache, account_id, url@),
            final(self).external_cache.contains(account_id, url@) == old(self).external_cache.contains(account_id, url@),
            final(self).accounts == old(self).accounts,
            final(self).emails == old(self).emails,
            final(self).links == old(self).links,
            final(self).drafts == old(self).drafts,
            final(self).blobs == old(self).blobs,
    {
        match self.external_cache.find(account_id, url) {
            Some(i) => {
                let o = &self.external_cache.rows[i];
                let out = ExternalCache { data: copy_bytes(&o.cache.data), mime_type: copy_opt_string(&o.cache.mime_type) };
                let kept = ExternalCache { data: copy_bytes(&o.cache.data), mime_type: copy_opt_string(&o.cache.mime_type) };
                self.external_cache.upsert(CacheRow { account_id, url: url.clone(), cache: kept, last_accessed: now });
                Some(out)
            },
            None => None,
        }
    }

    /// Caches a copy of an outside resource, replacing any earlier copy.
    pub fn put_external_cache(&mut self, account_id: AccountId, url: &String, data: &Vec<u8>, mime_type: &Option<String>, now: i64)
        requires
            old(self).wf(),
        ensures
            final(self).wf(),
            final(self).external_cache.get(account_id, url@) matches Some(n) && n.cache.data@ == data@
                && n.cache.mime_type == *mime_type && n.last_accessed == now,
            final(self).external_cache.same_except(&old(self).external_cache, account_id, url@),
            final(self).accounts == old(self).accounts,
            final(self).emails == old(self).emails,
            final(self).links == old(self).links,
            final(self).drafts == old(self).drafts,
            final(self).blobs == old(self).blobs,
    {
        let cache = ExternalCache { data: copy_bytes(data), mime_type: copy_opt_string(mime_type) };
        self.external_cache.upsert(CacheRow { account_id, url: url.clone(), cache, last_accessed: now });
    }
}


/// Every membership of a well-formed store names an email that the store
/// holds, in the same account. Every operation of the store keeps it
/// well-formed.
pub proof fn lemma_membership_has_email(s: &Store, account: AccountId, mailbox: Seq<char>, email: Seq<char>)
    requires
        s.wf(),
        s.has_link(account, mailbox, email),
    ensures
        s.emails.contains(account, email),
        s.email_metadata(account, email) is Some,
{
    let i = choose|i: int|
        0 <= i < s.links@.len() && (#[trigger] s.links@[i]).account_id == account
            && s.links@[i].mailbox_id@ == mailbox && s.links@[i].email_id@ == email;
    assert(s.emails.contains(s.links@[i].account_id, s.links@[i].email_id@));
}

} // verus!
