use vstd::prelude::*;

verus! {

/// The local identifier of a configured account.
pub type AccountId = i64;

/// How an account authenticates against its server.
#[derive(Clone, Debug)]
pub enum Credentials {
    Basic { username: String, password: String },
}

/// A configured mail account.
#[derive(Clone, Debug)]
pub struct Account {
    pub server_url: String,
    pub credentials: Credentials,
    pub name: String,
}

/// What an account's configuration amounts to, as plain text values.
pub struct AccountView {
    pub server_url: Seq<char>,
    pub username: Seq<char>,
    pub password: Seq<char>,
    pub name: Seq<char>,
}

impl View for Account {
    type V = AccountView;

    open spec fn view(&self) -> AccountView {
        match self.credentials {
            Credentials::Basic { username, password } => AccountView {
                server_url: self.server_url@,
                username: username@,
                password: password@,
                name: self.name@,
            },
        }
    }
}

impl Credentials {
    pub fn copy(&self) -> (r: Credentials)
        ensures
            r == *self,
    {
        match self {
            Credentials::Basic { username, password } => Credentials::Basic {
                username: username.clone(),
                password: password.clone(),
            },
        }
    }
}

impl Account {
    pub fn copy(&self) -> (r: Account)
        ensures
            r == *self,
    {
        Account {
            server_url: self.server_url.clone(),
            credentials: self.credentials.copy(),
            name: self.name.clone(),
        }
    }

    /// Whether two configurations are the same.
    pub fn same_config(&self, other: &Account) -> (r: bool)
        ensures
            r == (self@ == other@),
    {
        match (&self.credentials, &other.credentials) {
            (
                Credentials::Basic { username: u1, password: p1 },
                Credentials::Basic { username: u2, password: p2 },
            ) => {
                self.server_url == other.server_url && self.name == other.name && *u1 == *u2 && *p1
                    == *p2
            },
        }
    }
}

/// A mailbox as the server describes it: its identifier and its metadata as
/// JSON text.
#[derive(Clone, Debug)]
pub struct MailboxRecord {
    pub id: String,
    pub metadata: String,
}

/// The envelope projection of an email as the server returns it.
#[derive(Clone, Debug)]
pub struct EmailRecord {
    pub id: String,
    pub thread_id: String,
    pub received_at: i64,
    pub subject: String,
    /// The mailboxes that the email belongs to.
    pub mailbox_ids: Vec<String>,
    /// The envelope as JSON text.
    pub metadata: String,
}

/// The full description of an outgoing message.
#[derive(Clone, Debug)]
pub struct EmailDraft {
    /// The mailbox the message is filed in.
    pub mailbox_id: String,
    /// The sending identity.
    pub identity_id: String,
    /// Recipients, subject and body as JSON text.
    pub content: String,
}

/// A draft as stored locally.
#[derive(Clone, Debug)]
pub struct DraftRecord {
    pub id: String,
    /// Set after the draft has been mirrored to the server.
    pub jmap_email_id: Option<String>,
    pub data: EmailDraft,
    pub updated_at: i64,
}

/// A cached binary object.
#[derive(Clone, Debug)]
pub struct Blob {
    pub name: Option<String>,
    pub mime_type: Option<String>,
    pub data: Vec<u8>,
}

/// A cached copy of an outside resource.
#[derive(Clone, Debug)]
pub struct ExternalCache {
    pub data: Vec<u8>,
    pub mime_type: Option<String>,
}

/// The logical tables of the store.
#[derive(Clone, Copy, Debug, PartialEq, Eq, Structural)]
pub enum TableName {
    Accounts,
    Mailboxes,
    Emails,
    MailboxEmails,
    Drafts,
    Blobs,
    ExternalCache,
}

impl TableName {
    /// The table's name as subscribers see it.
    pub fn as_str(&self) -> (r: &'static str) {
        match self {
            TableName::Accounts => "accounts",
            TableName::Mailboxes => "mailboxes",
            TableName::Emails => "emails",
            TableName::MailboxEmails => "mailbox_emails",
            TableName::Drafts => "drafts",
            TableName::Blobs => "blobs",
            TableName::ExternalCache => "external_cache",
        }
    }
}

/// A change event: the tables that a successful mutation touched.
#[derive(Clone, Debug)]
pub struct Changes {
    pub tables: Vec<TableName>,
}

impl Changes {
    pub open spec fn has(&self, t: TableName) -> bool {
        self.tables@.contains(t)
    }

    pub fn none() -> (r: Changes)
        ensures
            r.tables@.len() == 0,
    {
        Changes { tables: Vec::new() }
    }

    /// Whether the event names a table.
    pub fn contains(&self, t: TableName) -> (r: bool)
        ensures
            r == self.has(t),
    {
        let mut i: usize = 0;
        while i < self.tables.len()
            invariant
                i <= self.tables@.len(),
                forall|j: int| 0 <= j < i ==> self.tables@[j] != t,
            decreases self.tables@.len() - i,
        {
            if self.tables[i] == t {
                return true;
            }
            i = i + 1;
        }
        false
    }
}

/// Why a store operation was refused.
#[derive(Clone, Copy, Debug, PartialEq, Eq, Structural)]
pub enum StoreError {
    AccountNotFound,
    MailboxNotFound,
    EmailNotFound,
    DraftNotFound,
    /// A row with that key already exists.
    Conflict,
}

} // verus!
