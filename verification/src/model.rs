//! The data model: worklog records, the tagged session state, configuration
//! and the message type the operations report with.

use vstd::prelude::*;

use crate::timespan::is_timespan;
use crate::timestamp::Timestamp;

verus! {

/// The `time_spent` field of a record: either a concrete duration string, or
/// the explicit marker of the one active session.
#[derive(Debug, Clone, PartialEq, Eq)]
pub enum TimeSpent {
    /// The session is still open; the ledger file writes this as `current`.
    Current,
    /// A closed record's duration, e.g. `1d5h` or `65m`.
    Logged(String),
}

impl TimeSpent {
    /// A logged duration never spells `current`: that spelling is reserved
    /// for the active-session marker, so the two serialize apart.
    pub open spec fn wf(self) -> bool {
        self matches TimeSpent::Logged(s) ==> s@ != "current"@
    }

    /// An owned copy with the same value.
    pub fn duplicate(&self) -> (r: TimeSpent)
        ensures
            r == *self,
    {
        match self {
            TimeSpent::Current => TimeSpent::Current,
            TimeSpent::Logged(s) => TimeSpent::Logged(s.clone()),
        }
    }
}

/// One logged unit of work.
#[derive(Debug, Clone, PartialEq, Eq)]
pub struct WorklogRecord {
    /// Free-text ticket identifier; not validated against the tracker.
    pub ticket: String,
    pub time_spent: TimeSpent,
    /// Free text, may be empty.
    pub description: String,
    pub started_date: Timestamp,
    /// True once successfully synchronized; never reset to false.
    pub committed: bool,
    /// Opaque identifier, assigned at creation; the sole key for update
    /// and delete.
    pub id: String,
}

impl WorklogRecord {
    pub open spec fn wf(self) -> bool {
        self.time_spent.wf() && self.started_date.valid()
    }

    pub open spec fn is_current(self) -> bool {
        self.time_spent is Current
    }

    /// An owned copy with the same value.
    pub fn duplicate(&self) -> (r: WorklogRecord)
        ensures
            r == *self,
    {
        WorklogRecord {
            ticket: self.ticket.clone(),
            time_spent: self.time_spent.duplicate(),
            description: self.description.clone(),
            started_date: self.started_date,
            committed: self.committed,
            id: self.id.clone(),
        }
    }
}

/// The mathematical shadow of `TimeSpent`: the marker, or the duration's
/// characters.
pub enum SpentView {
    Current,
    Logged(Seq<char>),
}

impl View for TimeSpent {
    type V = SpentView;

    open spec fn view(&self) -> SpentView {
        match *self {
            TimeSpent::Current => SpentView::Current,
            TimeSpent::Logged(s) => SpentView::Logged(s@),
        }
    }
}

/// The mathematical shadow of a record: each text field as its characters.
/// Serialization and parsing are specified over this shape.
pub struct RecordView {
    pub ticket: Seq<char>,
    pub time_spent: SpentView,
    pub description: Seq<char>,
    pub started_date: Timestamp,
    pub committed: bool,
    pub id: Seq<char>,
}

impl RecordView {
    pub open spec fn wf(self) -> bool {
        &&& self.time_spent matches SpentView::Logged(s) ==> s != "current"@
        &&& self.started_date.valid()
    }
}

impl View for WorklogRecord {
    type V = RecordView;

    open spec fn view(&self) -> RecordView {
        RecordView {
            ticket: self.ticket@,
            time_spent: self.time_spent@,
            description: self.description@,
            started_date: self.started_date,
            committed: self.committed,
            id: self.id@,
        }
    }
}

/// What `begin` reports: the session it closed, if any, and the one it
/// opened.
#[derive(Debug, Clone, PartialEq, Eq)]
pub struct BeginWorklog {
    pub previous: Option<WorklogRecord>,
    pub current: WorklogRecord,
}

/// A human-readable result line; the empty message means nothing to say.
#[derive(Debug, Clone, PartialEq, Eq)]
pub struct WorklogMessage(pub String);

/// The credentials and endpoints the commit workflow runs against,
/// constructed once at startup and passed in explicitly.
#[derive(Debug, Clone, PartialEq, Eq)]
pub struct Configuration {
    pub token: String,
    pub jira_cloud_instance: Option<String>,
    pub jira_url: Option<String>,
    pub user: String,
    pub editor: Option<String>,
}

impl Configuration {
    /// The tracker's base URL: a cloud instance name turns into
    /// `https://<instance>.atlassian.net`, otherwise the configured literal
    /// URL is used.
    pub fn get_jira_url(&self) -> (r: String)
        requires
            self.jira_cloud_instance is Some || self.jira_url is Some,
        ensures
            match self.jira_cloud_instance {
                Some(instance) => r@ == "https://"@ + instance@ + ".atlassian.net"@,
                None => r@ == self.jira_url->Some_0@,
            },
    {
        match &self.jira_cloud_instance {
            Some(instance) => {
                let mut url = String::from_str("https://");
                url.append(instance.as_str());
                url.append(".atlassian.net");
                url
            },
            None => {
                match &self.jira_url {
                    Some(url) => url.clone(),
                    None => String::new(),  // unreachable under the precondition
                }
            },
        }
    }

    /// The editor command the review step launches: the configured one,
    /// falling back to an editor the environment names, then to `nano`.
    pub fn get_editor_command(&self, env_editor: Option<String>) -> (r: String)
        ensures
            match self.editor {
                Some(e) => r@ == e@,
                None => match env_editor {
                    Some(e) => r@ == e@,
                    None => r@ == "nano"@,
                },
            },
    {
        match &self.editor {
            Some(e) => e.clone(),
            None => match env_editor {
                Some(e) => e,
                None => String::from_str("nano"),
            },
        }
    }
}

} // verus!
