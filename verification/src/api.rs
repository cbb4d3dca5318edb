//! The plain data of the surrounding service protocol: the service catalogue
//! and the responses the codec's callers work with. The transport itself —
//! fetching and sending buffers over a network, tokens, pagination — is out
//! of this library's scope; these types carry what it hands back.

use vstd::prelude::*;
use vstd::string::StringExecFns;
use crate::model::{Fragments, Locator};

verus! {

/// One callable service and its parameters.
#[derive(Debug, Clone, Copy)]
pub enum Service<'a> {
    /// Details of a group.
    GetGroup { group: &'a str },
    /// Details of a URI, as a member.
    GetUri { member: &'a str, uri: &'a str },
    /// The history of one URI in a group.
    GetUriHistory { group: &'a str, uri: &'a str },
    /// The history of every URI in a group.
    GetUrisHistory { group: &'a str },
    /// One fragment of a document, as a member.
    GetUriFragment { member: &'a str, group: &'a str, uri: &'a str, fragment: &'a str },
    /// An export of a URI, as a member.
    UriExport { member: &'a str, uri: &'a str },
    /// A search over a group.
    GroupSearch { group: &'a str },
    /// The progress of a server-side thread.
    ThreadProgress { id: &'a str },
}

impl Service<'_> {
    /// The URL path this service is called under.
    pub fn url_path(&self) -> (r: String)
        ensures
            r@ == (match *self {
                Service::GetGroup { group } => "/ps/service/groups/"@ + group@,
                Service::GetUri { member, uri } => "/ps/service/members/"@ + member@ + "/uris/"@
                    + uri@,
                Service::GetUriHistory { group, uri } => "/ps/service/groups/"@ + group@
                    + "/uris/"@ + uri@ + "/history"@,
                Service::GetUrisHistory { group } => "/ps/service/groups/"@ + group@
                    + "/uris/history"@,
                Service::GetUriFragment { member, group, uri, fragment } => "/ps/service/members/"@
                    + member@ + "/groups/"@ + group@ + "/uris/"@ + uri@ + "/fragments/"@
                    + fragment@,
                Service::UriExport { member, uri } => "/ps/service/members/"@ + member@ + "/uris/"@
                    + uri@ + "/export"@,
                Service::GroupSearch { group } => "/ps/service/groups/"@ + group@ + "/search"@,
                Service::ThreadProgress { id } => "/ps/service/threads/"@ + id@ + "/progress"@,
            }),
    {
        let mut s = String::new();
        match self {
            Service::GetGroup { group } => {
                s.append("/ps/service/groups/");
                s.append(group);
            },
            Service::GetUri { member, uri } => {
                s.append("/ps/service/members/");
                s.append(member);
                s.append("/uris/");
                s.append(uri);
            },
            Service::GetUriHistory { group, uri } => {
                s.append("/ps/service/groups/");
                s.append(group);
                s.append("/uris/");
                s.append(uri);
                s.append("/history");
            },
            Service::GetUrisHistory { group } => {
                s.append("/ps/service/groups/");
                s.append(group);
                s.append("/uris/history");
            },
            Service::GetUriFragment { member, group, uri, fragment } => {
                s.append("/ps/service/members/");
                s.append(member);
                s.append("/groups/");
                s.append(group);
                s.append("/uris/");
                s.append(uri);
                s.append("/fragments/");
                s.append(fragment);
            },
            Service::UriExport { member, uri } => {
                s.append("/ps/service/members/");
                s.append(member);
                s.append("/uris/");
                s.append(uri);
                s.append("/export");
            },
            Service::GroupSearch { group } => {
                s.append("/ps/service/groups/");
                s.append(group);
                s.append("/search");
            },
            Service::ThreadProgress { id } => {
                s.append("/ps/service/threads/");
                s.append(id);
                s.append("/progress");
            },
        }
        s
    }
}

/// Who may see a group.
#[derive(Debug, Clone, Copy, PartialEq, Eq, Structural)]
pub enum PSGroupAccess {
    Public,
    Member,
}

/// A group on the server.
#[derive(Debug, Clone, PartialEq, Eq)]
pub struct Group {
    pub id: u32,
    pub name: String,
    pub owner: String,
    pub description: String,
    pub access: PSGroupAccess,
}

/// The suffix of a name after its last hyphen.
pub open spec fn sp_after_last_dash(s: Seq<char>) -> Seq<char>
    decreases s.len(),
{
    if s.len() == 0 {
        s
    } else if s.last() == '-' {
        Seq::empty()
    } else {
        sp_after_last_dash(s.drop_last()).push(s.last())
    }
}

proof fn lemma_after_last_dash(s: Seq<char>, k: int)
    requires
        0 <= k < s.len(),
        s[k] == '-',
        forall|j: int| k < j < s.len() ==> s[j] != '-',
    ensures
        sp_after_last_dash(s) == s.skip(k + 1),
    decreases s.len(),
{
    if k == s.len() - 1 {
        assert(s.last() == '-');
        assert(s.skip(k + 1) =~= Seq::<char>::empty());
    } else {
        assert(s.last() != '-');
        lemma_after_last_dash(s.drop_last(), k);
        assert(s.drop_last().skip(k + 1).push(s.last()) =~= s.skip(k + 1));
    }
}

impl Group {
    /// The group's short name: what follows the last hyphen of its full name.
    pub fn short_name(&self) -> (r: &str)
        requires
            exists|k: int| 0 <= k < self.name@.len() && self.name@[k] == '-',
        ensures
            r@ == sp_after_last_dash(self.name@),
    {
        let cs = crate::chars::str_to_chars(self.name.as_str());
        let mut i: usize = cs.len();
        while i > 0
            invariant
                i <= cs@.len(),
                cs@ == self.name@,
                exists|k: int| 0 <= k < self.name@.len() && self.name@[k] == '-',
                forall|j: int| i <= j < cs@.len() ==> cs@[j] != '-',
            decreases i,
        {
            if cs[i - 1] == '-' {
                proof {
                    lemma_after_last_dash(self.name@, i - 1);
                }
                return self.name.as_str().substring_char(i, cs.len());
            }
            i = i - 1;
        }
        proof {
            assert(false);
        }
        self.name.as_str()
    }
}

/// What kind of change an event records.
#[derive(Debug, Clone, Copy, PartialEq, Eq, Structural)]
pub enum EventType {
    Upload,
    Creation,
    Move,
    Modification,
    Structure,
    Workflow,
    Version,
    Edit,
    Draft,
    Note,
    Xref,
    Image,
    Comment,
    Task,
}

impl EventType {
    /// The event type's wire word, with the trailing space the protocol's
    /// event filter expects.
    pub fn to_str(&self) -> (r: &str)
        ensures
            r@ == (match *self {
                EventType::Upload => "upload "@,
                EventType::Creation => "creation "@,
                EventType::Move => "move "@,
                EventType::Modification => "modification "@,
                EventType::Structure => "structure "@,
                EventType::Workflow => "workflow "@,
                EventType::Version => "version "@,
                EventType::Edit => "edit "@,
                EventType::Draft => "draft "@,
                EventType::Note => "note "@,
                EventType::Xref => "xref "@,
                EventType::Image => "image "@,
                EventType::Comment => "comment "@,
                EventType::Task => "task "@,
            }),
    {
        match self {
            EventType::Upload => "upload ",
            EventType::Creation => "creation ",
            EventType::Move => "move ",
            EventType::Modification => "modification ",
            EventType::Structure => "structure ",
            EventType::Workflow => "workflow ",
            EventType::Version => "version ",
            EventType::Edit => "edit ",
            EventType::Draft => "draft ",
            EventType::Note => "note ",
            EventType::Xref => "xref ",
            EventType::Image => "image ",
            EventType::Comment => "comment ",
            EventType::Task => "task ",
        }
    }
}

/// The author of a change.
#[derive(Debug, Clone, PartialEq, Eq)]
pub struct Author {
    pub id: String,
    pub firstname: String,
    pub surname: String,
    pub username: String,
    pub status: String,
}

/// An error the server reported for a request.
#[derive(Debug, Clone, PartialEq, Eq)]
pub struct Error {
    pub id: String,
    pub request: String,
    pub message: String,
}

/// One fragment of a document together with its locator.
#[derive(Debug, PartialEq, Eq)]
pub struct DocumentFragment {
    pub locator: Option<Locator>,
    pub fragment: Option<Fragments>,
}

/// The server's answer to creating a fragment.
#[derive(Debug, PartialEq, Eq)]
pub struct FragmentCreation {
    pub unresolved_xrefs: Option<bool>,
    pub document_fragment: DocumentFragment,
}

/// A file in the loading zone.
#[derive(Debug, Clone, PartialEq, Eq)]
pub struct File {
    pub name: String,
    pub path: String,
    pub ftype: String,
}

/// How far a server-side thread has come.
#[derive(Debug, Clone, Copy, PartialEq, Eq, Structural)]
pub enum ThreadStatus {
    Initialised,
    InProgress,
    Error,
    Warning,
    Cancelled,
    Failed,
    Completed,
}

impl ThreadStatus {
    /// Whether the thread is still running.
    pub fn running(&self) -> (r: bool)
        ensures
            r == (*self == ThreadStatus::Initialised || *self == ThreadStatus::InProgress),
    {
        matches!(self, ThreadStatus::Initialised | ThreadStatus::InProgress)
    }
}

/// The zip a thread produced.
#[derive(Debug, Clone, PartialEq, Eq)]
pub struct ThreadZip {
    pub filename: String,
}

/// A message a thread reported.
#[derive(Debug, Clone, PartialEq, Eq)]
pub struct ThreadMessage {
    pub message: String,
}

/// How many items a thread has processed.
#[derive(Debug, Clone, Copy, PartialEq, Eq, Structural)]
pub struct ThreadProcessing {
    pub current: u64,
    pub total: u64,
}

/// How many items a thread has packaged.
#[derive(Debug, Clone, Copy, PartialEq, Eq, Structural)]
pub struct ThreadPackaging {
    pub current: u64,
    pub total: u64,
}

/// A server-side thread and its progress.
#[derive(Debug, Clone, PartialEq, Eq)]
pub struct Thread {
    pub id: String,
    pub name: String,
    pub username: String,
    pub groupid: String,
    pub status: ThreadStatus,
    pub processing: Option<ThreadProcessing>,
    pub packaging: Option<ThreadPackaging>,
    pub zip: Option<ThreadZip>,
    pub message: Option<ThreadMessage>,
}

/// The thread an upload load starts.
#[derive(Debug, Clone, PartialEq, Eq)]
pub struct LoadStart {
    pub thread: Thread,
}

/// The thread an unzip starts.
#[derive(Debug, Clone, PartialEq, Eq)]
pub struct LoadUnzip {
    pub thread: Thread,
}

/// One field of a search result.
#[derive(Debug, Clone, PartialEq, Eq)]
pub struct SearchResultField {
    pub name: String,
    pub value: String,
}

/// One search result.
#[derive(Debug, Clone, PartialEq, Eq)]
pub struct SearchResult {
    pub fields: Vec<SearchResultField>,
}

/// One page of search results.
#[derive(Debug, Clone, PartialEq, Eq)]
pub struct SearchResultPage {
    pub page: u64,
    pub page_size: u64,
    pub total_pages: u64,
    pub total_results: u64,
    pub first_result: Option<u64>,
    pub last_result: Option<u64>,
    pub results: Vec<SearchResult>,
}

/// The server's answer to a search.
#[derive(Debug, Clone, PartialEq, Eq)]
pub struct SearchResponse {
    pub results: SearchResultPage,
}

/// Credentials a session is opened with.
#[derive(Debug, Clone, PartialEq, Eq)]
pub enum PSCredentials {
    ClientCredentials { id: String, secret: String },
}

impl PSCredentials {
    /// The parameters of a grant request, as name-value pairs in writing
    /// order.
    pub fn to_map(&self) -> (r: Vec<(String, String)>)
        ensures
            r@.len() == 3,
            r@[0].0@ == "grant_type"@ && r@[0].1@ == "client_credentials"@,
            self matches PSCredentials::ClientCredentials { id, secret } ==> r@[1].0@
                == "client_id"@ && r@[1].1@ == id@ && r@[2].0@ == "client_secret"@ && r@[2].1@
                == secret@,
    {
        match self {
            PSCredentials::ClientCredentials { id, secret } => {
                let mut map: Vec<(String, String)> = Vec::new();
                map.push(
                    (String::from_str("grant_type"), String::from_str("client_credentials")),
                );
                map.push((String::from_str("client_id"), id.clone()));
                map.push((String::from_str("client_secret"), secret.clone()));
                map
            },
        }
    }
}

/// A token grant the server answered with.
#[derive(Debug, Clone, PartialEq, Eq)]
pub struct TokenResponse {
    pub access_token: String,
    pub expires_in: i64,
    pub token_type: String,
    pub scope: Option<String>,
}

} // verus!
