//! Requests to the VyOS HTTP API and the judgement of its replies.
use crate::api_url::{joined_url, text_view, ApiUrl};
use crate::net::IpNet;
use crate::vyos_api::types::{
    entry_path, group_path, ipv4_group_exists, ipv4_group_get, ipv6_group_exists, ipv6_group_get,
    lemma_entry_commands, VyosCommandResponse, VyosConfigOperation, VyosRetrieveCommand,
    VyosRetrieveOperation,
};
use vstd::prelude::*;

verus! {

/// The compact form in which `serde_json` writes a JSON text that it has read, if it is one.
pub uninterp spec fn json_text(text: Seq<char>) -> Option<Seq<char>>;

/// The boolean that `serde_json` finds under a key: the outer option tells whether the body is JSON,
/// the inner one whether it is an object with a boolean there.
pub uninterp spec fn json_bool(body: Seq<u8>, key: Seq<char>) -> Option<Option<bool>>;

/// The string that `serde_json` finds under a key, if the body is a JSON object with one there.
pub uninterp spec fn json_string(body: Seq<u8>, key: Seq<char>) -> Option<Seq<char>>;

/// How `reqwest::StatusCode` writes a status: the code and the usual phrase for it.
pub uninterp spec fn status_text(status: u16) -> Seq<char>;

/// Reads a text as a `serde_json::Value` and writes it with its `Display`. The contract claims that
/// the outcome depends on the text alone.
#[verifier::external_body]
fn normalize_json(text: &str) -> (json: Option<String>)
    ensures
        text_view(json) == json_text(text@),
{
    serde_json::from_str::<serde_json::Value>(text).ok().map(|value| value.to_string())
}

/// Reads a body as a `serde_json::Value` and looks up a boolean with `get` and `as_bool`. The
/// contract claims that the outcome depends on body and key alone.
#[verifier::external_body]
fn find_json_bool(body: &[u8], key: &str) -> (found: Option<Option<bool>>)
    ensures
        found == json_bool(body@, key@),
{
    let value = serde_json::from_slice::<serde_json::Value>(body).ok()?;
    Some(value.get(key).and_then(|member| member.as_bool()))
}

/// Reads a body as a `serde_json::Value` and looks up a string with `get` and `as_str`. The contract
/// claims that the outcome depends on body and key alone.
#[verifier::external_body]
fn find_json_string(body: &[u8], key: &str) -> (found: Option<String>)
    ensures
        text_view(found) == json_string(body@, key@),
{
    let value = serde_json::from_slice::<serde_json::Value>(body).ok()?;
    value.get(key).and_then(|member| member.as_str()).map(|text| text.to_owned())
}

/// Writes a status with `reqwest::StatusCode::from_u16`, which takes codes of three digits, and its
/// `Display`. The contract claims that the outcome depends on the code alone.
#[verifier::external_body]
fn format_status(status: u16) -> (text: String)
    requires
        100 <= status <= 999,
    ensures
        text@ == status_text(status),
{
    reqwest::StatusCode::from_u16(status).unwrap().to_string()
}

/// Why a request to the API failed.
pub enum VyosError {
    /// The request was turned down as malformed; the detail that came with it.
    BadRequest(String),
    /// The request was answered with another error status; a description of it.
    Status(String),
    /// The reply is not JSON; the path that was asked.
    InvalidReply(String),
    /// The command was understood but did not succeed; the path that was asked, and the reason if
    /// one was given.
    Rejected(String, Option<String>),
}

/// A text behind its label, or nothing if there is no text.
pub open spec fn labelled(label: Seq<char>, text: Option<Seq<char>>) -> Seq<char> {
    match text {
        Some(t) => label + t,
        None => Seq::empty(),
    }
}

/// The description of a reply with an error status other than that of a malformed request.
pub open spec fn failure_text(
    path: Seq<char>,
    status: Seq<char>,
    allow: Option<Seq<char>>,
    body: Seq<char>,
) -> Seq<char> {
    "VyOS API request to "@ + path + " failed with status "@ + status + labelled(
        ", allow="@,
        allow,
    ) + labelled(
        ", body="@,
        if body.len() == 0 {
            None
        } else {
            Some(body)
        },
    )
}

impl VyosError {
    /// The text of the error.
    pub open spec fn spec_message(self) -> Seq<char> {
        match self {
            VyosError::BadRequest(detail) => detail@,
            VyosError::Status(text) => text@,
            VyosError::InvalidReply(path) => "VyOS API reply to "@ + path@ + " is not JSON"@,
            VyosError::Rejected(path, error) => "VyOS API request to "@ + path@
                + " did not succeed"@ + labelled(": "@, text_view(error)),
        }
    }

    /// The text of the error.
    pub fn message(&self) -> (text: String)
        ensures
            text@ == self.spec_message(),
    {
        match self {
            VyosError::BadRequest(detail) => detail.clone(),
            VyosError::Status(text) => text.clone(),
            VyosError::InvalidReply(path) => {
                let mut text = "VyOS API reply to ".to_owned();
                text.append(path.as_str());
                text.append(" is not JSON");
                text
            },
            VyosError::Rejected(path, error) => {
                let mut text = "VyOS API request to ".to_owned();
                text.append(path.as_str());
                text.append(" did not succeed");
                if let Some(reason) = error {
                    text.append(": ");
                    text.append(reason.as_str());
                }
                assert(text@ =~= self.spec_message());
                text
            },
        }
    }
}

/// What came back from a request: the status, the methods that the server allows if it names them,
/// and the body as text.
pub struct HttpReply {
    pub status: u16,
    pub allow: Option<String>,
    pub body: String,
}

/// Whether a status is one of the client or server errors.
pub open spec fn is_error_status(status: u16) -> bool {
    400 <= status < 600
}

/// Describes a reply with an error status. For a malformed request that is the body, in compact form
/// if it is JSON; `json` holds that form. Otherwise path, status, allowed methods and body are given.
pub fn describe_failure(
    path: &str,
    reply: &HttpReply,
    status_text: &str,
    json: Option<String>,
) -> (error: VyosError)
    ensures
        if reply.status == 400 {
            error matches VyosError::BadRequest(detail) && detail@ == match json {
                Some(text) => text@,
                None => reply.body@,
            }
        } else {
            error matches VyosError::Status(text) && text@ == failure_text(
                path@,
                status_text@,
                text_view(reply.allow),
                reply.body@,
            )
        },
{
    if reply.status == 400 {
        match json {
            Some(text) => VyosError::BadRequest(text),
            None => VyosError::BadRequest(reply.body.clone()),
        }
    } else {
        let mut text = "VyOS API request to ".to_owned();
        text.append(path);
        text.append(" failed with status ");
        text.append(status_text);
        if let Some(allow) = &reply.allow {
            text.append(", allow=");
            text.append(allow.as_str());
        }
        if !reply.body.as_str().is_empty() {
            text.append(", body=");
            text.append(reply.body.as_str());
        }
        assert(text@ =~= failure_text(
            path@,
            status_text@,
            text_view(reply.allow),
            reply.body@,
        ));
        VyosError::Status(text)
    }
}

/// Judges the status of a reply: it is an error if it is a client or server error.
pub fn check_status(path: &str, reply: &HttpReply) -> (outcome: Result<(), VyosError>)
    ensures
        outcome is Ok <==> !is_error_status(reply.status),
        outcome is Ok <==> reply.status < 400 || reply.status >= 600,
        outcome matches Err(error) ==> if reply.status == 400 {
            error matches VyosError::BadRequest(detail) && detail@ == match json_text(
                reply.body@,
            ) {
                Some(text) => text,
                None => reply.body@,
            }
        } else {
            error matches VyosError::Status(text) && text@ == failure_text(
                path@,
                status_text(reply.status),
                text_view(reply.allow),
                reply.body@,
            )
        },
{
    if reply.status < 400 || reply.status >= 600 {
        return Ok(());
    }
    let json = if reply.status == 400 {
        normalize_json(reply.body.as_str())
    } else {
        None
    };
    let text = format_status(reply.status);
    Err(describe_failure(path, reply, text.as_str(), json))
}

/// Judges the reply to a command, given what it holds under its key `success`, and the reason it
/// gives: it must be JSON, and must not say that the command did not succeed.
pub fn judge_command(
    path: &str,
    success: Option<Option<bool>>,
    reason: Option<String>,
) -> (outcome: Result<(), VyosError>)
    ensures
        match success {
            None => outcome matches Err(VyosError::InvalidReply(p)) && p@ == path@,
            Some(Some(false)) => outcome matches Err(VyosError::Rejected(p, r)) && p@ == path@ && r
                == reason,
            _ => outcome is Ok,
        },
{
    match success {
        None => Err(VyosError::InvalidReply(path.to_owned())),
        Some(Some(false)) => Err(VyosError::Rejected(path.to_owned(), reason)),
        _ => Ok(()),
    }
}

/// Judges the body of the reply to a command.
pub fn check_command(path: &str, body: &[u8]) -> (outcome: Result<(), VyosError>)
    ensures
        match json_bool(body@, "success"@) {
            None => outcome matches Err(VyosError::InvalidReply(p)) && p@ == path@,
            Some(Some(false)) => outcome matches Err(VyosError::Rejected(p, r)) && p@ == path@
                && text_view(r) == json_string(body@, "error"@),
            _ => outcome is Ok,
        },
{
    judge_command(path, find_json_bool(body, "success"), find_json_string(body, "error"))
}

/// The path that takes changes of the configuration.
pub const CONFIGURE_PATH: &'static str = "/configure";

/// The path that takes commands about the stored configuration.
pub const CONFIG_FILE_PATH: &'static str = "/config-file";

/// The path that takes queries.
pub const RETRIEVE_PATH: &'static str = "/retrieve";

/// How long a request may take, in seconds, unless it says otherwise.
pub const REQUEST_TIMEOUT_SECS: u64 = 30;

/// How long connecting may take, in seconds.
pub const CONNECT_TIMEOUT_SECS: u64 = 5;

/// A request that is ready to be sent as a form.
pub struct VyosRequest {
    pub url: String,
    pub fields: Vec<(String, String)>,
    pub timeout_secs: u64,
}

/// What is needed to talk to the API of a router: where it is, and the key to it.
pub struct VyosClient {
    host: ApiUrl,
    apikey: String,
}

impl VyosClient {
    /// The URL of the router.
    pub closed spec fn spec_host(self) -> ApiUrl {
        self.host
    }

    /// The key to the API.
    pub closed spec fn spec_apikey(self) -> Seq<char> {
        self.apikey@
    }

    /// A client of the API at the host, with the key.
    pub fn new(host: ApiUrl, apikey: String) -> (client: VyosClient)
        ensures
            client.spec_host() == host,
            client.spec_apikey() == apikey@,
    {
        VyosClient { host, apikey }
    }

    /// The URL of a path of the API, unless the host is no base for one.
    pub fn url(&self, path: &str) -> (url: Option<String>)
        ensures
            text_view(url) == joined_url(self.spec_host().spec_text(), path@),
    {
        self.host.join(path)
    }

    /// The form that carries the data to a path of the API, unless the host is no base for one.
    pub fn prepare(&self, path: &str, data: String, timeout_secs: Option<u64>) -> (request: Option<
        VyosRequest,
    >)
        ensures
            match joined_url(self.spec_host().spec_text(), path@) {
                None => request is None,
                Some(url) => request matches Some(r) && r.url@ == url && r.fields.deep_view()
                    == seq![("key"@, self.spec_apikey()), ("data"@, data@)] && r.timeout_secs
                    == match timeout_secs {
                    Some(secs) => secs,
                    None => REQUEST_TIMEOUT_SECS,
                },
            },
    {
        match self.url(path) {
            None => None,
            Some(url) => {
                let mut fields: Vec<(String, String)> = Vec::new();
                fields.push(("key".to_owned(), self.apikey.clone()));
                fields.push(("data".to_owned(), data));
                assert(fields.deep_view() =~= seq![
                    ("key"@, self.spec_apikey()),
                    ("data"@, data@),
                ]);
                let timeout_secs = match timeout_secs {
                    Some(secs) => secs,
                    None => REQUEST_TIMEOUT_SECS,
                };
                Some(VyosRequest { url, fields, timeout_secs })
            },
        }
    }
}

/// How far the entries of a group have been read.
#[derive(Clone, Copy, Debug, PartialEq, Eq, Structural)]
pub enum GroupStage {
    ExistsV4,
    ValuesV4,
    ExistsV6,
    ValuesV6,
    Done,
}

/// The answer to a query about a group.
pub enum GroupReply {
    /// Whether there are entries.
    Exists(bool),
    /// The entries.
    Values(Vec<IpNet>),
}

/// The state of reading a group: how far it is, and the entries so far.
pub type GroupState = (GroupStage, Seq<IpNet>);

/// The state after an answer. The entries of a family are asked for only if there are any. An answer
/// that does not fit the question changes nothing.
pub open spec fn after_reply(state: GroupState, reply: GroupReply) -> GroupState {
    match (state.0, reply) {
        (GroupStage::ExistsV4, GroupReply::Exists(found)) => (
            if found {
                GroupStage::ValuesV4
            } else {
                GroupStage::ExistsV6
            },
            state.1,
        ),
        (GroupStage::ValuesV4, GroupReply::Values(nets)) => (
            GroupStage::ExistsV6,
            state.1 + nets@,
        ),
        (GroupStage::ExistsV6, GroupReply::Exists(found)) => (
            if found {
                GroupStage::ValuesV6
            } else {
                GroupStage::Done
            },
            state.1,
        ),
        (GroupStage::ValuesV6, GroupReply::Values(nets)) => (GroupStage::Done, state.1 + nets@),
        _ => state,
    }
}

/// The query that is open in a state.
pub open spec fn open_query(stage: GroupStage, group: Seq<char>) -> Option<
    (VyosRetrieveOperation, Seq<Seq<char>>),
> {
    match stage {
        GroupStage::ExistsV4 => Some((VyosRetrieveOperation::Exists, group_path(false, group))),
        GroupStage::ValuesV4 => Some((VyosRetrieveOperation::ReturnValues, group_path(false, group))),
        GroupStage::ExistsV6 => Some((VyosRetrieveOperation::Exists, group_path(true, group))),
        GroupStage::ValuesV6 => Some((VyosRetrieveOperation::ReturnValues, group_path(true, group))),
        GroupStage::Done => None,
    }
}

/// Reading the entries of a firewall group of both families.
pub struct GroupQuery {
    group: String,
    stage: GroupStage,
    nets: Vec<IpNet>,
}

impl View for GroupQuery {
    type V = GroupState;

    closed spec fn view(&self) -> GroupState {
        (self.stage, self.nets@)
    }
}

impl GroupQuery {
    /// The name of the group.
    pub closed spec fn spec_group(self) -> Seq<char> {
        self.group@
    }

    /// Starts to read the group of the given name.
    pub fn new(group_name: &str) -> (query: GroupQuery)
        ensures
            query@ == (GroupStage::ExistsV4, Seq::<IpNet>::empty()),
            query.spec_group() == group_name@,
    {
        GroupQuery { group: group_name.to_owned(), stage: GroupStage::ExistsV4, nets: Vec::new() }
    }

    /// The query to make now, if any is left.
    pub fn request(&self) -> (request: Option<VyosRetrieveCommand>)
        ensures
            match open_query(self@.0, self.spec_group()) {
                Some(query) => request matches Some(r) && r.deep_view() == query,
                None => request is None,
            },
    {
        let group = self.group.as_str();
        match self.stage {
            GroupStage::ExistsV4 => Some(ipv4_group_exists(group)),
            GroupStage::ValuesV4 => Some(ipv4_group_get(group)),
            GroupStage::ExistsV6 => Some(ipv6_group_exists(group)),
            GroupStage::ValuesV6 => Some(ipv6_group_get(group)),
            GroupStage::Done => None,
        }
    }

    /// Takes an answer.
    pub fn reply(self, reply: GroupReply) -> (query: GroupQuery)
        ensures
            query@ == after_reply(self@, reply),
            query.spec_group() == self.spec_group(),
    {
        let mut query = self;
        match (query.stage, reply) {
            (GroupStage::ExistsV4, GroupReply::Exists(found)) => {
                query.stage = if found {
                    GroupStage::ValuesV4
                } else {
                    GroupStage::ExistsV6
                };
            },
            (GroupStage::ValuesV4, GroupReply::Values(nets)) => {
                let mut nets = nets;
                query.nets.append(&mut nets);
                query.stage = GroupStage::ExistsV6;
            },
            (GroupStage::ExistsV6, GroupReply::Exists(found)) => {
                query.stage = if found {
                    GroupStage::ValuesV6
                } else {
                    GroupStage::Done
                };
            },
            (GroupStage::ValuesV6, GroupReply::Values(nets)) => {
                let mut nets = nets;
                query.nets.append(&mut nets);
                query.stage = GroupStage::Done;
            },
            _ => {},
        }
        query
    }

    /// How far the group has been read.
    pub fn stage(&self) -> (stage: GroupStage)
        ensures
            stage == self@.0,
    {
        self.stage
    }

    /// The entries that have been read.
    pub fn into_response(self) -> (response: VyosCommandResponse<Vec<IpNet>>)
        ensures
            response.success,
            response.data@ == self@.1,
            response.error is None,
    {
        VyosCommandResponse { success: true, data: self.nets, error: None }
    }
}

/// The state after the answers for one family: whether there are entries, and if so which.
pub open spec fn after_family(state: GroupState, nets: Option<Vec<IpNet>>) -> GroupState {
    match nets {
        None => after_reply(state, GroupReply::Exists(false)),
        Some(n) => after_reply(
            after_reply(state, GroupReply::Exists(true)),
            GroupReply::Values(n),
        ),
    }
}

/// A group is read as its IPv4 entries followed by its IPv6 entries, where a family that does not
/// exist has none.
pub proof fn lemma_group_read(v4: Option<Vec<IpNet>>, v6: Option<Vec<IpNet>>)
    ensures
        after_family(
            after_family((GroupStage::ExistsV4, Seq::<IpNet>::empty()), v4),
            v6,
        ) == (
            GroupStage::Done,
            (match v4 {
                Some(n) => n@,
                None => Seq::<IpNet>::empty(),
            }) + (match v6 {
                Some(n) => n@,
                None => Seq::<IpNet>::empty(),
            }),
        ),
{
    let read = after_family(
        after_family((GroupStage::ExistsV4, Seq::<IpNet>::empty()), v4),
        v6,
    );
    assert(read.1 =~= (match v4 {
        Some(n) => n@,
        None => Seq::<IpNet>::empty(),
    }) + (match v6 {
        Some(n) => n@,
        None => Seq::<IpNet>::empty(),
    }));
}

/// A status is an error from 400 on and below 600.
pub proof fn lemma_error_statuses(status: u16)
    ensures
        is_error_status(status) <==> 400 <= status && status <= 599,
{
}

/// The description of a failure names path and status; to it are added, each behind its label, the
/// methods that are allowed, if they are given, and then the body, if there is one.
pub proof fn lemma_failure_texts(
    path: Seq<char>,
    status: Seq<char>,
    allow: Seq<char>,
    body: Seq<char>,
)
    ensures
        ({
            let none = Seq::<char>::empty();
            let plain = failure_text(path, status, None, none);
            &&& plain == "VyOS API request to "@ + path + " failed with status "@ + status
            &&& failure_text(path, status, Some(allow), none) == plain + ", allow="@ + allow
            &&& body.len() > 0 ==> failure_text(path, status, None, body) == plain + ", body="@ + body
            &&& body.len() > 0 ==> failure_text(path, status, Some(allow), body) == plain
                + ", allow="@ + allow + ", body="@ + body
        }),
{
    let none = Seq::<char>::empty();
    let plain = failure_text(path, status, None, none);
    assert(plain =~= "VyOS API request to "@ + path + " failed with status "@ + status);
    assert(failure_text(path, status, Some(allow), none) =~= plain + ", allow="@ + allow);
    if body.len() > 0 {
        assert(failure_text(path, status, None, body) =~= plain + ", body="@ + body);
        assert(failure_text(path, status, Some(allow), body) =~= plain + ", allow="@ + allow
            + ", body="@ + body);
    }
}

/// The texts of errors carry what the errors hold.
pub proof fn lemma_error_texts(detail: String, path: String, reason: String)
    ensures
        VyosError::BadRequest(detail).spec_message() == detail@,
        VyosError::Status(detail).spec_message() == detail@,
        VyosError::InvalidReply(path).spec_message() == "VyOS API reply to "@ + path@
            + " is not JSON"@,
        VyosError::Rejected(path, None).spec_message() == "VyOS API request to "@ + path@
            + " did not succeed"@,
        VyosError::Rejected(path, Some(reason)).spec_message() == "VyOS API request to "@ + path@
            + " did not succeed"@ + ": "@ + reason@,
{
    assert(VyosError::Rejected(path, None).spec_message() =~= "VyOS API request to "@ + path@
        + " did not succeed"@);
    assert(VyosError::Rejected(path, Some(reason)).spec_message() =~= "VyOS API request to "@
        + path@ + " did not succeed"@ + ": "@ + reason@);
}

/// The queries by which a group is read. Each family is first asked whether it has entries, at the
/// path of its entries; only if it has, they are asked for at that path. IPv4 comes before IPv6, and
/// what is read is kept in order.
pub proof fn lemma_group_queries(group: Seq<char>, net: IpNet, read: Seq<IpNet>, found: Vec<IpNet>)
    ensures
        ({
            let v6 = net.is_v6();
            let (exists_stage, values_stage, after_stage) = if v6 {
                (GroupStage::ExistsV6, GroupStage::ValuesV6, GroupStage::Done)
            } else {
                (GroupStage::ExistsV4, GroupStage::ValuesV4, GroupStage::ExistsV6)
            };
            let path = entry_path(net, group).drop_last();
            &&& open_query(exists_stage, group) == Some((VyosRetrieveOperation::Exists, path))
            &&& open_query(values_stage, group) == Some((VyosRetrieveOperation::ReturnValues, path))
            &&& open_query(GroupStage::Done, group) is None
            &&& after_reply((exists_stage, read), GroupReply::Exists(true)) == (values_stage, read)
            &&& after_reply((exists_stage, read), GroupReply::Exists(false)) == (after_stage, read)
            &&& after_reply((values_stage, read), GroupReply::Values(found)) == (
                after_stage,
                read + found@,
            )
            &&& after_reply((exists_stage, read), GroupReply::Values(found)) == (exists_stage, read)
            &&& after_reply((values_stage, read), GroupReply::Exists(true)) == (values_stage, read)
            &&& after_reply((values_stage, read), GroupReply::Exists(false)) == (values_stage, read)
        }),
{
    lemma_entry_commands(VyosConfigOperation::SetEntry, net, group);
}

/// The paths of the API, and how long requests to it and connections may take.
pub proof fn lemma_api_constants()
    ensures
        CONFIGURE_PATH@ == "/configure"@,
        CONFIG_FILE_PATH@ == "/config-file"@,
        RETRIEVE_PATH@ == "/retrieve"@,
        REQUEST_TIMEOUT_SECS == 30,
        CONNECT_TIMEOUT_SECS == 5,
{
}

} // verus!
