//! One language server as its client sees it: the handshake, the folders attached to it, and the
//! responses that come in.

use crate::commands::workspace_edit::uri_path;
use crate::json::{entries_view, field, jsons, Json, JsonValue};
use crate::lsp::diagnostics::{ingest_publish_diagnostics, ingested, DiagnosticStore};
use crate::lsp::files::{lists_path, paths_distinct, without_path, PathSet};
use crate::lsp::transport::{empty_reply, opt_json, reply_message, JsonRpcMessage, Message};
use crate::serial::{held_by_serde, json_text, serde_value, to_json_text};
use crate::paths::{file_name, is_absolute, path_file_name, path_is_absolute};
use crate::text::{decimal, push_decimal, str_eq};
use std::collections::HashMap;
use vstd::prelude::*;
use vstd::utf8::encode_utf8;

verus! {

/// Seconds to wait for the initialize handshake, and for any other response.
pub const INITIALIZE_TIMEOUT_SECS: u64 = 30;

/// Seconds to wait for the response to a shutdown.
pub const SHUTDOWN_TIMEOUT_SECS: u64 = 5;

// ── URIs ────────────────────────────────────────────────────────────────────

/// Why a text is no URI; nothing where it is one.
pub uninterp spec fn uri_fault(s: Seq<char>) -> Option<Seq<char>>;

/// `lsp_types::Uri::from_str`: whether a text is a URI, and what is said of one that is not, depends
/// on the text alone. It panics on a text of more than `i32::MAX` bytes.
#[verifier::external_body]
fn check_uri(s: &str) -> (r: Result<(), String>)
    requires
        encode_utf8(s@).len() <= i32::MAX,
    ensures
        match r {
            Ok(()) => uri_fault(s@) is None,
            Err(m) => uri_fault(s@) == Some(m@),
        },
{
    s.parse::<lsp_types::Uri>().map(|_| ()).map_err(|e| e.to_string())
}

/// The text of the URI of a file, whether it is a valid one or not.
pub open spec fn file_uri(path: Seq<char>) -> Seq<char> {
    "file://"@ + path
}

/// The URI of a file names its path.
pub proof fn uri_names_its_path(path: Seq<char>)
    ensures
        uri_path(file_uri(path)) == path,
{
    let u = file_uri(path);
    let n = "file://"@.len() as int;
    assert(u.take(n) =~= "file://"@);
    assert(u.skip(n) =~= path);
}

/// The URI for a path, given whether its text is one.
pub fn checked_uri(text: String, fault: Result<(), String>) -> (r: Result<String, String>)
    ensures
        match fault {
            Ok(()) => r == Ok::<String, String>(text),
            Err(e) => r matches Err(m) && m@ == "invalid URI: "@ + e@,
        },
{
    match fault {
        Ok(()) => Ok(text),
        Err(e) => {
            let mut m = "invalid URI: ".to_string();
            m.append(e.as_str());
            Err(m)
        },
    }
}

/// Converts a filesystem path to a `file://` URI. A path that is not absolute has none. The text of
/// the URI has no more than `i32::MAX` bytes.
pub fn path_to_uri(path: &str) -> (r: Result<String, String>)
    requires
        is_absolute(path@) ==> encode_utf8(file_uri(path@)).len() <= i32::MAX,
    ensures
        match r {
            Ok(u) => is_absolute(path@) && uri_fault(file_uri(path@)) is None && u@ == file_uri(path@),
            Err(m) => if is_absolute(path@) {
                uri_fault(file_uri(path@)) matches Some(e) && m@ == "invalid URI: "@ + e
            } else {
                m@ == "path is not absolute: "@ + path@
            },
        },
{
    if !path_is_absolute(path) {
        let mut m = "path is not absolute: ".to_string();
        m.append(path);
        return Err(m);
    }
    let mut text = "file://".to_string();
    text.append(path);
    let fault = check_uri(text.as_str());
    checked_uri(text, fault)
}

// ── The handshake ───────────────────────────────────────────────────────────

/// An object with one truth value.
pub open spec fn flag(key: Seq<char>, b: bool) -> Json {
    Json::Obj(seq![(key, Json::Bool(b))])
}

/// An object with two truth values.
pub open spec fn flags(key: Seq<char>, b: bool, other: Seq<char>, c: bool) -> Json {
    Json::Obj(seq![(key, Json::Bool(b)), (other, Json::Bool(c))])
}

/// What the client can do with documents.
pub open spec fn document_capabilities() -> Json {
    Json::Obj(
        seq![
            ("synchronization"@, flags("dynamicRegistration"@, false, "didSave"@, true)),
            ("hover"@, flag("dynamicRegistration"@, false)),
            ("references"@, flag("dynamicRegistration"@, false)),
            ("documentSymbol"@, flags("dynamicRegistration"@, false, "hierarchicalDocumentSymbolSupport"@, true)),
            ("formatting"@, flag("dynamicRegistration"@, false)),
            ("definition"@, flags("dynamicRegistration"@, false, "linkSupport"@, false)),
            ("codeAction"@, flag("dynamicRegistration"@, false)),
            ("rename"@, flags("dynamicRegistration"@, false, "prepareSupport"@, true)),
            ("publishDiagnostics"@, flag("relatedInformation"@, true)),
        ],
    )
}

/// What the client can do.
pub open spec fn client_capabilities() -> Json {
    Json::Obj(
        seq![
            (
                "workspace"@,
                Json::Obj(
                    seq![
                        ("symbol"@, flag("dynamicRegistration"@, false)),
                        ("workspaceFolders"@, Json::Bool(true)),
                    ],
                ),
            ),
            ("textDocument"@, document_capabilities()),
            ("window"@, flag("workDoneProgress"@, true)),
        ],
    )
}

/// A workspace folder.
pub open spec fn folder_json(uri: Seq<char>, name: Seq<char>) -> Json {
    Json::Obj(seq![("uri"@, Json::Str(uri)), ("name"@, Json::Str(name))])
}

/// The last name of a path, or `default` where it has none.
pub open spec fn name_or(path: Seq<char>, default: Seq<char>) -> Seq<char> {
    match file_name(path) {
        Some(n) => n,
        None => default,
    }
}

/// The parameters of the initialize request.
pub open spec fn initialize_json(root_uri: Seq<char>, project_root: Seq<char>, process_id: u32) -> Json {
    Json::Obj(
        seq![
            ("processId"@, Json::Int(process_id as int)),
            ("rootUri"@, Json::Str(root_uri)),
            ("capabilities"@, client_capabilities()),
            ("workspaceFolders"@, Json::Arr(seq![folder_json(root_uri, name_or(project_root, "project"@))])),
        ],
    )
}

fn make_flag(key: &str, b: bool) -> (r: JsonValue)
    ensures
        r@ == flag(key@, b),
{
    let fields = vec![field(key, JsonValue::Bool(b))];
    assert(entries_view(fields@) =~= flag(key@, b)->Obj_0);
    JsonValue::object(fields)
}

fn make_flags(key: &str, b: bool, other: &str, c: bool) -> (r: JsonValue)
    ensures
        r@ == flags(key@, b, other@, c),
{
    let fields = vec![field(key, JsonValue::Bool(b)), field(other, JsonValue::Bool(c))];
    assert(entries_view(fields@) =~= flags(key@, b, other@, c)->Obj_0);
    JsonValue::object(fields)
}

fn make_document_capabilities() -> (r: JsonValue)
    ensures
        r@ == document_capabilities(),
{
    let fields = vec![
        field("synchronization", make_flags("dynamicRegistration", false, "didSave", true)),
        field("hover", make_flag("dynamicRegistration", false)),
        field("references", make_flag("dynamicRegistration", false)),
        field("documentSymbol", make_flags("dynamicRegistration", false, "hierarchicalDocumentSymbolSupport", true)),
        field("formatting", make_flag("dynamicRegistration", false)),
        field("definition", make_flags("dynamicRegistration", false, "linkSupport", false)),
        field("codeAction", make_flag("dynamicRegistration", false)),
        field("rename", make_flags("dynamicRegistration", false, "prepareSupport", true)),
        field("publishDiagnostics", make_flag("relatedInformation", true)),
    ];
    assert(entries_view(fields@) =~= document_capabilities()->Obj_0);
    JsonValue::object(fields)
}

fn make_client_capabilities() -> (r: JsonValue)
    ensures
        r@ == client_capabilities(),
{
    let workspace = vec![
        field("symbol", make_flag("dynamicRegistration", false)),
        field("workspaceFolders", JsonValue::Bool(true)),
    ];
    assert(entries_view(workspace@) =~= client_capabilities()->Obj_0[0].1->Obj_0);
    let fields = vec![
        field("workspace", JsonValue::object(workspace)),
        field("textDocument", make_document_capabilities()),
        field("window", make_flag("workDoneProgress", true)),
    ];
    assert(entries_view(fields@) =~= client_capabilities()->Obj_0);
    JsonValue::object(fields)
}

fn make_folder(uri: &str, name: &str) -> (r: JsonValue)
    ensures
        r@ == folder_json(uri@, name@),
{
    let fields = vec![field("uri", JsonValue::str(uri)), field("name", JsonValue::str(name))];
    assert(entries_view(fields@) =~= folder_json(uri@, name@)->Obj_0);
    JsonValue::object(fields)
}

fn file_name_or(path: &str, default: &str) -> (r: String)
    ensures
        r@ == name_or(path@, default@),
{
    match path_file_name(path) {
        Some(n) => n,
        None => default.to_string(),
    }
}

/// Builds the parameters of the initialize request.
pub fn build_initialize_params(root_uri: &str, project_root: &str, process_id: u32) -> (r: JsonValue)
    ensures
        r@ == initialize_json(root_uri@, project_root@, process_id),
{
    let name = file_name_or(project_root, "project");
    let folders = vec![make_folder(root_uri, name.as_str())];
    assert(jsons(folders@) =~= seq![folder_json(root_uri@, name@)]);
    let fields = vec![
        field("processId", JsonValue::UInt(process_id as u64)),
        field("rootUri", JsonValue::str(root_uri)),
        field("capabilities", make_client_capabilities()),
        field("workspaceFolders", JsonValue::array(folders)),
    ];
    assert(entries_view(fields@) =~= initialize_json(root_uri@, project_root@, process_id)->Obj_0);
    JsonValue::object(fields)
}

/// The server says that workspace folders can be attached to it.
pub open spec fn takes_folders(result: Json) -> bool {
    match result.get3("capabilities"@, "workspace"@, "workspaceFolders"@) {
        Some(f) => f.is_true("supported"@),
        None => false,
    }
}

/// Whether the result of the initialize request says that workspace folders can be attached.
pub fn supports_workspace_folders(result: &JsonValue) -> (r: bool)
    ensures
        r == takes_folders(result@),
{
    match result.get3("capabilities", "workspace", "workspaceFolders") {
        Some(f) => f.is_true("supported"),
        None => false,
    }
}

// ── Folders ─────────────────────────────────────────────────────────────────

/// The parameters that tell of a folder that comes or goes.
pub open spec fn folder_change(uri: Seq<char>, name: Seq<char>, added: bool) -> Json {
    let one = Json::Arr(seq![folder_json(uri, name)]);
    let none = Json::Arr(Seq::empty());
    Json::Obj(
        seq![
            (
                "event"@,
                Json::Obj(
                    seq![
                        (
                            "added"@,
                            if added {
                                one
                            } else {
                                none
                            },
                        ),
                        (
                            "removed"@,
                            if added {
                                none
                            } else {
                                one
                            },
                        ),
                    ],
                ),
            ),
        ],
    )
}

fn make_folder_change(uri: &str, name: &str, added: bool) -> (r: JsonValue)
    ensures
        r@ == folder_change(uri@, name@, added),
{
    let one = vec![make_folder(uri, name)];
    let none: Vec<JsonValue> = Vec::new();
    assert(jsons(one@) =~= seq![folder_json(uri@, name@)]);
    assert(jsons(none@) =~= Seq::empty());
    let event = if added {
        vec![field("added", JsonValue::array(one)), field("removed", JsonValue::array(none))]
    } else {
        vec![field("added", JsonValue::array(none)), field("removed", JsonValue::array(one))]
    };
    let ghost want = folder_change(uri@, name@, added);
    assert(entries_view(event@) =~= want->Obj_0[0].1->Obj_0);
    let outer = vec![field("event", JsonValue::object(event))];
    assert(entries_view(outer@) =~= want->Obj_0);
    JsonValue::object(outer)
}

/// Whether `serde_json::from_value` reads a value as an `lsp_types::InitializeResult`.
pub uninterp spec fn is_initialize_result(v: serde_json::Value) -> bool;

/// `serde_json::from_value`, for an `lsp_types::InitializeResult`: whether the value is read as one
/// depends on the value alone.
#[verifier::external_body]
fn reads_as_initialize_result(v: serde_json::Value) -> (r: bool)
    ensures
        r == is_initialize_result(v),
{
    serde_json::from_value::<lsp_types::InitializeResult>(v).is_ok()
}

/// Checks that the answer to the handshake is one.
pub fn check_initialize_result(result: &JsonValue) -> (r: Result<(), String>)
    ensures
        match r {
            Ok(()) => is_initialize_result(held_by_serde(result@)),
            Err(m) => !is_initialize_result(held_by_serde(result@)) && m@ == "failed to parse InitializeResult"@,
        },
{
    if reads_as_initialize_result(serde_value(result)) {
        Ok(())
    } else {
        Err("failed to parse InitializeResult".to_string())
    }
}

/// The workspace folders attached to a server.
pub struct AttachedFolders {
    pub folders: PathSet,
    /// Whether folders can be attached to the running server.
    pub supported: bool,
}

impl AttachedFolders {
    /// No folder is attached twice.
    pub open spec fn is_sound(self) -> bool {
        paths_distinct(self.folders@)
    }

    /// The folder that the server was started with.
    pub fn new(initial: &str, supported: bool) -> (r: AttachedFolders)
        ensures
            r.is_sound(),
            r.folders@ == seq![initial@],
            r.supported == supported,
    {
        let mut folders = PathSet::new();
        let ghost none = folders@;
        let fresh = folders.insert(initial);
        proof {
            assert(!lists_path(none, initial@));
            assert(folders@ =~= seq![initial@]);
        }
        AttachedFolders { folders, supported }
    }

    /// Checks if a workspace folder is currently attached.
    pub fn is_folder_attached(&self, path: &str) -> (r: bool)
        ensures
            r == lists_path(self.folders@, path@),
    {
        self.folders.contains(path)
    }

    /// The workspace folders that are attached.
    pub fn attached_folders(&self) -> (r: &PathSet)
        ensures
            *r == self.folders,
    {
        &self.folders
    }

    /// Attaches a folder. Gives the parameters of the notification to send, or nothing where it is
    /// attached already or folders cannot be attached; it then counts as attached, so that it is
    /// not tried again.
    pub fn attach_folder(&mut self, path: &str, uri: &str) -> (r: Option<JsonValue>)
        requires
            old(self).is_sound(),
        ensures
            final(self).is_sound(),
            final(self).supported == old(self).supported,
            lists_path(final(self).folders@, path@),
            match r {
                Some(p) => old(self).supported && !lists_path(old(self).folders@, path@) && p@ == folder_change(
                    uri@,
                    name_or(path@, "workspace"@),
                    true,
                ),
                None => !old(self).supported || lists_path(old(self).folders@, path@),
            },
            final(self).folders@ == if lists_path(old(self).folders@, path@) {
                old(self).folders@
            } else {
                old(self).folders@.push(path@)
            },
    {
        let fresh = self.folders.insert(path);
        if fresh && self.supported {
            let name = file_name_or(path, "workspace");
            Some(make_folder_change(uri, name.as_str(), true))
        } else {
            None
        }
    }

    /// Detaches a folder. Gives the parameters of the notification to send, or nothing where it is
    /// not attached or the server is not told of folders.
    pub fn detach_folder(&mut self, path: &str, uri: &str) -> (r: Option<JsonValue>)
        requires
            old(self).is_sound(),
        ensures
            final(self).is_sound(),
            final(self).supported == old(self).supported,
            final(self).folders@ == without_path(old(self).folders@, path@),
            !lists_path(final(self).folders@, path@),
            forall|q: Seq<char>|
                !crate::paths::same_path(q, path@) ==> #[trigger] lists_path(final(self).folders@, q) == lists_path(
                    old(self).folders@,
                    q,
                ),
            match r {
                Some(p) => old(self).supported && lists_path(old(self).folders@, path@) && p@ == folder_change(
                    uri@,
                    name_or(path@, "workspace"@),
                    false,
                ),
                None => !old(self).supported || !lists_path(old(self).folders@, path@),
            },
    {
        let attached = self.folders.remove(path);
        if attached && self.supported {
            let name = file_name_or(path, "workspace");
            Some(make_folder_change(uri, name.as_str(), false))
        } else {
            None
        }
    }
}

// ── Responses ───────────────────────────────────────────────────────────────

/// A response that came before it was waited for.
pub enum BufferedResponse {
    Result(JsonValue),
    Error(String),
}

/// What a response brings: its result, or what its error says.
pub open spec fn brought(result: Option<Json>, error: Option<Json>) -> Result<Json, Seq<char>> {
    match error {
        Some(e) => Err(json_text(e)),
        None => Ok(
            match result {
                Some(v) => v,
                None => Json::Null,
            },
        ),
    }
}

/// What a kept response brings.
pub open spec fn kept(b: BufferedResponse) -> Result<Json, Seq<char>> {
    match b {
        BufferedResponse::Result(v) => Ok(v@),
        BufferedResponse::Error(m) => Err(m@),
    }
}

/// What is given to one who waits for a response.
pub open spec fn delivered(b: Result<Json, Seq<char>>) -> Result<Json, Seq<char>> {
    match b {
        Ok(v) => Ok(v),
        Err(m) => Err("LSP error: "@ + m),
    }
}

/// The view of a delivered response.
pub open spec fn delivery(r: Result<JsonValue, String>) -> Result<Json, Seq<char>> {
    match r {
        Ok(v) => Ok(v@),
        Err(m) => Err(m@),
    }
}

/// The responses that came before they were waited for, by the id of their request.
pub struct Inbox {
    pub buffered: HashMap<i64, BufferedResponse>,
}

/// What a message means to one who waits for a response.
pub enum WaitStep {
    /// Read another message.
    Continue,
    /// Send this to the server, then read another message.
    Reply(JsonValue),
    /// This is what was waited for.
    Done(Result<JsonValue, String>),
}

fn into_buffered(result: Option<JsonValue>, error: Option<JsonValue>) -> (r: BufferedResponse)
    ensures
        kept(r) == brought(opt_json(result), opt_json(error)),
{
    match error {
        Some(e) => BufferedResponse::Error(to_json_text(&e)),
        None => match result {
            Some(v) => BufferedResponse::Result(v),
            None => BufferedResponse::Result(JsonValue::Null),
        },
    }
}

fn deliver(b: BufferedResponse) -> (r: Result<JsonValue, String>)
    ensures
        delivery(r) == delivered(kept(b)),
{
    match b {
        BufferedResponse::Result(v) => Ok(v),
        BufferedResponse::Error(m) => {
            let mut e = "LSP error: ".to_string();
            e.append(m.as_str());
            Err(e)
        },
    }
}

impl View for Inbox {
    type V = Map<i64, Result<Json, Seq<char>>>;

    open spec fn view(&self) -> Map<i64, Result<Json, Seq<char>>> {
        self.buffered@.map_values(|b: BufferedResponse| kept(b))
    }
}

impl Inbox {
    /// Nothing came yet.
    pub fn new() -> (r: Inbox)
        ensures
            r@.dom().is_empty(),
    {
        broadcast use vstd::std_specs::hash::group_hash_axioms;
        let r = Inbox { buffered: HashMap::new() };
        assert(r@.dom() =~= Set::empty());
        r
    }

    /// Takes the response to a request out, where it came already.
    pub fn take(&mut self, id: i64) -> (r: Option<Result<JsonValue, String>>)
        ensures
            final(self)@ == old(self)@.remove(id),
            match r {
                Some(x) => old(self)@.contains_key(id) && delivery(x) == delivered(old(self)@[id]),
                None => !old(self)@.contains_key(id),
            },
    {
        broadcast use vstd::std_specs::hash::group_hash_axioms;
        let ghost before = self.buffered@;
        let got = self.buffered.remove(&id);
        assert(self@ =~= old(self)@.remove(id));
        match got {
            Some(b) => Some(deliver(b)),
            None => None,
        }
    }

    fn keep(&mut self, id: i64, b: BufferedResponse)
        ensures
            final(self)@ == old(self)@.insert(id, kept(b)),
    {
        broadcast use vstd::std_specs::hash::group_hash_axioms;
        self.buffered.insert(id, b);
        assert(self@ =~= old(self)@.insert(id, kept(b)));
    }

    /// Takes a message while the response to `expected_id` is waited for: keeps responses to other
    /// requests, answers requests of the server with nothing, and stores published diagnostics.
    pub fn on_message(&mut self, expected_id: i64, message: JsonRpcMessage, store: &mut DiagnosticStore) -> (r: WaitStep)
        ensures
            match message@ {
                Message::Response { id, result, error } => {
                    &&& final(store)@ == old(store)@
                    &&& if id == expected_id {
                        r matches WaitStep::Done(x) && delivery(x) == delivered(brought(result, error))
                            && final(self)@ == old(self)@
                    } else {
                        r is Continue && final(self)@ == old(self)@.insert(id, brought(result, error))
                    }
                },
                Message::Notification { method, params } => {
                    &&& r is Continue
                    &&& final(self)@ == old(self)@
                    &&& final(store)@ == if method == "textDocument/publishDiagnostics"@ {
                        ingested(old(store)@, params)
                    } else {
                        old(store)@
                    }
                },
                Message::ServerRequest { id, method, params } => {
                    &&& r matches WaitStep::Reply(v) && v@ == empty_reply(id)
                    &&& final(self)@ == old(self)@
                    &&& final(store)@ == old(store)@
                },
            },
    {
        match message {
            JsonRpcMessage::Response { id, result, error } => {
                let b = into_buffered(result, error);
                if id == expected_id {
                    WaitStep::Done(deliver(b))
                } else {
                    self.keep(id, b);
                    WaitStep::Continue
                }
            },
            JsonRpcMessage::Notification { method, params } => {
                if str_eq(method.as_str(), "textDocument/publishDiagnostics") {
                    match &params {
                        Some(p) => ingest_publish_diagnostics(Some(p), store),
                        None => ingest_publish_diagnostics(None, store),
                    }
                }
                WaitStep::Continue
            },
            JsonRpcMessage::ServerRequest { id, method: _, params: _ } => WaitStep::Reply(reply_message(&id)),
        }
    }

    /// Takes a message while the end of the server's work is waited for: keeps all responses,
    /// answers requests of the server with nothing. The result is that of waiting for a
    /// response, done with `null` when the server says that it is done.
    pub fn on_progress_message(&mut self, message: JsonRpcMessage) -> (r: WaitStep)
        ensures
            match message@ {
                Message::Response { id, result, error } => r is Continue && final(self)@ == old(self)@.insert(
                    id,
                    brought(result, error),
                ),
                Message::Notification { method, params } => final(self)@ == old(self)@ && if is_progress_end(
                    method,
                    params,
                ) {
                    r matches WaitStep::Done(x) && delivery(x) == Ok::<Json, Seq<char>>(Json::Null)
                } else {
                    r is Continue
                },
                Message::ServerRequest { id, method, params } => final(self)@ == old(self)@ && (r matches WaitStep::Reply(
                    v,
                ) && v@ == empty_reply(id)),
            },
    {
        match message {
            JsonRpcMessage::Response { id, result, error } => {
                let b = into_buffered(result, error);
                self.keep(id, b);
                WaitStep::Continue
            },
            JsonRpcMessage::Notification { method, params } => {
                if str_eq(method.as_str(), "$/progress") {
                    if let Some(p) = &params {
                        if let Some(k) = p.get2("value", "kind") {
                            if let Some(kind) = k.as_str() {
                                if str_eq(kind, "end") {
                                    return WaitStep::Done(Ok(JsonValue::Null));
                                }
                            }
                        }
                    }
                }
                WaitStep::Continue
            },
            JsonRpcMessage::ServerRequest { id, method: _, params: _ } => WaitStep::Reply(reply_message(&id)),
        }
    }
}

/// The server says that its work is done.
pub open spec fn is_progress_end(method: Seq<char>, params: Option<Json>) -> bool {
    method == "$/progress"@ && match params {
        Some(p) => p.get2("value"@, "kind"@) == Some(Json::Str("end"@)),
        None => false,
    }
}

/// What is said when no response came in time.
pub fn timeout_message(secs: u64) -> (r: String)
    ensures
        r@ == "timed out waiting for response ("@ + decimal(secs as nat) + "s)"@,
{
    let mut m = "timed out waiting for response (".to_string();
    push_decimal(&mut m, secs);
    m.append("s)");
    m
}

// ── Laws ────────────────────────────────────────────────────────────────────

/// A response that came early is delivered when it is waited for, just as if it had come in time.
pub proof fn early_response_is_delivered(
    inbox: Map<i64, Result<Json, Seq<char>>>,
    id: i64,
    result: Option<Json>,
    error: Option<Json>,
)
    ensures
        inbox.insert(id, brought(result, error)).contains_key(id),
        delivered(inbox.insert(id, brought(result, error))[id]) == delivered(brought(result, error)),
{
}

} // verus!
