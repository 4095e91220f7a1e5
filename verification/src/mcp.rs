//! MCP (Model Context Protocol) server: what a message asks for, which tool is called with which
//! arguments, and the shape of what the tools give back.
//!
//! The protocol is JSON-RPC 2.0, one message per line. Only the parts needed for a tool server are
//! there (`initialize`, `ping`, `tools/list`, `tools/call`).

use vstd::prelude::*;
use vstd::string::*;
use vstd::utf8::*;

use crate::config::{expand_tilde, tilde_expanded};
use crate::db::text_view;
use crate::error::{described, describe, outcome, Error, ErrorView};
use crate::model::{
    clone_assets, Asset, AssetView, ExportRequest, ExportRequestView, KindCount, KindCountView, Package,
    PackageListing, PackageListingView, PackageView, RefInfo, RefInfoView, SearchQuery, SearchQueryView,
    shown_category,
};
use crate::number::{
    all_digits, decimal_i64, decimal_usize, is_all_digits, number_of, numeral, parse_u64, signed_numeral,
};
use crate::outside::{
    json_fault, json_fault_of, json_string, json_string_of, json_text, json_text_of, json_value, json_value_of,
    quoted, quoted_of,
};
use crate::seqs::{lemma_filter_none, lemma_filter_step, limited, map_all, take_limited};
use crate::server::not_blank;
use crate::service::{choose_dest, one_dest, ExportDest, ExportDestView, ExportOptions};
use crate::text::{cat, cat3, glue, join, same_text, starts, starts_with, trim, trimmed};

verus! {

// ----- messages ------------------------------------------------------------------------------

/// The protocol versions that are spoken, the preferred one first.
pub open spec fn supported_protocols() -> Seq<Seq<char>> {
    seq!["2025-06-18"@, "2025-03-26"@, "2024-11-05"@]
}

/// The protocol version that is answered: the requested one where it is spoken, else the preferred
/// one.
pub open spec fn protocol_for(requested: Seq<char>) -> Seq<char> {
    if supported_protocols().contains(requested) {
        requested
    } else {
        supported_protocols()[0]
    }
}

pub fn choose_protocol(requested: &str) -> (r: String)
    ensures
        r@ == protocol_for(requested@),
{
    let known = same_text(requested, "2025-06-18") || same_text(requested, "2025-03-26") || same_text(
        requested,
        "2024-11-05",
    );
    proof {
        let s = supported_protocols();
        assert(s[0] == "2025-06-18"@ && s[1] == "2025-03-26"@ && s[2] == "2024-11-05"@);
        assert(known == s.contains(requested@)) by {
            if s.contains(requested@) {
                let i = choose|i: int| 0 <= i < s.len() && s[i] == requested@;
                assert(i == 0 || i == 1 || i == 2);
            }
        }
    }
    if known {
        requested.to_string()
    } else {
        "2025-06-18".to_string()
    }
}

/// What a message asks for.
#[derive(Clone, Copy, PartialEq, Eq, Structural)]
pub enum Request {
    /// Nothing: it is a notification.
    Nothing,
    Initialize,
    Ping,
    ListTools,
    CallTool,
    ListResources,
    ListPrompts,
    /// Something that is not there.
    Unknown,
}

/// What a message with a method asks for; one without an id is a notification.
pub open spec fn request_in(has_id: bool, method: Seq<char>) -> Request {
    if !has_id {
        Request::Nothing
    } else if method == "initialize"@ {
        Request::Initialize
    } else if method == "ping"@ {
        Request::Ping
    } else if method == "tools/list"@ {
        Request::ListTools
    } else if method == "tools/call"@ {
        Request::CallTool
    } else if method == "resources/list"@ {
        Request::ListResources
    } else if method == "prompts/list"@ {
        Request::ListPrompts
    } else {
        Request::Unknown
    }
}

pub fn read_request(has_id: bool, method: &str) -> (r: Request)
    ensures
        r == request_in(has_id, method@),
{
    if !has_id {
        Request::Nothing
    } else if same_text(method, "initialize") {
        Request::Initialize
    } else if same_text(method, "ping") {
        Request::Ping
    } else if same_text(method, "tools/list") {
        Request::ListTools
    } else if same_text(method, "tools/call") {
        Request::CallTool
    } else if same_text(method, "resources/list") {
        Request::ListResources
    } else if same_text(method, "prompts/list") {
        Request::ListPrompts
    } else {
        Request::Unknown
    }
}

/// What is said of a method that is not there.
pub fn method_not_found(method: &str) -> (r: String)
    ensures
        r@ == "method not found: "@ + method@,
{
    cat("method not found: ", method)
}

/// What a message says.
#[derive(Debug)]
pub enum Message {
    /// It is no JSON: what is wrong with it.
    Malformed(String),
    /// It wants no answer.
    Notification,
    /// The client asks for a protocol version.
    Initialize { id: String, protocol: String },
    Ping { id: String },
    ListTools { id: String },
    /// `args` spells the arguments in JSON.
    CallTool { id: String, name: String, args: String },
    ListResources { id: String },
    ListPrompts { id: String },
    /// It asks for something that is not there.
    Unknown { id: String, method: String },
}

/// What a [`Message`] holds.
#[verifier::ext_equal]
pub enum MessageView {
    Malformed(Seq<char>),
    Notification,
    Initialize { id: Seq<char>, protocol: Seq<char> },
    Ping { id: Seq<char> },
    ListTools { id: Seq<char> },
    CallTool { id: Seq<char>, name: Seq<char>, args: Seq<char> },
    ListResources { id: Seq<char> },
    ListPrompts { id: Seq<char> },
    Unknown { id: Seq<char>, method: Seq<char> },
}

impl View for Message {
    type V = MessageView;

    open spec fn view(&self) -> MessageView {
        match self {
            Message::Malformed(words) => MessageView::Malformed(words@),
            Message::Notification => MessageView::Notification,
            Message::Initialize { id, protocol } => MessageView::Initialize { id: id@, protocol: protocol@ },
            Message::Ping { id } => MessageView::Ping { id: id@ },
            Message::ListTools { id } => MessageView::ListTools { id: id@ },
            Message::CallTool { id, name, args } => MessageView::CallTool { id: id@, name: name@, args: args@ },
            Message::ListResources { id } => MessageView::ListResources { id: id@ },
            Message::ListPrompts { id } => MessageView::ListPrompts { id: id@ },
            Message::Unknown { id, method } => MessageView::Unknown { id: id@, method: method@ },
        }
    }
}

impl DeepView for Message {
    type V = MessageView;

    open spec fn deep_view(&self) -> MessageView {
        self.view()
    }
}

pub open spec fn text_or(o: Option<Seq<char>>, default: Seq<char>) -> Seq<char> {
    match o {
        Some(s) => s,
        None => default,
    }
}

/// The message with some parts: `id` and `args` are spelled in JSON. One without an id, or with the
/// id `null`, wants no answer.
pub open spec fn message_with(
    id: Option<Seq<char>>,
    method: Option<Seq<char>>,
    protocol: Option<Seq<char>>,
    name: Option<Seq<char>>,
    args: Option<Seq<char>>,
) -> MessageView {
    let i = text_or(id, "null"@);
    let m = text_or(method, ""@);
    match request_in(i != "null"@, m) {
        Request::Nothing => MessageView::Notification,
        Request::Initialize => MessageView::Initialize { id: i, protocol: text_or(protocol, ""@) },
        Request::Ping => MessageView::Ping { id: i },
        Request::ListTools => MessageView::ListTools { id: i },
        Request::CallTool => MessageView::CallTool { id: i, name: text_or(name, ""@), args: text_or(args, "{}"@) },
        Request::ListResources => MessageView::ListResources { id: i },
        Request::ListPrompts => MessageView::ListPrompts { id: i },
        Request::Unknown => MessageView::Unknown { id: i, method: m },
    }
}

/// The message that bytes spell.
pub open spec fn message_of(line: Seq<u8>) -> MessageView {
    if json_value_of(line, ""@) is None {
        MessageView::Malformed(text_or(json_fault_of(line), ""@))
    } else {
        message_with(
            json_value_of(line, "/id"@),
            json_string_of(line, "/method"@),
            json_string_of(line, "/params/protocolVersion"@),
            json_string_of(line, "/params/name"@),
            json_value_of(line, "/params/arguments"@),
        )
    }
}

fn or_default(o: Option<String>, default: &str) -> (r: String)
    ensures
        r@ == text_or(o.deep_view(), default@),
{
    match o {
        Some(s) => s,
        None => default.to_string(),
    }
}

/// The message with some parts: `id` and `args` are spelled in JSON.
pub fn make_message(
    id: Option<String>,
    method: Option<String>,
    protocol: Option<String>,
    name: Option<String>,
    args: Option<String>,
) -> (r: Message)
    ensures
        r@ == message_with(
            id.deep_view(),
            method.deep_view(),
            protocol.deep_view(),
            name.deep_view(),
            args.deep_view(),
        ),
{
    let id = or_default(id, "null");
    let method = or_default(method, "");
    let has_id = !same_text(id.as_str(), "null");
    match read_request(has_id, method.as_str()) {
        Request::Nothing => Message::Notification,
        Request::Initialize => Message::Initialize { id, protocol: or_default(protocol, "") },
        Request::Ping => Message::Ping { id },
        Request::ListTools => Message::ListTools { id },
        Request::CallTool => Message::CallTool { id, name: or_default(name, ""), args: or_default(args, "{}") },
        Request::ListResources => Message::ListResources { id },
        Request::ListPrompts => Message::ListPrompts { id },
        Request::Unknown => Message::Unknown { id, method },
    }
}

/// Reads the message that bytes spell.
pub fn read_message(line: &[u8]) -> (r: Message)
    ensures
        r.deep_view() == message_of(line@),
{
    match json_fault(line) {
        Some(words) => Message::Malformed(words),
        None => make_message(
            json_value(line, "/id"),
            json_string(line, "/method"),
            json_string(line, "/params/protocolVersion"),
            json_string(line, "/params/name"),
            json_value(line, "/params/arguments"),
        ),
    }
}

/// Reads the message in a line of input; a blank line holds none.
pub fn read_line(line: &str) -> (r: Option<Message>)
    ensures
        trim(line@).len() == 0 ==> r is None,
        trim(line@).len() > 0 ==> (r matches Some(m) && m@ == message_of(encode_utf8(trim(line@)))),
{
    let t = trimmed(line);
    if t.as_str().is_empty() {
        None
    } else {
        Some(read_message(t.as_str().as_bytes()))
    }
}

// ----- arguments -----------------------------------------------------------------------------

/// The arguments of a tool call, as far as they are there and of the right type.
#[derive(Debug)]
pub struct ToolArgs {
    pub query: Option<String>,
    pub kind: Option<String>,
    pub package: Option<String>,
    pub publisher: Option<String>,
    pub ext: Option<String>,
    pub path_prefix: Option<String>,
    pub identifier: Option<String>,
    pub project_dir: Option<String>,
    pub out_dir: Option<String>,
    pub unitypackage_path: Option<String>,
    pub identifiers: Vec<String>,
    pub limit: Option<u64>,
    pub max_depth: Option<u64>,
    pub max_bytes: Option<u64>,
    pub include_scripts: Option<bool>,
    pub include_deps: Option<bool>,
    pub force: Option<bool>,
    pub dry_run: Option<bool>,
}

/// What a [`ToolArgs`] holds.
#[verifier::ext_equal]
pub struct ToolArgsView {
    pub query: Option<Seq<char>>,
    pub kind: Option<Seq<char>>,
    pub package: Option<Seq<char>>,
    pub publisher: Option<Seq<char>>,
    pub ext: Option<Seq<char>>,
    pub path_prefix: Option<Seq<char>>,
    pub identifier: Option<Seq<char>>,
    pub project_dir: Option<Seq<char>>,
    pub out_dir: Option<Seq<char>>,
    pub unitypackage_path: Option<Seq<char>>,
    pub identifiers: Seq<Seq<char>>,
    pub limit: Option<u64>,
    pub max_depth: Option<u64>,
    pub max_bytes: Option<u64>,
    pub include_scripts: Option<bool>,
    pub include_deps: Option<bool>,
    pub force: Option<bool>,
    pub dry_run: Option<bool>,
}

impl View for ToolArgs {
    type V = ToolArgsView;

    open spec fn view(&self) -> ToolArgsView {
        ToolArgsView {
            query: self.query.deep_view(),
            kind: self.kind.deep_view(),
            package: self.package.deep_view(),
            publisher: self.publisher.deep_view(),
            ext: self.ext.deep_view(),
            path_prefix: self.path_prefix.deep_view(),
            identifier: self.identifier.deep_view(),
            project_dir: self.project_dir.deep_view(),
            out_dir: self.out_dir.deep_view(),
            unitypackage_path: self.unitypackage_path.deep_view(),
            identifiers: self.identifiers.deep_view(),
            limit: self.limit,
            max_depth: self.max_depth,
            max_bytes: self.max_bytes,
            include_scripts: self.include_scripts,
            include_deps: self.include_deps,
            force: self.force,
            dry_run: self.dry_run,
        }
    }
}

impl DeepView for ToolArgs {
    type V = ToolArgsView;

    open spec fn deep_view(&self) -> ToolArgsView {
        self.view()
    }
}

impl Clone for ToolArgs {
    fn clone(&self) -> (r: Self)
        ensures
            r@ == self@,
    {
        let r = ToolArgs {
            query: self.query.clone(),
            kind: self.kind.clone(),
            package: self.package.clone(),
            publisher: self.publisher.clone(),
            ext: self.ext.clone(),
            path_prefix: self.path_prefix.clone(),
            identifier: self.identifier.clone(),
            project_dir: self.project_dir.clone(),
            out_dir: self.out_dir.clone(),
            unitypackage_path: self.unitypackage_path.clone(),
            identifiers: self.identifiers.clone(),
            limit: self.limit,
            max_depth: self.max_depth,
            max_bytes: self.max_bytes,
            include_scripts: self.include_scripts,
            include_deps: self.include_deps,
            force: self.force,
            dry_run: self.dry_run,
        };
        assert(r.query.deep_view() == self.query.deep_view());
        assert(r.kind.deep_view() == self.kind.deep_view());
        assert(r.package.deep_view() == self.package.deep_view());
        assert(r.publisher.deep_view() == self.publisher.deep_view());
        assert(r.ext.deep_view() == self.ext.deep_view());
        assert(r.path_prefix.deep_view() == self.path_prefix.deep_view());
        assert(r.identifier.deep_view() == self.identifier.deep_view());
        assert(r.project_dir.deep_view() == self.project_dir.deep_view());
        assert(r.out_dir.deep_view() == self.out_dir.deep_view());
        assert(r.unitypackage_path.deep_view() == self.unitypackage_path.deep_view());
        assert(r.identifiers.deep_view() =~= self.identifiers.deep_view());
        r
    }
}

impl Default for ToolArgs {
    fn default() -> (r: Self)
        ensures
            r@ == (ToolArgsView {
                query: None,
                kind: None,
                package: None,
                publisher: None,
                ext: None,
                path_prefix: None,
                identifier: None,
                project_dir: None,
                out_dir: None,
                unitypackage_path: None,
                identifiers: Seq::empty(),
                limit: None,
                max_depth: None,
                max_bytes: None,
                include_scripts: None,
                include_deps: None,
                force: None,
                dry_run: None,
            }),
    {
        let r = ToolArgs {
            query: None,
            kind: None,
            package: None,
            publisher: None,
            ext: None,
            path_prefix: None,
            identifier: None,
            project_dir: None,
            out_dir: None,
            unitypackage_path: None,
            identifiers: Vec::new(),
            limit: None,
            max_depth: None,
            max_bytes: None,
            include_scripts: None,
            include_deps: None,
            force: None,
            dry_run: None,
        };
        assert(r.identifiers.deep_view() =~= Seq::empty());
        r
    }
}

pub open spec fn key_pointer(key: Seq<char>) -> Seq<char> {
    "/"@ + key
}

/// A text argument that is not blank.
pub open spec fn text_arg(args: Seq<u8>, key: Seq<char>) -> Option<Seq<char>> {
    not_blank(json_string_of(args, key_pointer(key)))
}

/// A text that is not blank.
pub fn filled_arg(t: Option<String>) -> (r: Option<String>)
    ensures
        r.deep_view() == not_blank(t.deep_view()),
{
    match t {
        Some(s) => if trimmed(s.as_str()).as_str().is_empty() {
            None
        } else {
            Some(s)
        },
        None => None,
    }
}

fn read_text(args: &[u8], key: &str) -> (r: Option<String>)
    ensures
        r.deep_view() == text_arg(args@, key@),
{
    let p = cat("/", key);
    filled_arg(json_string(args, p.as_str()))
}

/// The truth value that a JSON text spells.
pub open spec fn truth_of(t: Option<Seq<char>>) -> Option<bool> {
    if t == Some("true"@) {
        Some(true)
    } else if t == Some("false"@) {
        Some(false)
    } else {
        None
    }
}

pub fn read_truth(t: Option<String>) -> (r: Option<bool>)
    ensures
        r == truth_of(t.deep_view()),
{
    proof {
        reveal_strlit("true");
        reveal_strlit("false");
        assert("true"@.len() != "false"@.len());
    }
    match t {
        Some(s) => if same_text(s.as_str(), "true") {
            Some(true)
        } else if same_text(s.as_str(), "false") {
            Some(false)
        } else {
            None
        },
        None => None,
    }
}

fn read_flag(args: &[u8], key: &str) -> (r: Option<bool>)
    ensures
        r == truth_of(json_value_of(args@, key_pointer(key@))),
{
    let p = cat("/", key);
    read_truth(json_value(args, p.as_str()))
}

/// The whole number that a JSON text spells.
pub open spec fn whole_of(t: Option<Seq<char>>) -> Option<u64> {
    match t {
        Some(s) => if all_digits(s) && number_of(s) <= u64::MAX {
            Some(number_of(s) as u64)
        } else {
            None
        },
        None => None,
    }
}

pub fn read_whole(t: Option<String>) -> (r: Option<u64>)
    ensures
        r == whole_of(t.deep_view()),
{
    match t {
        Some(s) => if is_all_digits(s.as_str()) {
            parse_u64(s.as_str())
        } else {
            None
        },
        None => None,
    }
}

fn read_number(args: &[u8], key: &str) -> (r: Option<u64>)
    ensures
        r == whole_of(json_value_of(args@, key_pointer(key@))),
{
    let p = cat("/", key);
    read_whole(json_value(args, p.as_str()))
}

/// The texts among the items of a JSON list from the `i`th on; a list has no more items than its
/// text has bytes.
pub open spec fn list_texts(args: Seq<u8>, pointer: Seq<char>, i: nat) -> Seq<Seq<char>>
    decreases args.len() - i,
{
    let at = pointer + "/"@ + numeral(i);
    if i >= args.len() || json_value_of(args, at) is None {
        Seq::empty()
    } else {
        let rest = list_texts(args, pointer, i + 1);
        match json_string_of(args, at) {
            Some(s) => seq![s] + rest,
            None => rest,
        }
    }
}

/// A list of texts: the texts of a list, or a text by itself.
pub open spec fn texts_arg(args: Seq<u8>, key: Seq<char>) -> Seq<Seq<char>> {
    let p = key_pointer(key);
    match json_value_of(args, p) {
        Some(t) => if starts(t, "["@) {
            list_texts(args, p, 0)
        } else {
            match json_string_of(args, p) {
                Some(s) => seq![s],
                None => Seq::empty(),
            }
        },
        None => Seq::empty(),
    }
}

fn read_list(args: &[u8], pointer: &str) -> (r: Vec<String>)
    ensures
        r.deep_view() == list_texts(args@, pointer@, 0),
{
    let ghost all = list_texts(args@, pointer@, 0);
    let mut out: Vec<String> = Vec::new();
    let mut i: usize = 0;
    let n: usize = args.len();
    assert(all =~= out.deep_view() + list_texts(args@, pointer@, 0));
    while i < n
        invariant
            i <= n,
            n == args@.len(),
            all == list_texts(args@, pointer@, 0),
            all == out.deep_view() + list_texts(args@, pointer@, i as nat),
        decreases n - i,
    {
        let at = cat3(pointer, "/", decimal_usize(i).as_str());
        let ghost o0 = out.deep_view();
        let ghost rest = list_texts(args@, pointer@, (i + 1) as nat);
        if json_value(args, at.as_str()).is_none() {
            assert(all =~= o0);
            return out;
        }
        match json_string(args, at.as_str()) {
            Some(s) => {
                let ghost sv = s@;
                out.push(s);
                proof {
                    assert(out.deep_view() =~= o0.push(sv));
                    assert(o0 + (seq![sv] + rest) =~= o0.push(sv) + rest);
                }
            },
            None => {},
        }
        i += 1;
    }
    assert(all =~= out.deep_view());
    out
}

fn read_texts(args: &[u8], key: &str) -> (r: Vec<String>)
    ensures
        r.deep_view() == texts_arg(args@, key@),
{
    let p = cat("/", key);
    let mut out: Vec<String> = Vec::new();
    assert(out.deep_view() =~= Seq::<Seq<char>>::empty());
    match json_value(args, p.as_str()) {
        Some(t) => {
            if starts_with(t.as_str(), "[") {
                return read_list(args, p.as_str());
            }
            match json_string(args, p.as_str()) {
                Some(s) => {
                    let ghost sv = s@;
                    out.push(s);
                    assert(out.deep_view() =~= seq![sv]);
                },
                None => {},
            }
        },
        None => {},
    }
    out
}

/// The arguments that a JSON object holds.
pub open spec fn args_of(args: Seq<u8>) -> ToolArgsView {
    ToolArgsView {
        query: text_arg(args, "query"@),
        kind: text_arg(args, "kind"@),
        package: text_arg(args, "package"@),
        publisher: text_arg(args, "publisher"@),
        ext: text_arg(args, "ext"@),
        path_prefix: text_arg(args, "path_prefix"@),
        identifier: text_arg(args, "identifier"@),
        project_dir: text_arg(args, "project_dir"@),
        out_dir: text_arg(args, "out_dir"@),
        unitypackage_path: text_arg(args, "unitypackage_path"@),
        identifiers: texts_arg(args, "identifiers"@),
        limit: whole_of(json_value_of(args, key_pointer("limit"@))),
        max_depth: whole_of(json_value_of(args, key_pointer("max_depth"@))),
        max_bytes: whole_of(json_value_of(args, key_pointer("max_bytes"@))),
        include_scripts: truth_of(json_value_of(args, key_pointer("include_scripts"@))),
        include_deps: truth_of(json_value_of(args, key_pointer("include_deps"@))),
        force: truth_of(json_value_of(args, key_pointer("force"@))),
        dry_run: truth_of(json_value_of(args, key_pointer("dry_run"@))),
    }
}

/// Reads the arguments of a tool call out of a JSON object.
pub fn read_args(args: &[u8]) -> (r: ToolArgs)
    ensures
        r@ == args_of(args@),
{
    ToolArgs {
        query: read_text(args, "query"),
        kind: read_text(args, "kind"),
        package: read_text(args, "package"),
        publisher: read_text(args, "publisher"),
        ext: read_text(args, "ext"),
        path_prefix: read_text(args, "path_prefix"),
        identifier: read_text(args, "identifier"),
        project_dir: read_text(args, "project_dir"),
        out_dir: read_text(args, "out_dir"),
        unitypackage_path: read_text(args, "unitypackage_path"),
        identifiers: read_texts(args, "identifiers"),
        limit: read_number(args, "limit"),
        max_depth: read_number(args, "max_depth"),
        max_bytes: read_number(args, "max_bytes"),
        include_scripts: read_flag(args, "include_scripts"),
        include_deps: read_flag(args, "include_deps"),
        force: read_flag(args, "force"),
        dry_run: read_flag(args, "dry_run"),
    }
}

// ----- tool calls ----------------------------------------------------------------------------

/// A tool call that can be carried out.
#[allow(inconsistent_fields)]
pub enum ToolCall {
    ListPackages,
    Search(SearchQuery),
    ListAssets { package: String, prefix: Option<String>, kind: Option<String>, limit: usize },
    Info { ident: String, package: Option<String> },
    Deps { idents: Vec<String>, scripts: bool, max_depth: Option<u32> },
    Export { req: ExportRequest, dest: ExportDest, opts: ExportOptions },
    ReadText { ident: String, max_bytes: usize },
}

/// What a [`ToolCall`] holds.
#[verifier::ext_equal]
#[allow(inconsistent_fields)]
pub enum ToolCallView {
    ListPackages,
    Search(SearchQueryView),
    ListAssets { package: Seq<char>, prefix: Option<Seq<char>>, kind: Option<Seq<char>>, limit: usize },
    Info { ident: Seq<char>, package: Option<Seq<char>> },
    Deps { idents: Seq<Seq<char>>, scripts: bool, max_depth: Option<u32> },
    Export { req: ExportRequestView, dest: ExportDestView, opts: ExportOptions },
    ReadText { ident: Seq<char>, max_bytes: usize },
}

impl View for ToolCall {
    type V = ToolCallView;

    open spec fn view(&self) -> ToolCallView {
        match self {
            ToolCall::ListPackages => ToolCallView::ListPackages,
            ToolCall::Search(q) => ToolCallView::Search(q@),
            ToolCall::ListAssets { package, prefix, kind, limit } => ToolCallView::ListAssets {
                package: package@,
                prefix: prefix.deep_view(),
                kind: kind.deep_view(),
                limit: *limit,
            },
            ToolCall::Info { ident, package } => ToolCallView::Info { ident: ident@, package: package.deep_view() },
            ToolCall::Deps { idents, scripts, max_depth } => ToolCallView::Deps {
                idents: idents.deep_view(),
                scripts: *scripts,
                max_depth: *max_depth,
            },
            ToolCall::Export { req, dest, opts } => ToolCallView::Export { req: req@, dest: dest@, opts: *opts },
            ToolCall::ReadText { ident, max_bytes } => ToolCallView::ReadText { ident: ident@, max_bytes: *max_bytes },
        }
    }
}

impl DeepView for ToolCall {
    type V = ToolCallView;

    open spec fn deep_view(&self) -> ToolCallView {
        self.view()
    }
}

pub open spec fn or_flag(o: Option<bool>, default: bool) -> bool {
    match o {
        Some(b) => b,
        None => default,
    }
}

pub open spec fn or_number(o: Option<u64>, default: u64) -> usize {
    match o {
        Some(n) => n as usize,
        None => default as usize,
    }
}

/// A path with the user's home directory for a `~`, where there is one.
pub open spec fn expanded_arg(p: Option<Seq<char>>, user_home: Option<Seq<char>>) -> Option<Seq<char>> {
    match p {
        Some(s) => Some(tilde_expanded(s, user_home)),
        None => None,
    }
}

pub open spec fn required(name: Seq<char>) -> ErrorView {
    ErrorView::Other(name + " is required"@)
}

/// The export that some arguments ask for.
pub open spec fn export_call(a: ToolArgsView, user_home: Option<Seq<char>>) -> Result<ToolCallView, ErrorView> {
    if a.identifiers.len() == 0 {
        Err(required("identifiers"@))
    } else {
        match one_dest(
            expanded_arg(a.project_dir, user_home),
            expanded_arg(a.out_dir, user_home),
            expanded_arg(a.unitypackage_path, user_home),
        ) {
            None => Err(
                ErrorView::Other("pass exactly one of project_dir, out_dir, unitypackage_path"@),
            ),
            Some(dest) => Ok(
                ToolCallView::Export {
                    req: ExportRequestView {
                        identifiers: a.identifiers,
                        package: None,
                        include_deps: or_flag(a.include_deps, true),
                        include_scripts: or_flag(a.include_scripts, true),
                        include_folders: true,
                    },
                    dest,
                    opts: ExportOptions {
                        force: or_flag(a.force, false),
                        dry_run: or_flag(a.dry_run, false),
                        conflict_check: true,
                    },
                },
            ),
        }
    }
}

/// The call of a tool with some arguments.
pub open spec fn call_of(name: Seq<char>, a: ToolArgsView, user_home: Option<Seq<char>>) -> Result<
    ToolCallView,
    ErrorView,
> {
    if name == "list_packages"@ {
        Ok(ToolCallView::ListPackages)
    } else if name == "search_assets"@ {
        Ok(
            ToolCallView::Search(
                SearchQueryView {
                    query: match a.query {
                        Some(q) => q,
                        None => Seq::empty(),
                    },
                    kind: a.kind,
                    package: a.package,
                    publisher: a.publisher,
                    ext: a.ext,
                    include_folders: false,
                    limit: or_number(a.limit, 30),
                    offset: 0,
                },
            ),
        )
    } else if name == "list_package_assets"@ {
        match a.package {
            None => Err(required("package"@)),
            Some(p) => Ok(
                ToolCallView::ListAssets {
                    package: p,
                    prefix: a.path_prefix,
                    kind: a.kind,
                    limit: or_number(a.limit, 500),
                },
            ),
        }
    } else if name == "asset_info"@ {
        match a.identifier {
            None => Err(required("identifier"@)),
            Some(ident) => Ok(ToolCallView::Info { ident, package: a.package }),
        }
    } else if name == "dependencies"@ {
        if a.identifiers.len() == 0 {
            Err(required("identifiers"@))
        } else {
            Ok(
                ToolCallView::Deps {
                    idents: a.identifiers,
                    scripts: or_flag(a.include_scripts, true),
                    max_depth: match a.max_depth {
                        Some(d) => Some(d as u32),
                        None => None,
                    },
                },
            )
        }
    } else if name == "export_assets"@ {
        export_call(a, user_home)
    } else if name == "read_text_asset"@ {
        match a.identifier {
            None => Err(required("identifier"@)),
            Some(ident) => Ok(ToolCallView::ReadText { ident, max_bytes: or_number(a.max_bytes, 200_000) }),
        }
    } else {
        Err(ErrorView::Other("unknown tool "@ + quoted_of(name)))
    }
}

fn missing_arg(name: &str) -> (r: Error)
    ensures
        r@ == required(name@),
{
    Error::Other(cat(name, " is required"))
}

fn flag_or(o: Option<bool>, default: bool) -> (r: bool)
    ensures
        r == or_flag(o, default),
{
    match o {
        Some(b) => b,
        None => default,
    }
}

fn number_or(o: Option<u64>, default: u64) -> (r: usize)
    ensures
        r == or_number(o, default),
{
    match o {
        Some(n) => n as usize,
        None => default as usize,
    }
}

fn expand_arg(p: Option<String>, user_home: Option<&str>) -> (r: Option<String>)
    ensures
        r.deep_view() == expanded_arg(p.deep_view(), text_view(user_home)),
{
    match p {
        Some(s) => Some(expand_tilde(s.as_str(), user_home)),
        None => None,
    }
}

fn plan_export(a: ToolArgs, user_home: Option<&str>) -> (r: Result<ToolCall, Error>)
    ensures
        outcome(r) == export_call(a@, text_view(user_home)),
{
    if a.identifiers.len() == 0 {
        return Err(missing_arg("identifiers"));
    }
    match choose_dest(
        expand_arg(a.project_dir, user_home),
        expand_arg(a.out_dir, user_home),
        expand_arg(a.unitypackage_path, user_home),
    ) {
        None => Err(
            Error::Other("pass exactly one of project_dir, out_dir, unitypackage_path".to_string()),
        ),
        Some(dest) => {
            let req = ExportRequest {
                identifiers: a.identifiers,
                package: None,
                include_deps: flag_or(a.include_deps, true),
                include_scripts: flag_or(a.include_scripts, true),
                include_folders: true,
            };
            let opts = ExportOptions {
                force: flag_or(a.force, false),
                dry_run: flag_or(a.dry_run, false),
                conflict_check: true,
            };
            Ok(ToolCall::Export { req, dest, opts })
        },
    }
}

/// The call of a tool with some arguments, or why it cannot be carried out.
pub fn plan_tool(name: &str, a: ToolArgs, user_home: Option<&str>) -> (r: Result<ToolCall, Error>)
    ensures
        outcome(r) == call_of(name@, a@, text_view(user_home)),
{
    if same_text(name, "list_packages") {
        Ok(ToolCall::ListPackages)
    } else if same_text(name, "search_assets") {
        let query = match a.query {
            Some(q) => q,
            None => {
                let e = String::new();
                assert(e@ =~= Seq::<char>::empty());
                e
            },
        };
        let limit: usize = number_or(a.limit, 30);
        Ok(
            ToolCall::Search(
                SearchQuery {
                    query,
                    kind: a.kind,
                    package: a.package,
                    publisher: a.publisher,
                    ext: a.ext,
                    include_folders: false,
                    limit,
                    offset: 0,
                },
            ),
        )
    } else if same_text(name, "list_package_assets") {
        let limit: usize = number_or(a.limit, 500);
        match a.package {
            None => Err(missing_arg("package")),
            Some(package) => Ok(ToolCall::ListAssets { package, prefix: a.path_prefix, kind: a.kind, limit }),
        }
    } else if same_text(name, "asset_info") {
        match a.identifier {
            None => Err(missing_arg("identifier")),
            Some(ident) => Ok(ToolCall::Info { ident, package: a.package }),
        }
    } else if same_text(name, "dependencies") {
        if a.identifiers.len() == 0 {
            Err(missing_arg("identifiers"))
        } else {
            let max_depth: Option<u32> = match a.max_depth {
                Some(d) => Some(d as u32),
                None => None,
            };
            let scripts = flag_or(a.include_scripts, true);
            Ok(ToolCall::Deps { idents: a.identifiers, scripts, max_depth })
        }
    } else if same_text(name, "export_assets") {
        plan_export(a, user_home)
    } else if same_text(name, "read_text_asset") {
        let max_bytes: usize = number_or(a.max_bytes, 200_000);
        match a.identifier {
            None => Err(missing_arg("identifier")),
            Some(ident) => Ok(ToolCall::ReadText { ident, max_bytes }),
        }
    } else {
        let q = quoted(name);
        Err(Error::Other(cat("unknown tool ", q.as_str())))
    }
}

/// The call of a tool with the arguments that a JSON object holds.
pub fn call_tool(name: &str, args: &[u8], user_home: Option<&str>) -> (r: Result<ToolCall, Error>)
    ensures
        outcome(r) == call_of(name@, args_of(args@), text_view(user_home)),
{
    plan_tool(name, read_args(args), user_home)
}

/// What is said of a call that failed.
pub open spec fn failure_of(e: ErrorView) -> Seq<char> {
    "error: "@ + described(e)
}

pub fn failure_text(e: &Error) -> (r: String)
    ensures
        r@ == failure_of(e@),
{
    cat("error: ", describe(e).as_str())
}

/// What the server says of itself.
pub const INSTRUCTIONS: &'static str = "Search a library of Unity .unitypackage files by asset name, inspect an asset's dependency closure (prefab -> mesh/material/texture/shader/script, across packages), and export exactly those files into a Unity project's Assets/ folder with their .meta files so guids stay intact. Typical flow: search_assets -> dependencies (optional) -> export_assets(project_dir=...). Identifiers accept a guid, 'Package::Assets/path', an Assets/ path, a path suffix or a bare file name.";

/// `list_packages`, as the list of tools describes it.
pub const TOOL_LIST_PACKAGES: &'static str = "{\"name\":\"list_packages\",\"description\":\"List every indexed .unitypackage (id, name, publisher, category, version, asset count, sizes).\",\"inputSchema\":{\"type\":\"object\",\"properties\":{},\"additionalProperties\":false}}";

/// `search_assets`, as the list of tools describes it.
pub const TOOL_SEARCH_ASSETS: &'static str = "{\"name\":\"search_assets\",\"description\":\"Full-text search over asset paths in all packages. Words are prefix-matched and camelCase/underscores are split ('sm env lily' finds SM_Env_Lily_01). Returns guid, path, kind, size (bytes), package, has_preview, is_text.\",\"inputSchema\":{\"type\":\"object\",\"required\":[\"query\"],\"properties\":{\"query\":{\"type\":\"string\"},\"kind\":{\"type\":\"string\",\"description\":\"comma list of: prefab, material, shader, texture, model, audio, animation, scene, script, asset, font, ui, vfx\"},\"package\":{\"type\":\"string\",\"description\":\"substring filter on package name\"},\"publisher\":{\"type\":\"string\",\"description\":\"substring filter on publisher\"},\"ext\":{\"type\":\"string\",\"description\":\"file extension, e.g. fbx\"},\"limit\":{\"type\":\"integer\",\"default\":30}}}}";

/// `list_package_assets`, as the list of tools describes it.
pub const TOOL_LIST_PACKAGE_ASSETS: &'static str = "{\"name\":\"list_package_assets\",\"description\":\"List assets inside one package (by id or partial name), optionally under an Assets/... prefix or of one kind.\",\"inputSchema\":{\"type\":\"object\",\"required\":[\"package\"],\"properties\":{\"package\":{\"type\":\"string\"},\"path_prefix\":{\"type\":\"string\"},\"kind\":{\"type\":\"string\"},\"limit\":{\"type\":\"integer\",\"default\":500}}}}";

/// `asset_info`, as the list of tools describes it.
pub const TOOL_ASSET_INFO: &'static str = "{\"name\":\"asset_info\",\"description\":\"Details for one asset: metadata, direct dependencies (resolved), and assets that use it.\",\"inputSchema\":{\"type\":\"object\",\"required\":[\"identifier\"],\"properties\":{\"identifier\":{\"type\":\"string\",\"description\":\"guid | Package::Assets/path | Assets/path | path suffix | file name\"},\"package\":{\"type\":\"string\"}}}}";

/// `dependencies`, as the list of tools describes it.
pub const TOOL_DEPENDENCIES: &'static str = "{\"name\":\"dependencies\",\"description\":\"Transitive dependency closure for one or more assets, across packages: every asset that would be needed (with depth and the referrer that pulled it in), unresolved guids (Unity built-ins, UPM packages, or packages not in the library), and total bytes.\",\"inputSchema\":{\"type\":\"object\",\"required\":[\"identifiers\"],\"properties\":{\"identifiers\":{\"type\":\"array\",\"items\":{\"type\":\"string\"},\"description\":\"guid | Package::Assets/path | Assets/path | path suffix | file name\"},\"include_scripts\":{\"type\":\"boolean\",\"default\":true},\"max_depth\":{\"type\":\"integer\"}}}}";

/// `export_assets`, as the list of tools describes it.
pub const TOOL_EXPORT_ASSETS: &'static str = "{\"name\":\"export_assets\",\"description\":\"Extract assets (+ transitive dependencies) with their .meta files. Exactly one destination: project_dir (a Unity project; files land under its Assets/ at their original paths and guid conflicts with existing project assets are detected), out_dir (plain folder), or unitypackage_path (a slim .unitypackage). Existing files are skipped unless force=true. Use dry_run=true to preview.\",\"inputSchema\":{\"type\":\"object\",\"required\":[\"identifiers\"],\"properties\":{\"identifiers\":{\"type\":\"array\",\"items\":{\"type\":\"string\"},\"description\":\"guid | Package::Assets/path | Assets/path | path suffix | file name\"},\"project_dir\":{\"type\":\"string\"},\"out_dir\":{\"type\":\"string\"},\"unitypackage_path\":{\"type\":\"string\"},\"include_deps\":{\"type\":\"boolean\",\"default\":true},\"include_scripts\":{\"type\":\"boolean\",\"default\":true},\"force\":{\"type\":\"boolean\",\"default\":false},\"dry_run\":{\"type\":\"boolean\",\"default\":false}}}}";

/// `read_text_asset`, as the list of tools describes it.
pub const TOOL_READ_TEXT_ASSET: &'static str = "{\"name\":\"read_text_asset\",\"description\":\"Return the text of a YAML/script/shader asset (prefab structure, material properties, C# source...).\",\"inputSchema\":{\"type\":\"object\",\"required\":[\"identifier\"],\"properties\":{\"identifier\":{\"type\":\"string\",\"description\":\"guid | Package::Assets/path | Assets/path | path suffix | file name\"},\"max_bytes\":{\"type\":\"integer\",\"default\":200000}}}}";

/// The tools that there are, described in JSON.
pub open spec fn tools_json() -> Seq<char> {
    list_text(
        seq![
            TOOL_LIST_PACKAGES@,
            TOOL_SEARCH_ASSETS@,
            TOOL_LIST_PACKAGE_ASSETS@,
            TOOL_ASSET_INFO@,
            TOOL_DEPENDENCIES@,
            TOOL_EXPORT_ASSETS@,
            TOOL_READ_TEXT_ASSET@,
        ],
    )
}

fn push_item(out: &mut Vec<String>, item: &str)
    ensures
        final(out).deep_view() == old(out).deep_view().push(item@),
{
    let ghost o0 = out.deep_view();
    out.push(item.to_string());
    assert(out.deep_view() =~= o0.push(item@));
}

/// The list of tools.
pub fn tools() -> (r: String)
    ensures
        r@ == tools_json(),
{
    let mut v = no_fields();
    push_item(&mut v, TOOL_LIST_PACKAGES);
    push_item(&mut v, TOOL_SEARCH_ASSETS);
    push_item(&mut v, TOOL_LIST_PACKAGE_ASSETS);
    push_item(&mut v, TOOL_ASSET_INFO);
    push_item(&mut v, TOOL_DEPENDENCIES);
    push_item(&mut v, TOOL_EXPORT_ASSETS);
    push_item(&mut v, TOOL_READ_TEXT_ASSET);
    assert(v.deep_view() =~= seq![
        TOOL_LIST_PACKAGES@,
        TOOL_SEARCH_ASSETS@,
        TOOL_LIST_PACKAGE_ASSETS@,
        TOOL_ASSET_INFO@,
        TOOL_DEPENDENCIES@,
        TOOL_EXPORT_ASSETS@,
        TOOL_READ_TEXT_ASSET@,
    ]);
    make_list(&v)
}

/// The names of the tools.
pub open spec fn is_tool(name: Seq<char>) -> bool {
    name == "list_packages"@
        || name == "search_assets"@
        || name == "list_package_assets"@
        || name == "asset_info"@
        || name == "dependencies"@
        || name == "export_assets"@
        || name == "read_text_asset"@
}

/// With everything that a tool may require, a call can be carried out exactly where there is such a
/// tool.
pub proof fn tools_ask_for_no_more(name: Seq<char>, a: ToolArgsView, user_home: Option<Seq<char>>)
    requires
        a.package is Some,
        a.identifier is Some,
        a.identifiers.len() > 0,
        one_dest(
            expanded_arg(a.project_dir, user_home),
            expanded_arg(a.out_dir, user_home),
            expanded_arg(a.unitypackage_path, user_home),
        ) is Some,
    ensures
        call_of(name, a, user_home) is Ok <==> is_tool(name),
{
}

// ----- what the tools give back --------------------------------------------------------------

pub open spec fn field_text(key: Seq<char>, value: Seq<char>) -> Seq<char> {
    "\""@ + key + "\":"@ + value
}

/// A JSON object of fields that are spelled out.
pub open spec fn object_text(fields: Seq<Seq<char>>) -> Seq<char> {
    "{"@ + glue(fields, ","@) + "}"@
}

/// A JSON list of items that are spelled out.
pub open spec fn list_text(items: Seq<Seq<char>>) -> Seq<char> {
    "["@ + glue(items, ","@) + "]"@
}

pub open spec fn option_text(o: Option<Seq<char>>) -> Seq<char> {
    match o {
        Some(s) => json_text_of(s),
        None => "null"@,
    }
}

pub open spec fn bool_text(b: bool) -> Seq<char> {
    if b {
        "true"@
    } else {
        "false"@
    }
}

pub(crate) fn push_field(out: &mut Vec<String>, key: &str, value: &str)
    ensures
        final(out).deep_view() == old(out).deep_view().push(field_text(key@, value@)),
{
    let ghost o0 = out.deep_view();
    let mut s = cat3("\"", key, "\":");
    s.append(value);
    let ghost sv = s@;
    out.push(s);
    assert(out.deep_view() =~= o0.push(sv));
}

pub(crate) fn push_text(out: &mut Vec<String>, key: &str, value: &str)
    ensures
        final(out).deep_view() == old(out).deep_view().push(field_text(key@, json_text_of(value@))),
{
    let t = json_text(value);
    push_field(out, key, t.as_str());
}

pub(crate) fn push_option(out: &mut Vec<String>, key: &str, value: &Option<String>)
    ensures
        final(out).deep_view() == old(out).deep_view().push(field_text(key@, option_text(value.deep_view()))),
{
    match value {
        Some(s) => push_text(out, key, s.as_str()),
        None => push_field(out, key, "null"),
    }
}

pub(crate) fn push_int(out: &mut Vec<String>, key: &str, value: i64)
    ensures
        final(out).deep_view() == old(out).deep_view().push(field_text(key@, signed_numeral(value as int))),
{
    push_field(out, key, decimal_i64(value).as_str());
}

pub(crate) fn push_bool(out: &mut Vec<String>, key: &str, value: bool)
    ensures
        final(out).deep_view() == old(out).deep_view().push(field_text(key@, bool_text(value))),
{
    if value {
        push_field(out, key, "true");
    } else {
        push_field(out, key, "false");
    }
}

pub(crate) fn no_fields() -> (r: Vec<String>)
    ensures
        r.deep_view() == Seq::<Seq<char>>::empty(),
{
    let r: Vec<String> = Vec::new();
    assert(r.deep_view() =~= Seq::<Seq<char>>::empty());
    r
}

pub(crate) fn make_object(fields: &Vec<String>) -> (r: String)
    ensures
        r@ == object_text(fields.deep_view()),
{
    cat3("{", join(fields, ",").as_str(), "}")
}

pub(crate) fn make_list(items: &Vec<String>) -> (r: String)
    ensures
        r@ == list_text(items.deep_view()),
{
    cat3("[", join(items, ",").as_str(), "]")
}

/// An asset, as a search gives it.
#[verifier::opaque]
pub open spec fn slim_asset_json(a: AssetView) -> Seq<char> {
    object_text(
        seq![
            field_text("guid"@, json_text_of(a.guid)),
            field_text("path"@, json_text_of(a.path)),
            field_text("name"@, json_text_of(a.name)),
            field_text("kind"@, json_text_of(a.kind)),
            field_text("ext"@, json_text_of(a.ext)),
            field_text("main_class"@, option_text(a.main_class)),
            field_text("size"@, signed_numeral(a.size as int)),
            field_text("package"@, json_text_of(a.package)),
            field_text("package_id"@, signed_numeral(a.package_id as int)),
            field_text("publisher"@, json_text_of(a.publisher)),
            field_text("has_preview"@, bool_text(a.has_preview)),
            field_text("is_text"@, bool_text(a.is_text)),
        ],
    )
}

fn slim_asset(a: &Asset) -> (r: String)
    ensures
        r@ == slim_asset_json(a@),
{
    proof {
        reveal(slim_asset_json);
    }
    let mut f = no_fields();
    push_text(&mut f, "guid", a.guid.as_str());
    push_text(&mut f, "path", a.path.as_str());
    push_text(&mut f, "name", a.name.as_str());
    push_text(&mut f, "kind", a.kind.as_str());
    push_text(&mut f, "ext", a.ext.as_str());
    push_option(&mut f, "main_class", &a.main_class);
    push_int(&mut f, "size", a.size);
    push_text(&mut f, "package", a.package.as_str());
    push_int(&mut f, "package_id", a.package_id);
    push_text(&mut f, "publisher", a.publisher.as_str());
    push_bool(&mut f, "has_preview", a.has_preview);
    push_bool(&mut f, "is_text", a.is_text);
    assert(f.deep_view() =~= seq![
        field_text("guid"@, json_text_of(a@.guid)),
        field_text("path"@, json_text_of(a@.path)),
        field_text("name"@, json_text_of(a@.name)),
        field_text("kind"@, json_text_of(a@.kind)),
        field_text("ext"@, json_text_of(a@.ext)),
        field_text("main_class"@, option_text(a@.main_class)),
        field_text("size"@, signed_numeral(a@.size as int)),
        field_text("package"@, json_text_of(a@.package)),
        field_text("package_id"@, signed_numeral(a@.package_id as int)),
        field_text("publisher"@, json_text_of(a@.publisher)),
        field_text("has_preview"@, bool_text(a@.has_preview)),
        field_text("is_text"@, bool_text(a@.is_text)),
    ]);
    make_object(&f)
}

/// A package, as the list of packages gives it.
#[verifier::opaque]
pub open spec fn package_summary_json(p: PackageView) -> Seq<char> {
    object_text(
        seq![
            field_text("id"@, signed_numeral(p.id as int)),
            field_text("name"@, json_text_of(p.name)),
            field_text("title"@, option_text(p.title)),
            field_text("publisher"@, json_text_of(p.publisher)),
            field_text("category_label"@, json_text_of(shown_category(p))),
            field_text("version"@, option_text(p.version)),
            field_text("unity_version"@, option_text(p.unity_version)),
            field_text("pubdate"@, option_text(p.pubdate)),
            field_text("entry_count"@, signed_numeral(p.entry_count as int)),
            field_text("total_bytes"@, signed_numeral(p.total_bytes as int)),
            field_text("size"@, signed_numeral(p.size as int)),
            field_text("status"@, json_text_of(p.status)),
            field_text("description"@, option_text(p.description)),
        ],
    )
}

fn package_summary(p: &Package) -> (r: String)
    ensures
        r@ == package_summary_json(p@),
{
    proof {
        reveal(package_summary_json);
    }
    let mut f = no_fields();
    push_int(&mut f, "id", p.id);
    push_text(&mut f, "name", p.name.as_str());
    push_option(&mut f, "title", &p.title);
    push_text(&mut f, "publisher", p.publisher.as_str());
    push_text(&mut f, "category_label", p.display_category());
    push_option(&mut f, "version", &p.version);
    push_option(&mut f, "unity_version", &p.unity_version);
    push_option(&mut f, "pubdate", &p.pubdate);
    push_int(&mut f, "entry_count", p.entry_count);
    push_int(&mut f, "total_bytes", p.total_bytes);
    push_int(&mut f, "size", p.size);
    push_text(&mut f, "status", p.status.as_str());
    push_option(&mut f, "description", &p.description);
    assert(f.deep_view() =~= seq![
        field_text("id"@, signed_numeral(p@.id as int)),
        field_text("name"@, json_text_of(p@.name)),
        field_text("title"@, option_text(p@.title)),
        field_text("publisher"@, json_text_of(p@.publisher)),
        field_text("category_label"@, json_text_of(shown_category(p@))),
        field_text("version"@, option_text(p@.version)),
        field_text("unity_version"@, option_text(p@.unity_version)),
        field_text("pubdate"@, option_text(p@.pubdate)),
        field_text("entry_count"@, signed_numeral(p@.entry_count as int)),
        field_text("total_bytes"@, signed_numeral(p@.total_bytes as int)),
        field_text("size"@, signed_numeral(p@.size as int)),
        field_text("status"@, json_text_of(p@.status)),
        field_text("description"@, option_text(p@.description)),
    ]);
    make_object(&f)
}

/// A package, as a listing gives it.
#[verifier::opaque]
pub open spec fn package_head_json(p: PackageView) -> Seq<char> {
    object_text(
        seq![
            field_text("id"@, signed_numeral(p.id as int)),
            field_text("name"@, json_text_of(p.name)),
            field_text("publisher"@, json_text_of(p.publisher)),
            field_text("entry_count"@, signed_numeral(p.entry_count as int)),
        ],
    )
}

fn package_head(p: &Package) -> (r: String)
    ensures
        r@ == package_head_json(p@),
{
    proof {
        reveal(package_head_json);
    }
    let mut f = no_fields();
    push_int(&mut f, "id", p.id);
    push_text(&mut f, "name", p.name.as_str());
    push_text(&mut f, "publisher", p.publisher.as_str());
    push_int(&mut f, "entry_count", p.entry_count);
    assert(f.deep_view() =~= seq![
        field_text("id"@, signed_numeral(p@.id as int)),
        field_text("name"@, json_text_of(p@.name)),
        field_text("publisher"@, json_text_of(p@.publisher)),
        field_text("entry_count"@, signed_numeral(p@.entry_count as int)),
    ]);
    make_object(&f)
}

/// An asset, as a listing gives it.
#[verifier::opaque]
pub open spec fn listed_asset_json(a: AssetView) -> Seq<char> {
    object_text(
        seq![
            field_text("guid"@, json_text_of(a.guid)),
            field_text("path"@, json_text_of(a.path)),
            field_text("kind"@, json_text_of(a.kind)),
            field_text("size"@, signed_numeral(a.size as int)),
        ],
    )
}

fn listed_asset(a: &Asset) -> (r: String)
    ensures
        r@ == listed_asset_json(a@),
{
    proof {
        reveal(listed_asset_json);
    }
    let mut f = no_fields();
    push_text(&mut f, "guid", a.guid.as_str());
    push_text(&mut f, "path", a.path.as_str());
    push_text(&mut f, "kind", a.kind.as_str());
    push_int(&mut f, "size", a.size);
    assert(f.deep_view() =~= seq![
        field_text("guid"@, json_text_of(a@.guid)),
        field_text("path"@, json_text_of(a@.path)),
        field_text("kind"@, json_text_of(a@.kind)),
        field_text("size"@, signed_numeral(a@.size as int)),
    ]);
    make_object(&f)
}

/// The number of assets of a kind.
#[verifier::opaque]
pub open spec fn kind_count_json(k: KindCountView) -> Seq<char> {
    object_text(
        seq![
            field_text("kind"@, json_text_of(k.kind)),
            field_text("n"@, signed_numeral(k.n as int)),
            field_text("bytes"@, signed_numeral(k.bytes as int)),
        ],
    )
}

fn kind_count(k: &KindCount) -> (r: String)
    ensures
        r@ == kind_count_json(k@),
{
    proof {
        reveal(kind_count_json);
    }
    let mut f = no_fields();
    push_text(&mut f, "kind", k.kind.as_str());
    push_int(&mut f, "n", k.n);
    push_int(&mut f, "bytes", k.bytes);
    assert(f.deep_view() =~= seq![
        field_text("kind"@, json_text_of(k@.kind)),
        field_text("n"@, signed_numeral(k@.n as int)),
        field_text("bytes"@, signed_numeral(k@.bytes as int)),
    ]);
    make_object(&f)
}

/// An asset that uses another.
#[verifier::opaque]
pub open spec fn user_asset_json(a: AssetView) -> Seq<char> {
    object_text(
        seq![
            field_text("guid"@, json_text_of(a.guid)),
            field_text("path"@, json_text_of(a.path)),
            field_text("kind"@, json_text_of(a.kind)),
            field_text("package"@, json_text_of(a.package)),
        ],
    )
}

fn user_asset(a: &Asset) -> (r: String)
    ensures
        r@ == user_asset_json(a@),
{
    proof {
        reveal(user_asset_json);
    }
    let mut f = no_fields();
    push_text(&mut f, "guid", a.guid.as_str());
    push_text(&mut f, "path", a.path.as_str());
    push_text(&mut f, "kind", a.kind.as_str());
    push_text(&mut f, "package", a.package.as_str());
    assert(f.deep_view() =~= seq![
        field_text("guid"@, json_text_of(a@.guid)),
        field_text("path"@, json_text_of(a@.path)),
        field_text("kind"@, json_text_of(a@.kind)),
        field_text("package"@, json_text_of(a@.package)),
    ]);
    make_object(&f)
}

/// A direct dependency: the asset it means, or that it is unresolved.
#[verifier::opaque]
pub open spec fn ref_json(r: RefInfoView) -> Seq<char> {
    match r.asset {
        Some(c) => object_text(
            seq![
                field_text("guid"@, json_text_of(r.guid)),
                field_text("path"@, json_text_of(c.path)),
                field_text("kind"@, json_text_of(c.kind)),
                field_text("package"@, json_text_of(c.package)),
            ],
        ),
        None => object_text(
            seq![
                field_text("guid"@, json_text_of(r.guid)),
                field_text("unresolved"@, "true"@),
                field_text("label"@, option_text(r.label)),
            ],
        ),
    }
}

fn ref_text(r: &RefInfo) -> (t: String)
    ensures
        t@ == ref_json(r@),
{
    proof {
        reveal(ref_json);
    }
    let mut f = no_fields();
    push_text(&mut f, "guid", r.guid.as_str());
    match &r.asset {
        Some(c) => {
            push_text(&mut f, "path", c.path.as_str());
            push_text(&mut f, "kind", c.kind.as_str());
            push_text(&mut f, "package", c.package.as_str());
            assert(f.deep_view() =~= seq![
                field_text("guid"@, json_text_of(r@.guid)),
                field_text("path"@, json_text_of(c@.path)),
                field_text("kind"@, json_text_of(c@.kind)),
                field_text("package"@, json_text_of(c@.package)),
            ]);
        },
        None => {
            push_field(&mut f, "unresolved", "true");
            push_option(&mut f, "label", &r.label);
            assert(f.deep_view() =~= seq![
                field_text("guid"@, json_text_of(r@.guid)),
                field_text("unresolved"@, "true"@),
                field_text("label"@, option_text(r@.label)),
            ]);
        },
    }
    make_object(&f)
}

/// The packages that `list_packages` gives.
pub open spec fn packages_text_json(s: Seq<PackageView>) -> Seq<char> {
    list_text(s.map_values(|x: PackageView| package_summary_json(x)))
}

pub fn packages_text(v: &Vec<Package>) -> (r: String)
    ensures
        r@ == packages_text_json(v.deep_view()),
{
    make_list(&map_all(v, package_summary, Ghost(|x: PackageView| package_summary_json(x))))
}

/// The assets that `search_assets` gives.
pub open spec fn assets_text_json(s: Seq<AssetView>) -> Seq<char> {
    list_text(s.map_values(|x: AssetView| slim_asset_json(x)))
}

pub fn assets_text(v: &Vec<Asset>) -> (r: String)
    ensures
        r@ == assets_text_json(v.deep_view()),
{
    make_list(&map_all(v, slim_asset, Ghost(|x: AssetView| slim_asset_json(x))))
}

/// The direct dependencies that `asset_info` gives.
pub open spec fn refs_text_json(s: Seq<RefInfoView>) -> Seq<char> {
    list_text(s.map_values(|x: RefInfoView| ref_json(x)))
}

pub fn refs_text(v: &Vec<RefInfo>) -> (r: String)
    ensures
        r@ == refs_text_json(v.deep_view()),
{
    make_list(&map_all(v, ref_text, Ghost(|x: RefInfoView| ref_json(x))))
}

/// The kinds that `list_package_assets` gives.
pub open spec fn kinds_text_json(s: Seq<KindCountView>) -> Seq<char> {
    list_text(s.map_values(|x: KindCountView| kind_count_json(x)))
}

pub fn kinds_text(v: &Vec<KindCount>) -> (r: String)
    ensures
        r@ == kinds_text_json(v.deep_view()),
{
    make_list(&map_all(v, kind_count, Ghost(|x: KindCountView| kind_count_json(x))))
}

/// The assets that `list_package_assets` gives.
pub open spec fn listed_text_json(s: Seq<AssetView>) -> Seq<char> {
    list_text(s.map_values(|x: AssetView| listed_asset_json(x)))
}

pub fn listed_text(v: &Vec<Asset>) -> (r: String)
    ensures
        r@ == listed_text_json(v.deep_view()),
{
    make_list(&map_all(v, listed_asset, Ghost(|x: AssetView| listed_asset_json(x))))
}

/// Assets that use another.
pub open spec fn all_users_text_json(s: Seq<AssetView>) -> Seq<char> {
    list_text(s.map_values(|x: AssetView| user_asset_json(x)))
}

pub fn all_users_text(v: &Vec<Asset>) -> (r: String)
    ensures
        r@ == all_users_text_json(v.deep_view()),
{
    make_list(&map_all(v, user_asset, Ghost(|x: AssetView| user_asset_json(x))))
}

/// The users that `asset_info` gives: the first 100.
pub open spec fn users_text_json(s: Seq<AssetView>) -> Seq<char> {
    all_users_text_json(limited(s, Some(100)))
}

pub fn users_text(v: &Vec<Asset>) -> (r: String)
    ensures
        r@ == users_text_json(v.deep_view()),
{
    all_users_text(&take_limited(clone_assets(v), Some(100)))
}

/// The assets that are no folders.
pub open spec fn files_only(s: Seq<AssetView>) -> Seq<AssetView> {
    s.filter(|a: AssetView| !a.is_folder)
}

fn keep_files(v: &Vec<Asset>) -> (r: Vec<Asset>)
    ensures
        r.deep_view() == files_only(v.deep_view()),
{
    let ghost s = v.deep_view();
    let ghost p = |a: AssetView| !a.is_folder;
    let mut out: Vec<Asset> = Vec::new();
    let mut i: usize = 0;
    proof {
        lemma_filter_none(s, p);
        assert(out.deep_view() =~= s.take(0).filter(p));
    }
    while i < v.len()
        invariant
            i <= v@.len(),
            s == v.deep_view(),
            p == (|a: AssetView| !a.is_folder),
            out.deep_view() == s.take(i as int).filter(p),
        decreases v@.len() - i,
    {
        proof {
            lemma_filter_step(s, p, i as int);
            assert(s[i as int] == v@[i as int]@);
        }
        if !v[i].is_folder {
            let ghost o0 = out.deep_view();
            out.push(v[i].clone());
            assert(out.deep_view() =~= o0.push(v@[i as int]@));
        }
        i += 1;
    }
    assert(s.take(s.len() as int) =~= s);
    out
}

/// What `list_package_assets` gives: the package, its kinds, and its assets without the folders.
pub open spec fn listing_json(l: PackageListingView) -> Seq<char> {
    object_text(
        seq![
            field_text("package"@, package_head_json(l.package)),
            field_text("kinds"@, kinds_text_json(l.kinds)),
            field_text("assets"@, listed_text_json(files_only(l.assets))),
        ],
    )
}

pub fn listing_text(l: &PackageListing) -> (r: String)
    ensures
        r@ == listing_json(l@),
{
    let mut f = no_fields();
    push_field(&mut f, "package", package_head(&l.package).as_str());
    push_field(&mut f, "kinds", kinds_text(&l.kinds).as_str());
    push_field(&mut f, "assets", listed_text(&keep_files(&l.assets)).as_str());
    assert(f.deep_view() =~= seq![
        field_text("package"@, package_head_json(l@.package)),
        field_text("kinds"@, kinds_text_json(l@.kinds)),
        field_text("assets"@, listed_text_json(files_only(l@.assets))),
    ]);
    make_object(&f)
}

} // verus!
