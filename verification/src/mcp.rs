//! Requests of coding agents: what a message asks for.

use crate::list::Plain;
use crate::source;
use crate::text;
use crate::text::Text;
use crate::tree;
use crate::tree::{Tree, TreeView};
use crate::words;
use crate::words::ticked;
use vstd::prelude::*;

verus! {

/// How a transition is shown.
#[derive(Debug, Clone, Copy, PartialEq, Eq, Structural)]
pub enum Presentation {
    /// As contracts before and after, with the code behind each change.
    Contracts,
    /// In plain sentences.
    Plain,
    /// Operation by operation.
    Ops,
}

/// A request for the transition of a change.
#[derive(Debug, PartialEq)]
pub struct TransitionArgs {
    /// Repository directory; the project directory where there is none.
    pub repo: Option<String>,
    /// Subdirectory to analyze.
    pub root: String,
    pub base: String,
    /// Head revision; empty for the working tree.
    pub head: String,
    pub view: Presentation,
    pub json: bool,
}

/// The view of [`TransitionArgs`].
#[verifier::ext_equal]
pub struct TransitionArgsView {
    pub repo: Option<Seq<char>>,
    pub root: Seq<char>,
    pub base: Seq<char>,
    pub head: Seq<char>,
    pub view: Presentation,
    pub json: bool,
}

impl DeepView for TransitionArgs {
    type V = TransitionArgsView;

    open spec fn deep_view(&self) -> TransitionArgsView {
        TransitionArgsView { repo: self.repo.deep_view(), root: self.root@, base: self.base@, head: self.head@, view: self.view, json: self.json }
    }
}

/// A request for what one function or method does.
#[derive(Debug, PartialEq)]
pub struct ContextArgs {
    pub repo: Option<String>,
    pub root: String,
    pub entity: String,
}

/// The view of [`ContextArgs`].
#[verifier::ext_equal]
pub struct ContextArgsView {
    pub repo: Option<Seq<char>>,
    pub root: Seq<char>,
    pub entity: Seq<char>,
}

impl DeepView for ContextArgs {
    type V = ContextArgsView;

    open spec fn deep_view(&self) -> ContextArgsView {
        ContextArgsView { repo: self.repo.deep_view(), root: self.root@, entity: self.entity@ }
    }
}

/// What a message asks for.
#[derive(Debug, PartialEq)]
pub enum Request {
    /// To begin, with the version of the protocol.
    Initialize(String),
    Ping,
    ListTools,
    Transition(TransitionArgs),
    Context(ContextArgs),
    /// A tool is called in a way that fails, with the reason.
    Failing(String),
    /// There is no such method, with the reason.
    NotFound(String),
}

/// The view of [`Request`].
#[verifier::ext_equal]
pub enum RequestView {
    Initialize(Seq<char>),
    Ping,
    ListTools,
    Transition(TransitionArgsView),
    Context(ContextArgsView),
    Failing(Seq<char>),
    NotFound(Seq<char>),
}

/// The view of a request.
pub open spec fn request_view(v: Request) -> RequestView
{
    match v {
        Request::Initialize(x0) => RequestView::Initialize(x0@),
        Request::Ping => RequestView::Ping,
        Request::ListTools => RequestView::ListTools,
        Request::Transition(x0) => RequestView::Transition(x0.deep_view()),
        Request::Context(x0) => RequestView::Context(x0.deep_view()),
        Request::Failing(x0) => RequestView::Failing(x0@),
        Request::NotFound(x0) => RequestView::NotFound(x0@),
    }
}

impl DeepView for Request {
    type V = RequestView;

    open spec fn deep_view(&self) -> RequestView {
        request_view(*self)
    }
}

// ---- reading requests

/// The text of a field, or another one.
pub open spec fn text_or(t: TreeView, key: Text, other: Text) -> Text {
    match tree::str_of(tree::field(t, key)) {
        Some(s) => s,
        None => other,
    }
}

fn read_or(t: &Tree, key: &str, other: &str) -> (r: String)
    ensures
        r@ == text_or(t.deep_view(), key@, other@),
{
    match t.get_str(key) {
        Some(s) => s.to_owned(),
        None => other.to_owned(),
    }
}

/// A part of a message; nothing where it is missing.
pub open spec fn part_of(t: TreeView, key: Text) -> TreeView {
    match tree::field(t, key) {
        Some(x) => x,
        None => TreeView::Null,
    }
}

/// The view that is asked for: contracts, unless it is one of the others.
pub open spec fn view_of(args: TreeView) -> Presentation {
    let name = text_or(args, "view"@, ""@);
    if name == "plain"@ {
        Presentation::Plain
    } else if name == "ops"@ {
        Presentation::Ops
    } else {
        Presentation::Contracts
    }
}

fn read_view(args: &Tree) -> (r: Presentation)
    ensures
        r == view_of(args.deep_view()),
{
    let name = read_or(args, "view", "");
    if text::same(&name, "plain") {
        Presentation::Plain
    } else if text::same(&name, "ops") {
        Presentation::Ops
    } else {
        Presentation::Contracts
    }
}

/// The arguments of a request for a transition: uncommitted changes by default.
pub open spec fn transition_args(args: TreeView) -> TransitionArgsView {
    TransitionArgsView {
        repo: tree::str_of(tree::field(args, "repo"@)),
        root: source::bare_prefix(text_or(args, "root"@, ""@)),
        base: text_or(args, "base"@, "HEAD"@),
        head: text_or(args, "head"@, ""@),
        view: view_of(args),
        json: tree::field(args, "json"@) == Some(TreeView::Bool(true)),
    }
}

/// What a call of a tool asks for.
pub open spec fn call_of(params: TreeView) -> RequestView {
    let args = part_of(params, "arguments"@);
    let name = text_or(params, "name"@, ""@);
    if name == "merak_transition"@ {
        RequestView::Transition(transition_args(args))
    } else if name == "merak_context"@ {
        match tree::str_of(tree::field(args, "entity"@)) {
            Some(entity) => RequestView::Context(
                ContextArgsView {
                    repo: tree::str_of(tree::field(args, "repo"@)),
                    root: source::bare_prefix(text_or(args, "root"@, ""@)),
                    entity,
                },
            ),
            None => RequestView::Failing("`entity` is required"@),
        }
    } else {
        RequestView::Failing("unknown tool "@ + ticked(name))
    }
}

/// What a message asks for; a notification, which has no id, asks for nothing.
pub open spec fn request_of(msg: TreeView) -> Option<RequestView> {
    let method = text_or(msg, "method"@, ""@);
    let params = part_of(msg, "params"@);
    if tree::field(msg, "id"@) is None {
        None
    } else if method == "initialize"@ {
        Some(RequestView::Initialize(text_or(params, "protocolVersion"@, "2025-06-18"@)))
    } else if method == "ping"@ {
        Some(RequestView::Ping)
    } else if method == "tools/list"@ {
        Some(RequestView::ListTools)
    } else if method == "tools/call"@ {
        Some(call_of(params))
    } else {
        Some(RequestView::NotFound("method not found: "@ + method))
    }
}

fn read_repo(args: &Tree) -> (r: Option<String>)
    ensures
        r.deep_view() == tree::str_of(tree::field(args.deep_view(), "repo"@)),
{
    match args.get_str("repo") {
        Some(s) => Some(s.to_owned()),
        None => None,
    }
}

fn read_call(params: &Tree) -> (r: Request)
    ensures
        r.deep_view() == call_of(params.deep_view()),
{
    let nothing = Tree::Null;
    let args = match params.get("arguments") {
        Some(a) => a,
        None => &nothing,
    };
    let name = read_or(params, "name", "");
    if text::same(&name, "merak_transition") {
        let json = match args.get("json") {
            Some(Tree::Bool(b)) => *b,
            _ => false,
        };
        Request::Transition(
            TransitionArgs {
                repo: read_repo(args),
                root: source::trim_slashes(&read_or(args, "root", "")),
                base: read_or(args, "base", "HEAD"),
                head: read_or(args, "head", ""),
                view: read_view(args),
                json,
            },
        )
    } else if text::same(&name, "merak_context") {
        match args.get_str("entity") {
            Some(entity) => Request::Context(
                ContextArgs {
                    repo: read_repo(args),
                    root: source::trim_slashes(&read_or(args, "root", "")),
                    entity: entity.to_owned(),
                },
            ),
            None => Request::Failing("`entity` is required".to_owned()),
        }
    } else {
        Request::Failing(text::cat2("unknown tool ", &words::tick(&name)))
    }
}

/// Reads what a message asks for; a notification asks for nothing.
pub fn read_request(msg: &Tree) -> (r: Option<Request>)
    ensures
        r.deep_view() == request_of(msg.deep_view()),
{
    if msg.get("id").is_none() {
        return None;
    }
    let nothing = Tree::Null;
    let method = read_or(msg, "method", "");
    let params = match msg.get("params") {
        Some(p) => p,
        None => &nothing,
    };
    Some(
        if text::same(&method, "initialize") {
            Request::Initialize(read_or(params, "protocolVersion", "2025-06-18"))
        } else if text::same(&method, "ping") {
            Request::Ping
        } else if text::same(&method, "tools/list") {
            Request::ListTools
        } else if text::same(&method, "tools/call") {
            read_call(params)
        } else {
            Request::NotFound(text::cat2("method not found: ", &method))
        },
    )
}

// ---- replies

/// The label of a range; a head that is empty is the working tree.
pub open spec fn label_of(base: Text, head: Text) -> Text {
    if head.len() == 0 {
        base + "..working tree"@
    } else {
        base + ".."@ + head
    }
}

/// The label of a range.
pub fn label(base: &str, head: &str) -> (r: String)
    ensures
        r@ == label_of(base@, head@),
{
    if head.is_empty() {
        text::cat2(base, "..working tree")
    } else {
        text::cat3(base, "..", head)
    }
}

} // verus!
