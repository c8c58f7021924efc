use vstd::prelude::*;
use crate::batch::{Batch, FileInfo};
use crate::config::Config;
use crate::text::str_eq;

verus! {

/// The JSON-RPC methods the server knows.
#[derive(Debug, Clone, Copy, PartialEq, Eq, Structural)]
pub enum RpcMethod {
    Initialize,
    Initialized,
    ToolsList,
    ToolsCall,
    Unknown,
}

/// The method a request names: `initialize`, `notifications/initialized`,
/// `tools/list`, `tools/call`, or any other.
pub open spec fn method_named(m: Seq<char>) -> RpcMethod {
    if m == "initialize"@ {
        RpcMethod::Initialize
    } else if m == "notifications/initialized"@ {
        RpcMethod::Initialized
    } else if m == "tools/list"@ {
        RpcMethod::ToolsList
    } else if m == "tools/call"@ {
        RpcMethod::ToolsCall
    } else {
        RpcMethod::Unknown
    }
}

/// The method a request names.
pub fn classify_method(method: &str) -> (res: RpcMethod)
    ensures
        res == method_named(method@),
{
    if str_eq(method, "initialize") {
        RpcMethod::Initialize
    } else if str_eq(method, "notifications/initialized") {
        RpcMethod::Initialized
    } else if str_eq(method, "tools/list") {
        RpcMethod::ToolsList
    } else if str_eq(method, "tools/call") {
        RpcMethod::ToolsCall
    } else {
        RpcMethod::Unknown
    }
}

/// What the server does with a request.
#[derive(Debug, Clone, Copy, PartialEq, Eq, Structural)]
pub enum RpcAction {
    /// Nothing is sent back.
    Ignore,
    /// The server's capabilities are sent back.
    SendCapabilities,
    /// The list of tools is sent back.
    SendToolList,
    /// The named tool is run and its output sent back.
    CallTool,
    /// The error "Method not found" (code -32601) is sent back.
    MethodNotFound,
}

/// The JSON-RPC error code for an unknown method.
pub open spec fn method_not_found_code() -> i32 {
    -32601i32
}

/// The error code sent for an unknown method: -32601.
pub fn method_not_found() -> (res: i32)
    ensures
        res == method_not_found_code(),
{
    -32601
}

/// What the server does with a request: nothing for a notification (no id) or
/// for `notifications/initialized`; otherwise it answers the method, and an
/// unknown method with an error.
pub fn action_for(method: RpcMethod, has_id: bool) -> (res: RpcAction)
    ensures
        (!has_id || method == RpcMethod::Initialized) ==> res == RpcAction::Ignore,
        has_id ==> (method == RpcMethod::Initialize ==> res == RpcAction::SendCapabilities),
        has_id ==> (method == RpcMethod::ToolsList ==> res == RpcAction::SendToolList),
        has_id ==> (method == RpcMethod::ToolsCall ==> res == RpcAction::CallTool),
        has_id ==> (method == RpcMethod::Unknown ==> res == RpcAction::MethodNotFound),
{
    if !has_id {
        return RpcAction::Ignore;
    }
    match method {
        RpcMethod::Initialize => RpcAction::SendCapabilities,
        RpcMethod::Initialized => RpcAction::Ignore,
        RpcMethod::ToolsList => RpcAction::SendToolList,
        RpcMethod::ToolsCall => RpcAction::CallTool,
        RpcMethod::Unknown => RpcAction::MethodNotFound,
    }
}

/// The tools the server offers.
#[derive(Debug, Clone, Copy, PartialEq, Eq, Structural)]
pub enum Tool {
    SetBatch,
    Status,
    Reset,
    Ls,
    Find,
    ReadFile,
    ReadSymbol,
    Write,
    Delete,
}

/// The tool a call names, if it is one of the server's.
pub open spec fn tool_named(name: Seq<char>) -> Option<Tool> {
    if name == "boil_set_batch"@ {
        Some(Tool::SetBatch)
    } else if name == "boil_status"@ {
        Some(Tool::Status)
    } else if name == "boil_reset"@ {
        Some(Tool::Reset)
    } else if name == "boil_ls"@ {
        Some(Tool::Ls)
    } else if name == "boil_find"@ {
        Some(Tool::Find)
    } else if name == "boil_read_file"@ {
        Some(Tool::ReadFile)
    } else if name == "boil_read_symbol"@ {
        Some(Tool::ReadSymbol)
    } else if name == "boil_write"@ {
        Some(Tool::Write)
    } else if name == "boil_delete"@ {
        Some(Tool::Delete)
    } else {
        None
    }
}

/// The tool a call names.
pub fn classify_tool(name: &str) -> (res: Option<Tool>)
    ensures
        res == tool_named(name@),
{
    if str_eq(name, "boil_set_batch") {
        Some(Tool::SetBatch)
    } else if str_eq(name, "boil_status") {
        Some(Tool::Status)
    } else if str_eq(name, "boil_reset") {
        Some(Tool::Reset)
    } else if str_eq(name, "boil_ls") {
        Some(Tool::Ls)
    } else if str_eq(name, "boil_find") {
        Some(Tool::Find)
    } else if str_eq(name, "boil_read_file") {
        Some(Tool::ReadFile)
    } else if str_eq(name, "boil_read_symbol") {
        Some(Tool::ReadSymbol)
    } else if str_eq(name, "boil_write") {
        Some(Tool::Write)
    } else if str_eq(name, "boil_delete") {
        Some(Tool::Delete)
    } else {
        None
    }
}

/// Why a tool call is refused on a state with or without an active batch and
/// a loaded index: latching and resetting always run; finding needs the
/// index; reading a symbol needs both; the rest need the batch.
pub open spec fn tool_refusal(tool: Tool, has_batch: bool, has_index: bool) -> Option<Seq<char>> {
    match tool {
        Tool::SetBatch | Tool::Reset => None,
        Tool::Find => if has_index {
            None
        } else {
            Some("No index loaded. Active batch might not be set."@)
        },
        Tool::ReadSymbol => if has_batch && has_index {
            None
        } else {
            Some("No active batch or index not loaded"@)
        },
        _ => if has_batch {
            None
        } else {
            Some("No active batch"@)
        },
    }
}

/// Without an active batch (as after a reset and the reload that follows it,
/// where nothing is latched to load), every tool but latching and resetting
/// is refused: finding for want of an index (a consistent state holds none),
/// reading a symbol for want of both, the rest for want of the batch.
pub proof fn law_no_batch_refuses(tool: Tool)
    ensures
        tool_refusal(tool, false, false) == (match tool {
            Tool::SetBatch | Tool::Reset => None,
            Tool::Find => Some("No index loaded. Active batch might not be set."@),
            Tool::ReadSymbol => Some("No active batch or index not loaded"@),
            _ => Some("No active batch"@),
        }),
{
}

/// Whether a tool, once it has succeeded, makes the server reload its batch:
/// latching, resetting, writing and deleting do.
pub open spec fn reloads_after(tool: Tool) -> bool {
    tool == Tool::SetBatch || tool == Tool::Reset || tool == Tool::Write || tool == Tool::Delete
}

impl Tool {
    /// Whether the tool, once it has succeeded, makes the server reload its batch.
    pub fn reloads_batch(&self) -> (res: bool)
        ensures
            res == reloads_after(*self),
    {
        match self {
            Tool::SetBatch | Tool::Reset | Tool::Write | Tool::Delete => true,
            _ => false,
        }
    }
}

/// The server's state: the saved configuration, the active batch and its index.
pub struct ServerState {
    pub config: Config,
    pub batch: Option<Batch>,
    pub index: Option<Vec<FileInfo>>,
}

impl ServerState {
    /// An index is only ever held together with the batch it belongs to.
    pub open spec fn consistent(&self) -> bool {
        self.index is Some ==> self.batch is Some
    }

    /// A server with this configuration and nothing loaded yet.
    pub fn new(config: Config) -> (res: Self)
        ensures
            res.config == config,
            res.batch is None,
            res.index is None,
            res.consistent(),
    {
        ServerState { config, batch: None, index: None }
    }

    /// The batch that a reload should load: the latched one.
    pub fn batch_to_load(&self) -> (res: Option<String>)
        ensures
            res == self.config.last_batch,
    {
        match &self.config.last_batch {
            Some(p) => Some(p.clone()),
            None => None,
        }
    }

    /// Takes what a reload found: the batch if it loaded, and its index if
    /// that could be read; without a batch, no index is kept.
    pub fn apply_reload(&mut self, loaded: Option<Batch>, index: Option<Vec<FileInfo>>)
        ensures
            final(self).config == old(self).config,
            final(self).batch == loaded,
            final(self).index == (if loaded is Some {
                index
            } else {
                None
            }),
            final(self).consistent(),
    {
        match loaded {
            Some(b) => {
                self.batch = Some(b);
                self.index = index;
            },
            None => {
                self.batch = None;
                self.index = None;
            },
        }
    }

    /// Latches onto the batch at `path` (once it is known to load).
    pub fn latch(&mut self, path: String)
        ensures
            final(self).config.last_batch == Some(path),
            final(self).batch == old(self).batch,
            final(self).index == old(self).index,
            old(self).consistent() ==> final(self).consistent(),
    {
        self.config.last_batch = Some(path);
    }

    /// Forgets the latched batch.
    pub fn reset(&mut self)
        ensures
            final(self).config.last_batch is None,
            final(self).batch == old(self).batch,
            final(self).index == old(self).index,
            old(self).consistent() ==> final(self).consistent(),
    {
        self.config.last_batch = None;
    }

    /// Why calling `tool` now is refused, if it is.
    pub fn refusal(&self, tool: Tool) -> (res: Option<String>)
        ensures
            res matches Some(m) ==> tool_refusal(tool, self.batch is Some, self.index is Some) == Some(m@),
            res is None ==> tool_refusal(tool, self.batch is Some, self.index is Some) is None,
    {
        let has_batch = self.batch.is_some();
        let has_index = self.index.is_some();
        match tool {
            Tool::SetBatch | Tool::Reset => None,
            Tool::Find => if has_index {
                None
            } else {
                Some(String::from_str("No index loaded. Active batch might not be set."))
            },
            Tool::ReadSymbol => if has_batch && has_index {
                None
            } else {
                Some(String::from_str("No active batch or index not loaded"))
            },
            _ => if has_batch {
                None
            } else {
                Some(String::from_str("No active batch"))
            },
        }
    }
}

} // verus!
