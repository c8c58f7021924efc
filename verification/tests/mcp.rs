use steampipe::config::Config;
use steampipe::mcp::{action_for, classify_method, classify_tool, method_not_found, RpcAction, RpcMethod, ServerState, Tool};

#[test]
fn requests_are_routed() {
    assert_eq!(classify_method("initialize"), RpcMethod::Initialize);
    assert_eq!(classify_method("notifications/initialized"), RpcMethod::Initialized);
    assert_eq!(classify_method("tools/list"), RpcMethod::ToolsList);
    assert_eq!(classify_method("tools/call"), RpcMethod::ToolsCall);
    assert_eq!(classify_method("resources/list"), RpcMethod::Unknown);
    assert_eq!(action_for(RpcMethod::Initialize, true), RpcAction::SendCapabilities);
    assert_eq!(action_for(RpcMethod::Initialize, false), RpcAction::Ignore);
    assert_eq!(action_for(RpcMethod::Initialized, true), RpcAction::Ignore);
    assert_eq!(action_for(RpcMethod::ToolsList, true), RpcAction::SendToolList);
    assert_eq!(action_for(RpcMethod::ToolsCall, true), RpcAction::CallTool);
    assert_eq!(action_for(RpcMethod::Unknown, true), RpcAction::MethodNotFound);
    assert_eq!(action_for(RpcMethod::Unknown, false), RpcAction::Ignore);
    assert_eq!(method_not_found(), -32601);
}

#[test]
fn tools_are_named() {
    assert_eq!(classify_tool("boil_set_batch"), Some(Tool::SetBatch));
    assert_eq!(classify_tool("boil_status"), Some(Tool::Status));
    assert_eq!(classify_tool("boil_reset"), Some(Tool::Reset));
    assert_eq!(classify_tool("boil_ls"), Some(Tool::Ls));
    assert_eq!(classify_tool("boil_find"), Some(Tool::Find));
    assert_eq!(classify_tool("boil_read_file"), Some(Tool::ReadFile));
    assert_eq!(classify_tool("boil_read_symbol"), Some(Tool::ReadSymbol));
    assert_eq!(classify_tool("boil_write"), Some(Tool::Write));
    assert_eq!(classify_tool("boil_delete"), Some(Tool::Delete));
    assert_eq!(classify_tool("boil_unknown"), None);
}

#[test]
fn server_state_transitions() {
    let mut state = ServerState::new(Config { last_batch: Some("/b".to_string()) });
    assert_eq!(state.batch_to_load(), Some("/b".to_string()));
    assert!(state.batch.is_none() && state.index.is_none());
    state.apply_reload(None, Some(vec![]));
    assert!(state.index.is_none());
    state.latch("/c".to_string());
    assert_eq!(state.batch_to_load(), Some("/c".to_string()));
    state.reset();
    assert_eq!(state.batch_to_load(), None);
}

#[test]
fn tools_need_a_batch_or_an_index() {
    let state = ServerState::new(Config { last_batch: None });
    assert_eq!(state.refusal(Tool::SetBatch), None);
    assert_eq!(state.refusal(Tool::Reset), None);
    assert_eq!(state.refusal(Tool::Status).as_deref(), Some("No active batch"));
    assert_eq!(state.refusal(Tool::Write).as_deref(), Some("No active batch"));
    assert_eq!(state.refusal(Tool::Find).as_deref(), Some("No index loaded. Active batch might not be set."));
    assert_eq!(state.refusal(Tool::ReadSymbol).as_deref(), Some("No active batch or index not loaded"));
    let mut loaded = ServerState::new(Config { last_batch: None });
    loaded.apply_reload(None, Some(vec![]));
    assert_eq!(loaded.refusal(Tool::Find).as_deref(), Some("No index loaded. Active batch might not be set."));
    assert!(Tool::Write.reloads_batch());
    assert!(Tool::SetBatch.reloads_batch());
    assert!(!Tool::Find.reloads_batch());
    assert!(!Tool::ReadSymbol.reloads_batch());
}
