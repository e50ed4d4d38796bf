//! What a gate is told about a call, and what it answers.
use crate::json::{Json, JsonObject, JsonValue};
use vstd::prelude::*;

verus! {

/// Who calls.
#[derive(Debug)]
pub struct PluginIdentity {
    /// The caller's subject id, which anonymous callers lack.
    pub subject_id: Option<String>,
}

/// The call that a gate evaluates.
#[derive(Debug)]
pub struct PluginContext {
    /// The MCP surface, such as `tool` or `prompt`.
    pub surface: String,
    /// The name of the tool.
    pub tool_name: String,
    pub identity: PluginIdentity,
}

/// The model of a call.
#[verifier::ext_equal]
pub struct Request {
    pub surface: Seq<char>,
    pub tool_name: Seq<char>,
    pub subject_id: Option<Seq<char>>,
}

impl View for PluginContext {
    type V = Request;

    open spec fn view(&self) -> Request {
        Request {
            surface: self.surface@,
            tool_name: self.tool_name@,
            subject_id: match self.identity.subject_id {
                Some(id) => Some(id@),
                None => None,
            },
        }
    }
}

/// The answer of a gate.
#[derive(Debug, PartialEq, Eq)]
pub enum GateDecision {
    /// The call may go on. With a `modified_result` the backend is skipped and that is the
    /// result.
    Allow {
        modified_arguments: Option<JsonValue>,
        modified_result: Option<JsonValue>,
        metadata: Option<JsonValue>,
    },
}

/// The model of an answer.
#[verifier::ext_equal]
pub struct Decision {
    pub modified_arguments: Option<Json>,
    pub modified_result: Option<Json>,
    pub metadata: Option<Json>,
}

/// The model of an optional value.
pub open spec fn optional(value: Option<JsonValue>) -> Option<Json> {
    match value {
        Some(v) => Some(v@),
        None => None,
    }
}

impl View for GateDecision {
    type V = Decision;

    open spec fn view(&self) -> Decision {
        match *self {
            GateDecision::Allow { modified_arguments, modified_result, metadata } => Decision {
                modified_arguments: optional(modified_arguments),
                modified_result: optional(modified_result),
                metadata: optional(metadata),
            },
        }
    }
}

/// The answer that changes nothing.
pub open spec fn plain_allow() -> Decision {
    Decision { modified_arguments: None, modified_result: None, metadata: None }
}

/// The answer that serves a cached result: it carries the result, and says where it comes from.
pub open spec fn cache_hit(result: Json) -> Decision {
    Decision {
        modified_arguments: None,
        modified_result: Some(result),
        metadata: Some(
            Json::Object(Map::<Seq<char>, Json>::empty().insert("cache"@, Json::Text("hit"@))),
        ),
    }
}

impl GateDecision {
    /// The answer that changes nothing.
    pub fn allow() -> (decision: Self)
        ensures
            decision@ == plain_allow(),
    {
        GateDecision::Allow { modified_arguments: None, modified_result: None, metadata: None }
    }

    /// The answer that serves a cached result.
    pub fn hit(result: JsonValue) -> (decision: Self)
        ensures
            decision@ == cache_hit(result@),
    {
        broadcast use crate::json::lemma_value_view;

        let mut source = JsonObject::new();
        source.insert("cache".to_owned(), JsonValue::String("hit".to_owned()));
        GateDecision::Allow {
            modified_arguments: None,
            modified_result: Some(result),
            metadata: Some(JsonValue::Object(source)),
        }
    }

    /// Whether the call may go on.
    pub fn is_allow(&self) -> (allowed: bool)
        ensures
            allowed == (*self is Allow),
    {
        match self {
            GateDecision::Allow { .. } => true,
        }
    }
}

/// What a plugin does in a gateway.
#[derive(Debug, PartialEq, Eq)]
pub enum PluginClass {
    ToolGate,
}

/// How a plugin introduces itself.
#[derive(Debug)]
pub struct PluginManifest {
    pub id: String,
    pub version: String,
    pub name: String,
    pub plugin_class: PluginClass,
    pub protocol_version: String,
    pub license: Option<String>,
    pub required_capabilities: Vec<String>,
    pub tags: Vec<String>,
    pub provides: Vec<String>,
    pub provides_schemes: Vec<String>,
    pub module_path_prefix: String,
    pub backend_profile: Option<String>,
}

} // verus!
