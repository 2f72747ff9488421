//! Types exchanged with language servers: the actions a caller may ask
//! for, and the results and states reported back.
use vstd::prelude::*;

use crate::text::{owned, str_eq};

verus! {

/// Supported language-server actions.
#[derive(Debug, Clone, Copy, PartialEq, Eq, Structural)]
pub enum LspAction {
    Diagnostics,
    Hover,
    Definition,
    References,
    Completion,
    Symbols,
    Format,
    CodeAction,
    Rename,
    SignatureHelp,
    CodeLens,
    WorkspaceSymbols,
}

/// The action a name (or one of its aliases) stands for.
pub open spec fn action_named(s: Seq<char>) -> Option<LspAction> {
    if s == "diagnostics"@ {
        Some(LspAction::Diagnostics)
    } else if s == "hover"@ {
        Some(LspAction::Hover)
    } else if s == "definition"@ || s == "goto_definition"@ {
        Some(LspAction::Definition)
    } else if s == "references"@ || s == "find_references"@ {
        Some(LspAction::References)
    } else if s == "completion"@ || s == "completions"@ {
        Some(LspAction::Completion)
    } else if s == "symbols"@ || s == "document_symbols"@ {
        Some(LspAction::Symbols)
    } else if s == "format"@ || s == "formatting"@ {
        Some(LspAction::Format)
    } else if s == "code_action"@ || s == "codeaction"@ {
        Some(LspAction::CodeAction)
    } else if s == "rename"@ {
        Some(LspAction::Rename)
    } else if s == "signature_help"@ || s == "signatures"@ {
        Some(LspAction::SignatureHelp)
    } else if s == "code_lens"@ || s == "codelens"@ {
        Some(LspAction::CodeLens)
    } else if s == "workspace_symbols"@ {
        Some(LspAction::WorkspaceSymbols)
    } else {
        None
    }
}

impl LspAction {
    /// The action a name or alias stands for.
    pub fn from_str(s: &str) -> (r: Option<Self>)
        ensures
            r == action_named(s@),
    {
        if str_eq(s, "diagnostics") {
            Some(LspAction::Diagnostics)
        } else if str_eq(s, "hover") {
            Some(LspAction::Hover)
        } else if str_eq(s, "definition") || str_eq(s, "goto_definition") {
            Some(LspAction::Definition)
        } else if str_eq(s, "references") || str_eq(s, "find_references") {
            Some(LspAction::References)
        } else if str_eq(s, "completion") || str_eq(s, "completions") {
            Some(LspAction::Completion)
        } else if str_eq(s, "symbols") || str_eq(s, "document_symbols") {
            Some(LspAction::Symbols)
        } else if str_eq(s, "format") || str_eq(s, "formatting") {
            Some(LspAction::Format)
        } else if str_eq(s, "code_action") || str_eq(s, "codeaction") {
            Some(LspAction::CodeAction)
        } else if str_eq(s, "rename") {
            Some(LspAction::Rename)
        } else if str_eq(s, "signature_help") || str_eq(s, "signatures") {
            Some(LspAction::SignatureHelp)
        } else if str_eq(s, "code_lens") || str_eq(s, "codelens") {
            Some(LspAction::CodeLens)
        } else if str_eq(s, "workspace_symbols") {
            Some(LspAction::WorkspaceSymbols)
        } else {
            None
        }
    }
}

#[derive(Debug, Clone, PartialEq, Eq)]
pub struct LspDiagnostic {
    pub path: String,
    pub line: u32,
    pub character: u32,
    pub severity: String,
    pub message: String,
    pub source: Option<String>,
}

#[derive(Debug, Clone, PartialEq, Eq)]
pub struct LspLocation {
    pub path: String,
    pub line: u32,
    pub character: u32,
    pub end_line: Option<u32>,
    pub end_character: Option<u32>,
    pub preview: Option<String>,
}

#[derive(Debug, Clone, PartialEq, Eq)]
pub struct LspHoverResult {
    pub content: String,
    pub language: Option<String>,
}

#[derive(Debug, Clone, PartialEq, Eq)]
pub struct LspCompletionItem {
    pub label: String,
    pub kind: Option<String>,
    pub detail: Option<String>,
    pub insert_text: Option<String>,
}

#[derive(Debug, Clone, PartialEq, Eq)]
pub struct LspSymbol {
    pub name: String,
    pub kind: String,
    pub path: String,
    pub line: u32,
    pub character: u32,
}

/// A single text edit.
#[derive(Debug, Clone, PartialEq, Eq)]
pub struct LspTextEdit {
    pub new_text: String,
    pub start_line: u32,
    pub start_character: u32,
    pub end_line: u32,
    pub end_character: u32,
}

/// Edits to one file.
#[derive(Debug, Clone, PartialEq, Eq)]
pub struct LspFileEdit {
    pub path: String,
    pub edits: Vec<LspTextEdit>,
}

/// Changes to several files.
#[derive(Debug, Clone, PartialEq, Eq)]
pub struct LspWorkspaceEdit {
    pub changes: Vec<LspFileEdit>,
}

/// Result of a rename.
#[derive(Debug, Clone, PartialEq, Eq)]
pub struct LspRenameResult {
    pub new_name: String,
    pub edit: Option<LspWorkspaceEdit>,
}

/// One parameter of a signature.
#[derive(Debug, Clone, PartialEq, Eq)]
pub struct LspParameterInfo {
    pub label: String,
    pub documentation: Option<String>,
}

/// A function signature with its parameters.
#[derive(Debug, Clone, PartialEq, Eq)]
pub struct LspSignatureInformation {
    pub label: String,
    pub documentation: Option<String>,
    pub parameters: Vec<LspParameterInfo>,
    pub active_parameter: Option<u32>,
}

/// Result of a signature help request.
#[derive(Debug, Clone, PartialEq, Eq)]
pub struct LspSignatureHelpResult {
    pub signatures: Vec<LspSignatureInformation>,
    pub active_signature: Option<u32>,
    pub active_parameter: Option<u32>,
}

/// Connection state of a server.
#[derive(Debug, Clone, Copy, PartialEq, Eq, Structural)]
pub enum LspServerStatus {
    Connected,
    Disconnected,
    Starting,
    Error,
}

pub open spec fn status_text(s: LspServerStatus) -> Seq<char> {
    match s {
        LspServerStatus::Connected => "connected"@,
        LspServerStatus::Disconnected => "disconnected"@,
        LspServerStatus::Starting => "starting"@,
        LspServerStatus::Error => "error"@,
    }
}

impl LspServerStatus {
    /// The status as `Display` renders it.
    pub fn to_string(&self) -> (r: String)
        ensures
            r@ == status_text(*self),
    {
        match self {
            LspServerStatus::Connected => owned("connected"),
            LspServerStatus::Disconnected => owned("disconnected"),
            LspServerStatus::Starting => owned("starting"),
            LspServerStatus::Error => owned("error"),
        }
    }
}

/// What is known of one server.
#[derive(Debug, Clone, PartialEq, Eq)]
pub struct LspServerState {
    pub language: String,
    pub status: LspServerStatus,
    pub root_path: Option<String>,
    pub capabilities: Vec<String>,
    pub diagnostics: Vec<LspDiagnostic>,
}

/// Identifier of a JSON-RPC request: a number, a string, or null.
#[derive(Debug, Clone, PartialEq, Eq)]
pub enum LspId {
    Number(u64),
    String(String),
    Null,
}

} // verus!
