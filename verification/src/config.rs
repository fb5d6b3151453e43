use vstd::prelude::*;

verus! {

/// Feature switches and limits of the language server.
#[derive(Clone, Copy, Debug, PartialEq, Eq, Structural)]
pub struct LspConfig {
    pub diagnostics_on_open: bool,
    pub diagnostics_on_change: bool,
    pub max_file_size: usize,
    pub trace: bool,
    pub hover: bool,
    pub completion: bool,
    pub completion_snippets: bool,
    pub completion_builtins: bool,
    pub completion_keywords: bool,
    pub completion_max_items: usize,
    pub signature_help: bool,
    pub resolve_documentation: bool,
    pub goto_definition: bool,
    pub references: bool,
    pub rename: bool,
    pub semantic_tokens: bool,
    pub symbols: bool,
    pub code_actions: bool,
    pub forbid_abi_rename: bool,
    pub fallback_lexer_tokens: bool,
}

impl LspConfig {
    /// Everything on except tracing, snippets and documentation resolution;
    /// files up to 2 MiB; at most 100 completion items.
    pub open spec fn spec_default() -> LspConfig {
        LspConfig {
            diagnostics_on_open: true,
            diagnostics_on_change: true,
            max_file_size: 2097152,
            trace: false,
            hover: true,
            completion: true,
            completion_snippets: false,
            completion_builtins: true,
            completion_keywords: true,
            completion_max_items: 100,
            signature_help: true,
            resolve_documentation: false,
            goto_definition: true,
            references: true,
            rename: true,
            semantic_tokens: true,
            symbols: true,
            code_actions: true,
            forbid_abi_rename: true,
            fallback_lexer_tokens: true,
        }
    }
}

impl Default for LspConfig {
    fn default() -> (r: Self)
        ensures
            r == LspConfig::spec_default(),
    {
        LspConfig {
            diagnostics_on_open: true,
            diagnostics_on_change: true,
            max_file_size: 2 * 1024 * 1024,
            trace: false,
            hover: true,
            completion: true,
            completion_snippets: false,
            completion_builtins: true,
            completion_keywords: true,
            completion_max_items: 100,
            signature_help: true,
            resolve_documentation: false,
            goto_definition: true,
            references: true,
            rename: true,
            semantic_tokens: true,
            symbols: true,
            code_actions: true,
            forbid_abi_rename: true,
            fallback_lexer_tokens: true,
        }
    }
}

} // verus!
