use vstd::prelude::*;

use crate::analysis_model::{
    references_bounded, references_view, referenced_at, spans_bounded, symbol_def_at, AnalysisResult,
};
use crate::config::LspConfig;
use crate::def::{DefId, DefKind};
use crate::diagnostics::{on_boundary, position_at, span_end, span_to_range};
use crate::document::{spec_position_to_offset, Document, Position, Range};
use crate::span::Span;
use crate::text::str_eq;
use crate::token::{Token, TokenKind};

verus! {

/// The reserved words, which cannot name anything.
pub open spec fn is_keyword_text(name: Seq<char>) -> bool {
    ||| name == "struct"@ || name == "fn"@ || name == "export"@ || name == "extern"@
    ||| name == "const"@ || name == "let"@ || name == "mut"@ || name == "return"@
    ||| name == "break"@ || name == "continue"@ || name == "while"@ || name == "for"@
    ||| name == "in"@ || name == "if"@ || name == "else"@ || name == "match"@
    ||| name == "true"@ || name == "false"@
}

/// Whether `name` is a reserved word.
pub fn keyword_text(name: &str) -> (r: bool)
    ensures
        r == is_keyword_text(name@),
{
    str_eq(name, "struct") || str_eq(name, "fn") || str_eq(name, "export") || str_eq(name, "extern")
        || str_eq(name, "const") || str_eq(name, "let") || str_eq(name, "mut") || str_eq(name, "return")
        || str_eq(name, "break") || str_eq(name, "continue") || str_eq(name, "while") || str_eq(name, "for")
        || str_eq(name, "in") || str_eq(name, "if") || str_eq(name, "else") || str_eq(name, "match")
        || str_eq(name, "true") || str_eq(name, "false")
}

/// Whether a name can be given: it is no reserved word, and it lexes (the
/// tokens `lexed`, `None` when lexing failed) as one identifier and the end.
pub open spec fn spec_valid_ident(name: Seq<char>, lexed: Option<Seq<Token>>) -> bool {
    &&& !is_keyword_text(name)
    &&& lexed matches Some(ts) && ts.len() == 2 && ts[0].kind is Ident && ts[1].kind is Eof
}

/// Whether `name`, lexed as `lexed`, is a valid identifier.
pub fn is_valid_ident(name: &str, lexed: Option<&Vec<Token>>) -> (r: bool)
    ensures
        r == spec_valid_ident(
            name@,
            match lexed {
                Some(ts) => Some(ts@),
                None => None,
            },
        ),
{
    if keyword_text(name) {
        return false;
    }
    match lexed {
        Some(tokens) => tokens.len() == 2 && match (&tokens[0].kind, &tokens[1].kind) {
            (TokenKind::Ident(_), TokenKind::Eof) => true,
            _ => false,
        },
        None => false,
    }
}

/// A replacement of the text in a range.
#[derive(Debug)]
pub struct TextEdit {
    pub range: Range,
    pub new_text: String,
}

/// Edits to apply, by document.
#[derive(Debug)]
pub struct WorkspaceEdit {
    pub changes: Vec<(lsp_types::Url, Vec<TextEdit>)>,
}

/// The definition a cursor at `offset` may stand on: that of the symbol
/// there, else one whose uses cover `offset`, else none.
pub open spec fn def_at_choice(a: AnalysisResult, offset: int, d: Option<DefId>) -> bool {
    let refs = references_view(a.reference_index);
    match symbol_def_at(a.symbol_index.entries@, offset) {
        Some(x) => d == Some(x),
        None => match d {
            Some(x) => referenced_at(refs, x.0, offset),
            None => forall|y: u32| !referenced_at(refs, y, offset),
        },
    }
}

/// Every reference span can be shown as a range.
pub open spec fn refs_on_boundaries(s: Seq<char>, refs: Map<u32, Seq<Span>>) -> bool {
    forall|d: u32, k: int|
        refs.contains_key(d) && 0 <= k < refs[d].len() ==> on_boundary(s, (#[trigger] refs[d][k]).start as int)
            && on_boundary(s, span_end(refs[d][k]))
}

/// Whether an edit list writes `name` over each of `spans`, in order.
pub open spec fn edits_over(s: Seq<char>, edits: Seq<TextEdit>, spans: Seq<Span>, name: Seq<char>) -> bool {
    &&& edits.len() == spans.len()
    &&& forall|i: int|
        0 <= i < edits.len() ==> (#[trigger] edits[i]).new_text@ == name && edits[i].range == Range {
            start: position_at(s, spans[i].start as int),
            end: position_at(s, span_end(spans[i])),
        }
}

/// What a rename of definition `d` to `name` gives: nothing when names are
/// unresolved, `d` is unknown, or it is an exported or external function
/// and the configuration forbids renaming those; else the name written
/// over every recorded reference of `d`, when it has some.
pub open spec fn rename_result(
    s: Seq<char>,
    a: AnalysisResult,
    config: LspConfig,
    d: DefId,
    name: Seq<char>,
    r: Option<WorkspaceEdit>,
) -> bool {
    let refs = references_view(a.reference_index);
    match a.resolved {
        None => r is None,
        Some(res) => if d.0 >= res.symbols.defs@.len() {
            r is None
        } else if config.forbid_abi_rename && (res.symbols.defs@[d.0 as int].kind == DefKind::ExportFunction
            || res.symbols.defs@[d.0 as int].kind == DefKind::ExternFunction) {
            r is None
        } else if !refs.contains_key(d.0) {
            r is None
        } else {
            r matches Some(e) && e.changes@.len() == 1 && e.changes@[0].0 == a.uri && edits_over(
                s,
                e.changes@[0].1@,
                refs[d.0],
                name,
            )
        },
    }
}

/// Renames the symbol at `position` to `new_name`, which the lexer read as
/// `new_name_tokens` (`None` when it could not): the new name replaces every
/// recorded reference of the definition there.
pub fn rename(
    document: &Document,
    position: Position,
    new_name: &str,
    new_name_tokens: Option<&Vec<Token>>,
    analysis: &AnalysisResult,
    config: &LspConfig,
) -> (r: Option<WorkspaceEdit>)
    requires
        document.wf(),
        spans_bounded(analysis.symbol_index.entries@),
        references_bounded(references_view(analysis.reference_index)),
        refs_on_boundaries(document.text_view(), references_view(analysis.reference_index)),
    ensures
        !spec_valid_ident(
            new_name@,
            match new_name_tokens {
                Some(ts) => Some(ts@),
                None => None,
            },
        ) ==> r is None,
        spec_valid_ident(
            new_name@,
            match new_name_tokens {
                Some(ts) => Some(ts@),
                None => None,
            },
        ) ==> exists|d: Option<DefId>|
            def_at_choice(*analysis, spec_position_to_offset(document.text_view(), position), d) && match d {
                None => r is None,
                Some(x) => rename_result(document.text_view(), *analysis, *config, x, new_name@, r),
            },
{
    if !is_valid_ident(new_name, new_name_tokens) {
        return None;
    }
    let offset = document.position_to_offset(position);
    let def = match analysis.def_at(offset) {
        Some(d) => d,
        None => {
            proof {
                assert(def_at_choice(*analysis, offset as int, None));
            }
            return None;
        },
    };
    proof {
        assert(def_at_choice(*analysis, offset as int, Some(def)));
    }
    let resolved = match &analysis.resolved {
        Some(r) => r,
        None => return None,
    };
    let def_data = match resolved.symbols.def(def) {
        Some(d) => d,
        None => return None,
    };
    if config.forbid_abi_rename && (def_data.kind == DefKind::ExportFunction || def_data.kind == DefKind::ExternFunction) {
        return None;
    }
    let ghost refs = references_view(analysis.reference_index);
    let spans = match analysis.reference_index.references.get(&def.0) {
        Some(spans) => spans,
        None => return None,
    };
    proof {
        assert(refs.contains_key(def.0));
        assert(refs[def.0] == spans@);
    }
    let mut edits: Vec<TextEdit> = Vec::new();
    let mut i: usize = 0;
    while i < spans.len()
        invariant
            i <= spans@.len(),
            document.wf(),
            refs == references_view(analysis.reference_index),
            refs.contains_key(def.0),
            refs[def.0] == spans@,
            references_bounded(refs),
            refs_on_boundaries(document.text_view(), refs),
            edits_over(document.text_view(), edits@, spans@.take(i as int), new_name@),
        decreases spans@.len() - i,
    {
        proof {
            assert(refs[def.0][i as int] == spans@[i as int]);
        }
        let range = span_to_range(document, spans[i]);
        edits.push(TextEdit { range, new_text: String::from_str(new_name) });
        i = i + 1;
        proof {
            let t = spans@.take(i as int);
            assert forall|j: int| 0 <= j < edits@.len() implies (#[trigger] edits@[j]).new_text@ == new_name@
                && edits@[j].range == Range {
                start: position_at(document.text_view(), t[j].start as int),
                end: position_at(document.text_view(), span_end(t[j])),
            } by {
                assert(t[j] == spans@[j]);
                if j < i - 1 {
                    assert(spans@.take(i - 1)[j] == spans@[j]);
                }
            }
        }
    }
    proof {
        assert(spans@.take(spans@.len() as int) =~= spans@);
    }
    Some(WorkspaceEdit { changes: vec![(analysis.uri.clone(), edits)] })
}

/// A code action offered for a range; none are offered yet.
#[derive(Debug)]
pub struct CodeAction {
    pub title: String,
}

/// The code actions for `range`: always an empty list.
pub fn code_actions(range: Range, analysis: &AnalysisResult) -> (r: Option<Vec<CodeAction>>)
    ensures
        r matches Some(v) && v@.len() == 0,
{
    Some(Vec::new())
}

} // verus!
