use vstd::prelude::*;

use crate::analysis_index::{context_texts, items_types_entries, rebuild_indexes, texts_view};
use crate::analysis_model::{AnalysisResult, BorrowResult, LspResolved, LspTyped};
use crate::ast::Ast;
use crate::diagnostic::Diagnostic;
use crate::infer::{insert_all, items_entries, signatures_of, TypeInferrer};
use crate::memory_check::{check_memory, functions_weight};
use crate::parse_error::ParseError;
use crate::resolver::{has_error, resolution_sound, resolve, ResolvedAst};
use crate::symbol_index::{entries_view, items_symbols, IndexEnv};
use crate::ty::TypeShape;
use crate::type_context::TypeContext;

verus! {

/// The type text of each node the inference records for `items`.
pub open spec fn inferred_texts(items: Seq<crate::ast::Item>) -> Map<u32, Seq<char>> {
    insert_all(Map::<u32, TypeShape>::empty(), items_entries(signatures_of(items), items)).map_values(
        |t: TypeShape| crate::analysis_model::type_text(t),
    )
}

/// The types of `ast`'s nodes, as the inference finds them.
fn infer_types(ast: &Ast) -> (r: TypeContext)
    ensures
        context_texts(r) == inferred_texts(ast.items@),
{
    let mut ctx = TypeContext::new();
    let inferrer = TypeInferrer::new();
    proof {
        assert(ctx.shapes() =~= Map::<u32, TypeShape>::empty());
        assert(inferrer.fns() + signatures_of(ast.items@) =~= signatures_of(ast.items@));
    }
    inferrer.infer_ast(ast, &mut ctx);
    proof {
        assert(context_texts(ctx) =~= ctx.shapes().map_values(|t: TypeShape| crate::analysis_model::type_text(t)));
    }
    ctx
}

/// What the indexes of an analysis hold for its tree: the symbol entries
/// found with its resolution results and its type texts, which are the
/// inferred types and then the written ones.
pub open spec fn indexes_built(r: AnalysisResult, items: Seq<crate::ast::Item>) -> bool {
    &&& texts_view(r.type_index.types@) == insert_all(inferred_texts(items), items_types_entries(items))
    &&& entries_view(r.symbol_index.entries@) == items_symbols(
        IndexEnv { resolved: r.resolved, types: texts_view(r.type_index.types@) },
        items,
    )
}

/// Analyses a parsed document: with parse errors, they are reported and
/// only the indexes are built; else names are resolved (their errors are
/// reported), then types inferred and memory checked (its errors are
/// reported), and the indexes rebuilt.
pub fn analyze_ast(uri: lsp_types::Url, version: Option<i32>, source_len: usize, ast: Ast, parse_errors: Vec<ParseError>) -> (r:
    AnalysisResult)
    requires
        functions_weight(ast.items@) <= u32::MAX,
    ensures
        r.uri == uri,
        r.version == version,
        r.metadata == Some(crate::analysis_model::AnalysisMetadata { source_len }),
        r.ast == Some(ast),
        indexes_built(r, ast.items@),
        parse_errors@.len() > 0 ==> {
            &&& r.resolved is None
            &&& r.typed is None
            &&& r.borrow_result is None
            &&& r.diagnostics@.len() == parse_errors@.len()
            &&& forall|i: int| 0 <= i < parse_errors@.len() ==> (#[trigger] r.diagnostics@[i]).message@ == parse_errors@[i].kind.spec_message()
                && r.diagnostics@[i].span == parse_errors@[i].span
        },
        parse_errors@.len() == 0 ==> match r.resolved {
            None => r.typed is None && r.borrow_result is None && has_error(r.diagnostics@),
            Some(res) => {
                &&& resolution_sound(
                    res.symbols,
                    res.resolved_names@,
                    res.resolved_calls@,
                    res.resolved_fields@,
                    res.resolved_variants@,
                )
                &&& r.typed matches Some(t) && t.types.types@ == Map::<u32, String>::empty()
                &&& r.borrow_result matches Some(b) && (b.checked <==> r.diagnostics@.len() == 0)
            },
        },
{
    let mut result = AnalysisResult::empty(uri, version, source_len);
    if parse_errors.len() > 0 {
        let mut i: usize = 0;
        while i < parse_errors.len()
            invariant
                0 <= i <= parse_errors@.len(),
                result.diagnostics@.len() == i,
                forall|j: int| 0 <= j < i ==> (#[trigger] result.diagnostics@[j]).message@ == parse_errors@[j].kind.spec_message()
                    && result.diagnostics@[j].span == parse_errors@[j].span,
                result.uri == uri,
                result.version == version,
                result.metadata == Some(crate::analysis_model::AnalysisMetadata { source_len }),
                result.ast is None,
                result.resolved is None,
                result.typed is None,
                result.borrow_result is None,
            decreases parse_errors@.len() - i,
        {
            let e = parse_errors[i];
            result.diagnostics.push(Diagnostic::new(e.kind.message(), e.span));
            i = i + 1;
        }
        let ctx = infer_types(&ast);
        result.ast = Some(ast);
        rebuild_indexes(&mut result, &ctx);
        return result;
    }
    let ctx = infer_types(&ast);
    let outcome = match resolve(&ast) {
        Ok(resolved) => {
            let ResolvedAst { ast: _, symbols, resolved_names, resolved_calls, resolved_fields, resolved_variants } = resolved;
            let checked = check_memory(&ctx, &ast);
            let report = match checked {
                Ok(_) => None,
                Err(report) => Some(report),
            };
            Ok((LspResolved { symbols, resolved_names, resolved_calls, resolved_fields, resolved_variants }, report))
        },
        Err(report) => Err(report),
    };
    match outcome {
        Ok((lsp_resolved, report)) => {
            result.resolved = Some(lsp_resolved);
            result.typed = Some(LspTyped::default());
            match report {
                None => {
                    result.borrow_result = Some(BorrowResult { checked: true });
                },
                Some(diagnostics) => {
                    result.borrow_result = Some(BorrowResult { checked: false });
                    result.diagnostics = diagnostics;
                },
            }
        },
        Err(diagnostics) => {
            result.diagnostics = diagnostics;
        },
    }
    result.ast = Some(ast);
    rebuild_indexes(&mut result, &ctx);
    result
}

} // verus!
