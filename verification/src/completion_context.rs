use vstd::prelude::*;

use crate::analysis_model::{type_text, type_to_string, AnalysisResult, SymbolEntry, SymbolEntryKind};
use crate::ast::{Ast, Block, ConstItem, FunctionItem, FunctionParam, Item, ItemKind};
use crate::chars::{
    char_is_alphanumeric, ident_tail_start, is_ident_char, lemma_ident_tail_start,
    string_from_chars, sub_vec, trim, trim_vec,
};
use crate::completion::{get_receiver_expr, spec_receiver_expr};
use crate::document::{lemma_position_offset_is_char_offset, spec_position_to_offset, Document, Position};
use crate::mutability_finder::{binding_mutability, block_binds};
use crate::rope::byte_offset;
use crate::span::{NodeId, Span};
use crate::text::{bytes_of, str_eq};
use crate::utf::{
    char_index_at_byte, char_index_of_byte, char_utf8_width, chars_of, lemma_char_index_at_byte,
    lemma_prefix_bytes_step, utf8_width,
};

verus! {

broadcast use vstd::std_specs::hash::group_hash_axioms;

/// ASCII white space as `u8::is_ascii_whitespace` sees it.
pub open spec fn is_ascii_ws_char(c: char) -> bool {
    c == ' ' || c == '\t' || c == '\n' || c == '\x0C' || c == '\r'
}

/// ASCII letters, digits and `_`.
pub open spec fn is_ascii_ident_char(c: char) -> bool {
    ('0' <= c && c <= '9') || ('A' <= c && c <= 'Z') || ('a' <= c && c <= 'z') || c == '_'
}

/// Where the run of ASCII white space at the end of `s` starts.
pub open spec fn ws_tail_start(s: Seq<char>) -> int
    decreases s.len(),
{
    if s.len() > 0 && is_ascii_ws_char(s.last()) {
        ws_tail_start(s.drop_last())
    } else {
        s.len() as int
    }
}

/// Where the run of ASCII identifier characters at the end of `s` starts.
pub open spec fn ascii_ident_tail_start(s: Seq<char>) -> int
    decreases s.len(),
{
    if s.len() > 0 && is_ascii_ident_char(s.last()) {
        ascii_ident_tail_start(s.drop_last())
    } else {
        s.len() as int
    }
}

proof fn lemma_ws_tail_start(s: Seq<char>, i: int)
    requires
        0 <= i <= s.len(),
        forall|j: int| i <= j < s.len() ==> is_ascii_ws_char(#[trigger] s[j]),
        i == 0 || !is_ascii_ws_char(s[i - 1]),
    ensures
        ws_tail_start(s) == i,
    decreases s.len() - i,
{
    if i < s.len() {
        assert forall|j: int| i <= j < s.drop_last().len() implies is_ascii_ws_char(#[trigger] s.drop_last()[j]) by {
            assert(s.drop_last()[j] == s[j]);
        }
        if i > 0 {
            assert(s.drop_last()[i - 1] == s[i - 1]);
        }
        lemma_ws_tail_start(s.drop_last(), i);
    }
}

proof fn lemma_ascii_ident_tail_start(s: Seq<char>, i: int)
    requires
        0 <= i <= s.len(),
        forall|j: int| i <= j < s.len() ==> is_ascii_ident_char(#[trigger] s[j]),
        i == 0 || !is_ascii_ident_char(s[i - 1]),
    ensures
        ascii_ident_tail_start(s) == i,
    decreases s.len() - i,
{
    if i < s.len() {
        assert forall|j: int| i <= j < s.drop_last().len() implies is_ascii_ident_char(#[trigger] s.drop_last()[j]) by {
            assert(s.drop_last()[j] == s[j]);
        }
        if i > 0 {
            assert(s.drop_last()[i - 1] == s[i - 1]);
        }
        lemma_ascii_ident_tail_start(s.drop_last(), i);
    }
}

/// The character index of the cursor at `p`.
pub open spec fn cursor_index(s: Seq<char>, p: Position) -> int {
    char_index_at_byte(s, spec_position_to_offset(s, p)).unwrap()
}

/// Where the word under construction at char index `k` starts.
pub open spec fn word_start(s: Seq<char>, k: int) -> int {
    ident_tail_start(s.take(k))
}

/// The word before the cursor is preceded by `::`.
pub open spec fn after_path_sep(s: Seq<char>, k: int) -> bool {
    let ws = word_start(s, k);
    ws >= 2 && s[ws - 2] == ':' && s[ws - 1] == ':'
}

/// The text before the `::` preceding the word at the cursor.
pub open spec fn path_head(s: Seq<char>, k: int) -> Seq<char> {
    s.take(word_start(s, k) - 2)
}

/// The path segment before `::`: the identifier run that ends the head,
/// trimmed.
pub open spec fn spec_path_context(s: Seq<char>, k: int) -> Seq<char> {
    let head = path_head(s, k);
    trim(head.skip(ident_tail_start(head)))
}

/// Where the text before the word, without trailing ASCII white space, ends.
pub open spec fn dot_check_index(s: Seq<char>, k: int) -> int {
    ws_tail_start(s.take(word_start(s, k)))
}

/// The word at the cursor follows a `.` (white space between allowed).
pub open spec fn after_dot(s: Seq<char>, k: int) -> bool {
    !after_path_sep(s, k) && dot_check_index(s, k) > 0 && s[dot_check_index(s, k) - 1] == '.'
}

/// The name of the receiver before that `.`.
pub open spec fn receiver_name(s: Seq<char>, k: int) -> Option<Seq<char>> {
    spec_receiver_expr(s, byte_offset(s, dot_check_index(s, k) - 1) as int)
}

/// The identifier prefix typed so far: ASCII letters, digits and `_`
/// before the cursor.
pub open spec fn typed_prefix(s: Seq<char>, k: int) -> Seq<char> {
    s.subrange(ascii_ident_tail_start(s.take(k)), k)
}

/// `o` falls in the item, ends included.
pub open spec fn item_covers(item: Item, o: int) -> bool {
    item.span.start <= o && o <= item.span.end
}

/// The last function item that covers `o`.
pub open spec fn current_function(items: Seq<Item>, o: int) -> Option<FunctionItem>
    decreases items.len(),
{
    if items.len() == 0 {
        None
    } else {
        match items.last().kind {
            ItemKind::Function(f) => if item_covers(items.last(), o) {
                Some(f)
            } else {
                current_function(items.drop_last(), o)
            },
            _ => current_function(items.drop_last(), o),
        }
    }
}

/// The first parameter called `name`.
pub open spec fn param_named(ps: Seq<FunctionParam>, name: Seq<char>) -> Option<FunctionParam>
    decreases ps.len(),
{
    if ps.len() == 0 {
        None
    } else if ps[0].name@ == name {
        Some(ps[0])
    } else {
        param_named(ps.subrange(1, ps.len() as int), name)
    }
}

/// A local entry named `name` that ends before `o`, lies in `body` and has
/// a known type.
pub open spec fn local_fits(e: SymbolEntry, name: Seq<char>, o: int, body: Block) -> bool {
    &&& e.kind == SymbolEntryKind::Local
    &&& e.name@ == name
    &&& e.span.end <= o
    &&& (e.detail matches Some(d) && d@ != "void"@)
    &&& body.span.start <= e.span.start
    &&& e.span.end <= body.span.end
}

/// The last entry that fits.
pub open spec fn latest_local(entries: Seq<SymbolEntry>, name: Seq<char>, o: int, body: Block) -> Option<SymbolEntry>
    decreases entries.len(),
{
    if entries.len() == 0 {
        None
    } else if local_fits(entries.last(), name, o, body) {
        Some(entries.last())
    } else {
        latest_local(entries.drop_last(), name, o, body)
    }
}

proof fn lemma_latest_local_fits(entries: Seq<SymbolEntry>, name: Seq<char>, o: int, body: Block)
    ensures
        latest_local(entries, name, o, body) matches Some(e) ==> local_fits(e, name, o, body),
    decreases entries.len(),
{
    if entries.len() > 0 {
        lemma_latest_local_fits(entries.drop_last(), name, o, body);
    }
}

/// The last constant called `name`.
pub open spec fn const_named(items: Seq<Item>, name: Seq<char>) -> Option<ConstItem>
    decreases items.len(),
{
    if items.len() == 0 {
        None
    } else {
        match items.last().kind {
            ItemKind::Const(c) => if c.name@ == name {
                Some(c)
            } else {
                const_named(items.drop_last(), name)
            },
            _ => const_named(items.drop_last(), name),
        }
    }
}

/// What was found for a receiver: a written type, or a local's recorded
/// type with the body and span of its binding, when it has a definition.
pub ghost enum ReceiverFound {
    Typed(Seq<char>),
    Local(Seq<char>, Option<(Block, Span)>),
}

/// The receiver's type: from a parameter of the function at the cursor
/// (only a parameter for `self`), else from the latest fitting local of
/// that function, else from a constant of that name.
pub open spec fn receiver_found(
    items: Seq<Item>,
    entries: Seq<SymbolEntry>,
    defs: Map<u32, Span>,
    o: int,
    name: Seq<char>,
) -> Option<ReceiverFound> {
    let from_fn = match current_function(items, o) {
        None => None,
        Some(f) => match param_named(f.params@, name) {
            Some(p) => Some(ReceiverFound::Typed(type_text(p.ty.shape()))),
            None => if name == "self"@ {
                None
            } else {
                match f.body {
                    None => None,
                    Some(body) => match latest_local(entries, name, o, body) {
                        None => None,
                        Some(l) => Some(
                            ReceiverFound::Local(
                                l.detail.unwrap()@,
                                match l.def_id {
                                    Some(id) => if defs.contains_key(id.0) {
                                        Some((body, defs[id.0]))
                                    } else {
                                        None
                                    },
                                    None => None,
                                },
                            ),
                        ),
                    },
                }
            },
        },
    };
    match from_fn {
        Some(x) => Some(x),
        None => match const_named(items, name) {
            Some(c) => Some(ReceiverFound::Typed(type_text(c.ty.shape()))),
            None => None,
        },
    }
}

/// What completion needs to know about the cursor.
#[derive(Debug)]
pub struct CompletionContext {
    pub uri: lsp_types::Url,
    pub position: Position,
    pub prefix: String,
    pub trigger: Option<String>,
    pub scope_id: Option<NodeId>,
    pub expected_type: Option<String>,
    pub receiver_type: Option<String>,
    pub receiver_is_mut: bool,
    pub path_context: Option<String>,
    pub inside_function: bool,
    pub inside_struct: bool,
    pub inside_enum: bool,
}

fn ascii_ident(c: char) -> (r: bool)
    ensures
        r == is_ascii_ident_char(c),
{
    ('0' <= c && c <= '9') || ('A' <= c && c <= 'Z') || ('a' <= c && c <= 'z') || c == '_'
}

/// Byte offset of character `i` of `cs`.
fn byte_offset_of(cs: &Vec<char>, i: usize) -> (r: usize)
    requires
        i <= cs@.len(),
        bytes_of(cs@).len() <= usize::MAX,
    ensures
        r == byte_offset(cs@, i as int),
{
    let mut j: usize = 0;
    let mut nb: usize = 0;
    proof {
        assert(cs@.take(0) =~= Seq::<char>::empty());
        assert(bytes_of(Seq::<char>::empty()) =~= Seq::<u8>::empty());
    }
    while j < i
        invariant
            0 <= j <= i <= cs@.len(),
            nb == byte_offset(cs@, j as int),
            bytes_of(cs@).len() <= usize::MAX,
        decreases i - j,
    {
        proof {
            lemma_prefix_bytes_step(cs@, j as int);
            crate::utf::lemma_bytes_prefix(cs@, j + 1);
        }
        nb = nb + char_utf8_width(cs[j]);
        j = j + 1;
    }
    nb
}

/// Index of the last function item covering byte `offset`.
pub(crate) fn find_current_function(items: &Vec<Item>, offset: usize) -> (r: Option<usize>)
    ensures
        match current_function(items@, offset as int) {
            Some(f) => r matches Some(j) && j < items@.len() && items@[j as int].kind == ItemKind::Function(f),
            None => r is None,
        },
{
    let mut cur: Option<usize> = None;
    let mut i: usize = 0;
    proof {
        assert(items@.take(0) =~= Seq::<Item>::empty());
    }
    while i < items.len()
        invariant
            0 <= i <= items@.len(),
            match current_function(items@.take(i as int), offset as int) {
                Some(f) => cur matches Some(j) && j < i && items@[j as int].kind == ItemKind::Function(f),
                None => cur is None,
            },
        decreases items@.len() - i,
    {
        proof {
            assert(items@.take(i + 1).drop_last() =~= items@.take(i as int));
            assert(items@.take(i + 1).last() == items@[i as int]);
        }
        let item = &items[i];
        if let ItemKind::Function(_) = &item.kind {
            if item.span.start as usize <= offset && offset <= item.span.end as usize {
                cur = Some(i);
            }
        }
        i = i + 1;
    }
    proof {
        assert(items@.take(i as int) =~= items@);
    }
    cur
}

/// The first parameter called `name`.
fn find_param<'a>(params: &'a Vec<FunctionParam>, name: &str) -> (r: Option<&'a FunctionParam>)
    ensures
        match param_named(params@, name@) {
            Some(p) => r == Some(&p),
            None => r is None,
        },
{
    let mut i: usize = 0;
    proof {
        assert(params@.skip(0) =~= params@);
    }
    while i < params.len()
        invariant
            0 <= i <= params@.len(),
            param_named(params@, name@) == param_named(params@.skip(i as int), name@),
        decreases params@.len() - i,
    {
        proof {
            let rest = params@.skip(i as int);
            assert(rest[0] == params@[i as int]);
            assert(rest.subrange(1, rest.len() as int) =~= params@.skip(i + 1));
        }
        if str_eq(params[i].name.as_str(), name) {
            return Some(&params[i]);
        }
        i = i + 1;
    }
    proof {
        assert(params@.skip(i as int) =~= Seq::<FunctionParam>::empty());
    }
    None
}

/// Index of the last entry that fits (see `local_fits`).
fn find_latest_local(entries: &Vec<SymbolEntry>, name: &str, offset: usize, body: &Block) -> (r: Option<usize>)
    ensures
        match latest_local(entries@, name@, offset as int, *body) {
            Some(e) => r matches Some(j) && j < entries@.len() && entries@[j as int] == e,
            None => r is None,
        },
{
    let mut cur: Option<usize> = None;
    let mut i: usize = 0;
    proof {
        assert(entries@.take(0) =~= Seq::<SymbolEntry>::empty());
        reveal_strlit("void");
    }
    while i < entries.len()
        invariant
            0 <= i <= entries@.len(),
            match latest_local(entries@.take(i as int), name@, offset as int, *body) {
                Some(e) => cur matches Some(j) && j < i && entries@[j as int] == e,
                None => cur is None,
            },
        decreases entries@.len() - i,
    {
        proof {
            assert(entries@.take(i + 1).drop_last() =~= entries@.take(i as int));
            assert(entries@.take(i + 1).last() == entries@[i as int]);
        }
        let e = &entries[i];
        let detail_ok = match &e.detail {
            Some(d) => !str_eq(d.as_str(), "void"),
            None => false,
        };
        if e.kind == SymbolEntryKind::Local && str_eq(e.name.as_str(), name) && e.span.end as usize <= offset
            && detail_ok && body.span.start <= e.span.start && e.span.end <= body.span.end {
            cur = Some(i);
        }
        i = i + 1;
    }
    proof {
        assert(entries@.take(i as int) =~= entries@);
    }
    cur
}

/// Index of the last constant called `name`.
fn find_const(items: &Vec<Item>, name: &str) -> (r: Option<usize>)
    ensures
        match const_named(items@, name@) {
            Some(c) => r matches Some(j) && j < items@.len() && items@[j as int].kind == ItemKind::Const(c),
            None => r is None,
        },
{
    let mut cur: Option<usize> = None;
    let mut i: usize = 0;
    proof {
        assert(items@.take(0) =~= Seq::<Item>::empty());
    }
    while i < items.len()
        invariant
            0 <= i <= items@.len(),
            match const_named(items@.take(i as int), name@) {
                Some(c) => cur matches Some(j) && j < i && items@[j as int].kind == ItemKind::Const(c),
                None => cur is None,
            },
        decreases items@.len() - i,
    {
        proof {
            assert(items@.take(i + 1).drop_last() =~= items@.take(i as int));
            assert(items@.take(i + 1).last() == items@[i as int]);
        }
        if let ItemKind::Const(c) = &items[i].kind {
            if str_eq(c.name.as_str(), name) {
                cur = Some(i);
            }
        }
        i = i + 1;
    }
    proof {
        assert(items@.take(i as int) =~= items@);
    }
    cur
}

/// What is owed for a receiver found as `found`: its type and mutability.
pub open spec fn receiver_result(found: Option<ReceiverFound>, r: Option<(String, bool)>) -> bool {
    match found {
        None => r is None,
        Some(ReceiverFound::Typed(t)) => r matches Some((x, m)) && x@ == t && !m,
        Some(ReceiverFound::Local(t, src)) => r matches Some((x, m)) && x@ == t && match src {
            Some((b, sp)) => (m ==> block_binds(b, sp, true)) && (!m ==> !block_binds(b, sp, true)
                || block_binds(b, sp, false)),
            None => !m,
        },
    }
}

/// The type of the receiver `name` at byte `offset` (see `receiver_found`).
fn resolve_receiver(analysis: &AnalysisResult, items: &Vec<Item>, offset: usize, name: &str) -> (r: Option<(String, bool)>)
    ensures
        receiver_result(
            receiver_found(items@, analysis.symbol_index.entries@, analysis.definition_index.definitions@, offset as int, name@),
            r,
        ),
{
    let mut found: Option<(String, bool)> = None;
    let ghost from_fn = match current_function(items@, offset as int) {
        None => None,
        Some(f) => match param_named(f.params@, name@) {
            Some(p) => Some(ReceiverFound::Typed(type_text(p.ty.shape()))),
            None => if name@ == "self"@ {
                None
            } else {
                match f.body {
                    None => None,
                    Some(body) => match latest_local(analysis.symbol_index.entries@, name@, offset as int, body) {
                        None => None,
                        Some(l) => Some(
                            ReceiverFound::Local(
                                l.detail.unwrap()@,
                                match l.def_id {
                                    Some(id) => if analysis.definition_index.definitions@.contains_key(id.0) {
                                        Some((body, analysis.definition_index.definitions@[id.0]))
                                    } else {
                                        None
                                    },
                                    None => None,
                                },
                            ),
                        ),
                    },
                }
            },
        },
    };
    if let Some(j) = find_current_function(items, offset) {
        if let ItemKind::Function(f) = &items[j].kind {
            let is_self = str_eq(name, "self");
            proof {
                reveal_strlit("self");
            }
            match find_param(&f.params, name) {
                Some(p) => {
                    found = Some((type_to_string(&p.ty), false));
                    proof {
                        assert(current_function(items@, offset as int) == Some(*f));
                        assert(from_fn == Some(ReceiverFound::Typed(type_text(p.ty.shape()))));
                    }
                },
                None => {
                    if !is_self {
                        if let Some(body) = &f.body {
                            if let Some(li) = find_latest_local(&analysis.symbol_index.entries, name, offset, body) {
                                let local = &analysis.symbol_index.entries[li];
                                let mut is_mut = false;
                                if let Some(id) = local.def_id {
                                    if let Some(span) = analysis.definition_index.definitions.get(&id.0) {
                                        is_mut = match binding_mutability(body, *span) {
                                            Some(m) => m,
                                            None => false,
                                        };
                                    }
                                }
                                let ty = match &local.detail {
                                    Some(d) => d.clone(),
                                    None => String::new(),
                                };
                                found = Some((ty, is_mut));
                                proof {
                                    assert(current_function(items@, offset as int) == Some(*f));
                                    assert(latest_local(analysis.symbol_index.entries@, name@, offset as int, *body) == Some(*local));
                                    lemma_latest_local_fits(analysis.symbol_index.entries@, name@, offset as int, *body);
                                    assert(local.detail is Some);
                                }
                            }
                        }
                    }
                },
            }
        }
    }
    proof {
        assert(receiver_result(from_fn, found));
    }
    if found.is_none() {
        if let Some(ci) = find_const(items, name) {
            if let ItemKind::Const(c) = &items[ci].kind {
                found = Some((type_to_string(&c.ty), false));
            }
        }
    }
    found
}

/// The `::` case would cut a character in two: the last character before
/// the path segment takes more than one byte.
pub open spec fn path_cut_in_char(s: Seq<char>, k: int) -> bool {
    let head = path_head(s, k);
    after_path_sep(s, k) && ident_tail_start(head) > 0 && utf8_width(head[ident_tail_start(head) - 1]) != 1
}

/// Some function item covering `o` has a body covering `o`.
pub open spec fn in_function_body(items: Seq<Item>, o: int) -> bool {
    exists|i: int|
        0 <= i < items.len() && item_covers(#[trigger] items[i], o) && (items[i].kind matches ItemKind::Function(f)
            && (f.body matches Some(b) && b.span.start <= o && o <= b.span.end))
}

/// Some struct item covers `o`.
pub open spec fn in_struct(items: Seq<Item>, o: int) -> bool {
    exists|i: int| 0 <= i < items.len() && item_covers(#[trigger] items[i], o) && items[i].kind is Struct
}

/// Some enum item covers `o`.
pub open spec fn in_enum(items: Seq<Item>, o: int) -> bool {
    exists|i: int| 0 <= i < items.len() && item_covers(#[trigger] items[i], o) && items[i].kind is Enum
}

/// What `derive_context` gives for the cursor at `position`: the typed
/// prefix, the trigger and path before it, the receiver's type after a
/// `.`, and the kind of item around the cursor.
pub open spec fn derived_context(document: Document, position: Position, analysis: AnalysisResult, r: CompletionContext) -> bool {
    let s = document.text_view();
    let k = cursor_index(s, position);
    let o = spec_position_to_offset(s, position);
    &&& r.uri == analysis.uri
    &&& r.position == position
    &&& r.scope_id is None
    &&& r.expected_type is None
    &&& r.prefix@ == typed_prefix(s, k)
    &&& (after_path_sep(s, k) ==> (r.trigger matches Some(t) && t@ == "::"@) && (r.path_context matches Some(p)
        && p@ == spec_path_context(s, k)))
    &&& (after_dot(s, k) ==> (r.trigger matches Some(t) && t@ == "."@) && r.path_context is None)
    &&& (!after_path_sep(s, k) && !after_dot(s, k) ==> r.trigger is None && r.path_context is None)
    &&& (match (after_dot(s, k), receiver_name(s, k), analysis.ast) {
        (true, Some(n), Some(ast)) => {
            let found = receiver_found(ast.items@, analysis.symbol_index.entries@, analysis.definition_index.definitions@, o, n);
            receiver_result(found, match r.receiver_type {
                Some(t) => Some((t, r.receiver_is_mut)),
                None => None,
            }) && (found is None ==> !r.receiver_is_mut)
        },
        _ => r.receiver_type is None && !r.receiver_is_mut,
    })
    &&& (match analysis.ast {
        Some(ast) => r.inside_function == in_function_body(ast.items@, o) && r.inside_struct == in_struct(ast.items@, o)
            && r.inside_enum == in_enum(ast.items@, o),
        None => !r.inside_function && !r.inside_struct && !r.inside_enum,
    })
}

/// Works out, from the text before the cursor and the analysis, what is
/// being completed: the typed prefix, whether a `::` or `.` triggered it,
/// the path or the receiver's type before it, and the kind of item the
/// cursor is in.
pub fn derive_context(document: &Document, position: Position, analysis: &AnalysisResult) -> (r: CompletionContext)
    requires
        document.wf(),
        !path_cut_in_char(document.text_view(), cursor_index(document.text_view(), position)),
    ensures
        derived_context(*document, position, *analysis, r),
{
    let ghost s = document.text_view();
    let offset = document.position_to_offset(position);
    let text = document.text();
    let t: &str = text.as_str();
    let cs = chars_of(t);
    let nbytes = t.as_bytes().len();
    let ghost kk = lemma_position_offset_is_char_offset(s, position);
    proof {
        assert(nbytes == bytes_of(s).len());
        lemma_char_index_at_byte(s, kk);
    }
    let k = match char_index_of_byte(&cs, offset) {
        Some(k) => k,
        None => {
            proof {
                assert(false);
            }
            0
        },
    };
    let ghost sk = s.take(k as int);
    // the word being typed
    let mut ws = k;
    while ws > 0 && (char_is_alphanumeric(cs[ws - 1]) || cs[ws - 1] == '_')
        invariant
            0 <= ws <= k <= cs@.len(),
            forall|j: int| ws <= j < k ==> is_ident_char(#[trigger] cs@[j]),
        decreases ws,
    {
        ws = ws - 1;
    }
    proof {
        assert forall|j: int| ws <= j < sk.len() implies is_ident_char(#[trigger] sk[j]) by {
            assert(sk[j] == cs@[j]);
        }
        if ws > 0 {
            assert(sk[ws - 1] == cs@[ws - 1]);
        }
        lemma_ident_tail_start(sk, ws as int);
    }
    let mut trigger: Option<String> = None;
    let mut path_context: Option<String> = None;
    let mut receiver_type: Option<String> = None;
    let mut receiver_is_mut = false;
    if ws >= 2 && cs[ws - 2] == ':' && cs[ws - 1] == ':' {
        trigger = Some(String::from_str("::"));
        let hd = ws - 2;
        let ghost head = s.take(hd as int);
        let mut ps = hd;
        while ps > 0 && (char_is_alphanumeric(cs[ps - 1]) || cs[ps - 1] == '_')
            invariant
                0 <= ps <= hd < cs@.len(),
                forall|j: int| ps <= j < hd ==> is_ident_char(#[trigger] cs@[j]),
            decreases ps,
        {
            ps = ps - 1;
        }
        proof {
            assert forall|j: int| ps <= j < head.len() implies is_ident_char(#[trigger] head[j]) by {
                assert(head[j] == cs@[j]);
            }
            if ps > 0 {
                assert(head[ps - 1] == cs@[ps - 1]);
            }
            lemma_ident_tail_start(head, ps as int);
            assert(head.skip(ps as int) =~= cs@.subrange(ps as int, hd as int));
        }
        let seg = sub_vec(&cs, ps, hd);
        let trimmed = trim_vec(&seg);
        path_context = Some(string_from_chars(&trimmed));
        proof {
            reveal_strlit("::");
        }
    } else {
        let mut ci = ws;
        while ci > 0 && (cs[ci - 1] == ' ' || cs[ci - 1] == '\t' || cs[ci - 1] == '\n' || cs[ci - 1] == '\x0C'
            || cs[ci - 1] == '\r')
            invariant
                0 <= ci <= ws <= cs@.len(),
                forall|j: int| ci <= j < ws ==> is_ascii_ws_char(#[trigger] cs@[j]),
            decreases ci,
        {
            ci = ci - 1;
        }
        let ghost sw = s.take(ws as int);
        proof {
            assert forall|j: int| ci <= j < sw.len() implies is_ascii_ws_char(#[trigger] sw[j]) by {
                assert(sw[j] == cs@[j]);
            }
            if ci > 0 {
                assert(sw[ci - 1] == cs@[ci - 1]);
            }
            lemma_ws_tail_start(sw, ci as int);
        }
        if ci > 0 && cs[ci - 1] == '.' {
            trigger = Some(String::from_str("."));
            proof {
                reveal_strlit(".");
            }
            let dot = byte_offset_of(&cs, ci - 1);
            if let Some(name) = get_receiver_expr(t, dot) {
                if let Some(ast) = &analysis.ast {
                    if let Some((ty, m)) = resolve_receiver(analysis, &ast.items, offset, name.as_str()) {
                        receiver_type = Some(ty);
                        receiver_is_mut = m;
                    }
                }
            }
        }
    }
    // where the cursor is
    let mut inside_function = false;
    let mut inside_struct = false;
    let mut inside_enum = false;
    if let Some(ast) = &analysis.ast {
        let items = &ast.items;
        let mut i: usize = 0;
        while i < items.len()
            invariant
                0 <= i <= items@.len(),
                inside_function == exists|j: int|
                    0 <= j < i && item_covers(#[trigger] items@[j], offset as int) && (items@[j].kind matches ItemKind::Function(f)
                        && (f.body matches Some(b) && b.span.start <= offset && offset <= b.span.end)),
                inside_struct == exists|j: int| 0 <= j < i && item_covers(#[trigger] items@[j], offset as int) && items@[j].kind is Struct,
                inside_enum == exists|j: int| 0 <= j < i && item_covers(#[trigger] items@[j], offset as int) && items@[j].kind is Enum,
            decreases items@.len() - i,
        {
            let item = &items[i];
            if item.span.start as usize <= offset && offset <= item.span.end as usize {
                match &item.kind {
                    ItemKind::Function(f) => {
                        if let Some(body) = &f.body {
                            if body.span.start as usize <= offset && offset <= body.span.end as usize {
                                inside_function = true;
                            }
                        }
                    },
                    ItemKind::Struct(_) => {
                        inside_struct = true;
                    },
                    ItemKind::Enum(_) => {
                        inside_enum = true;
                    },
                    _ => {},
                }
            }
            i = i + 1;
        }
    }
    // the identifier prefix typed so far
    let mut start = k;
    while start > 0 && ascii_ident(cs[start - 1])
        invariant
            0 <= start <= k <= cs@.len(),
            forall|j: int| start <= j < k ==> is_ascii_ident_char(#[trigger] cs@[j]),
        decreases start,
    {
        start = start - 1;
    }
    proof {
        assert forall|j: int| start <= j < sk.len() implies is_ascii_ident_char(#[trigger] sk[j]) by {
            assert(sk[j] == cs@[j]);
        }
        if start > 0 {
            assert(sk[start - 1] == cs@[start - 1]);
        }
        lemma_ascii_ident_tail_start(sk, start as int);
    }
    let prefix = string_from_chars(&sub_vec(&cs, start, k));
    CompletionContext {
        uri: analysis.uri.clone(),
        position,
        prefix,
        trigger,
        scope_id: None,
        expected_type: None,
        receiver_type,
        receiver_is_mut,
        path_context,
        inside_function,
        inside_struct,
        inside_enum,
    }
}

} // verus!
