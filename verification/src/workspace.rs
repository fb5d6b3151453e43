use vstd::prelude::*;

use dashmap::DashMap;
use std::sync::Arc;

use crate::analysis_model::{AnalysisResult, SymbolEntry, SymbolEntryKind};
use crate::completion_items::{chars_contain, has_sub, lowercase, spec_lowercase};
use crate::diagnostics::{on_boundary, position_at, span_end, span_to_range};
use crate::document::{applicable, changes_chain, ContentChange, Document, Range};
use crate::navigation::Location;
use crate::outline::OutlineKind;
use crate::utf::chars_of;

verus! {

/// The serialization of an address, the text `Url::as_str` gives.
pub uninterp spec fn url_serialization(u: lsp_types::Url) -> Seq<char>;

/// `Url::eq`, which compares the serializations of two addresses and
/// nothing else.
#[verifier::external_body]
fn url_eq(a: &lsp_types::Url, b: &lsp_types::Url) -> (r: bool)
    ensures
        r == (url_serialization(*a) == url_serialization(*b)),
{
    a == b
}

#[verifier::external_type_specification]
#[verifier::external_body]
#[verifier::reject_recursive_types(K)]
#[verifier::reject_recursive_types(V)]
#[verifier::reject_recursive_types(S)]
pub struct ExDashMap<K, V, S>(DashMap<K, V, S>);

/// Open documents by address.
pub type DocumentMap = DashMap<lsp_types::Url, Document>;

/// Analyses by the address of their document.
pub type AnalysisMap = DashMap<lsp_types::Url, Arc<AnalysisResult>>;

/// The documents a map holds, by the serialization of their addresses.
pub uninterp spec fn held_documents(m: DocumentMap) -> Map<Seq<char>, Document>;

/// The analyses a map holds, by the serialization of their addresses.
pub uninterp spec fn held_analyses(m: AnalysisMap) -> Map<Seq<char>, Arc<AnalysisResult>>;

/// `DashMap::new`: an empty map.
#[verifier::external_body]
fn documents_new() -> (r: DocumentMap)
    ensures
        (held_documents(r) == Map::<Seq<char>, Document>::empty()),
{
    DashMap::new()
}

/// `DashMap::new`: an empty map.
#[verifier::external_body]
fn analyses_new() -> (r: AnalysisMap)
    ensures
        (held_analyses(r) == Map::<Seq<char>, Arc<AnalysisResult>>::empty()),
{
    DashMap::new()
}

/// `DashMap::insert`: the entry of the key (keys are equal when their
/// serializations are) now holds `v`.
#[verifier::external_body]
fn documents_insert(m: &mut DocumentMap, k: lsp_types::Url, v: Document)
    ensures
        held_documents(*final(m)) == held_documents(*old(m)).insert(url_serialization(k), v),
{
    m.insert(k, v);
}

/// `DashMap::insert`: the entry of the key now holds `v`.
#[verifier::external_body]
fn analyses_insert(m: &mut AnalysisMap, k: lsp_types::Url, v: Arc<AnalysisResult>)
    ensures
        held_analyses(*final(m)) == held_analyses(*old(m)).insert(url_serialization(k), v),
{
    m.insert(k, v);
}

/// `DashMap::remove`: the entry of the key leaves the map; its value is
/// handed back.
#[verifier::external_body]
fn documents_remove(m: &mut DocumentMap, k: &lsp_types::Url) -> (r: Option<Document>)
    ensures
        held_documents(*final(m)) == held_documents(*old(m)).remove(url_serialization(*k)),
        match r {
            Some(d) => held_documents(*old(m)).contains_key(url_serialization(*k)) && d == held_documents(*old(m))[url_serialization(*k)],
            None => !held_documents(*old(m)).contains_key(url_serialization(*k)),
        },
{
    m.remove(k).map(|(_, v)| v)
}

/// `DashMap::remove`: the entry of the key leaves the map.
#[verifier::external_body]
fn analyses_remove(m: &mut AnalysisMap, k: &lsp_types::Url)
    ensures
        held_analyses(*final(m)) == held_analyses(*old(m)).remove(url_serialization(*k)),
{
    m.remove(k);
}

/// `DashMap::get`, with the value copied by `Document::duplicate`.
#[verifier::external_body]
fn documents_get(m: &DocumentMap, k: &lsp_types::Url) -> (r: Option<Document>)
    ensures
        match r {
            Some(d) => {
                let h = held_documents(*m)[url_serialization(*k)];
                &&& held_documents(*m).contains_key(url_serialization(*k))
                &&& d.wf() == h.wf()
                &&& d.uri_view() == h.uri_view()
                &&& d.version_view() == h.version_view()
                &&& d.text_view() == h.text_view()
            },
            None => !held_documents(*m).contains_key(url_serialization(*k)),
        },
{
    m.get(k).map(|e| e.value().duplicate())
}

/// `DashMap::get`, with the handle cloned: the same analysis.
#[verifier::external_body]
fn analyses_get(m: &AnalysisMap, k: &lsp_types::Url) -> (r: Option<Arc<AnalysisResult>>)
    ensures
        match r {
            Some(a) => held_analyses(*m).contains_key(url_serialization(*k)) && a == held_analyses(*m)[url_serialization(*k)],
            None => !held_analyses(*m).contains_key(url_serialization(*k)),
        },
{
    m.get(k).map(|e| e.value().clone())
}

/// `DashMap::iter`, with each handle cloned: the analysis of every entry,
/// one per entry, in the order the map is walked.
#[verifier::external_body]
fn analyses_values(m: &AnalysisMap) -> (r: Vec<Arc<AnalysisResult>>)
    ensures
        values_in_some_order(r@, held_analyses(*m)),
{
    m.iter().map(|e| e.value().clone()).collect()
}

/// `ks` lists every key of `m` once.
pub open spec fn keys_listing(ks: Seq<Seq<char>>, m: Map<Seq<char>, Arc<AnalysisResult>>) -> bool {
    ks.no_duplicates() && ks.to_set() == m.dom()
}

/// `vs` holds the value of each key of `m`, once per key, in some order of
/// the keys.
pub open spec fn values_in_some_order(vs: Seq<Arc<AnalysisResult>>, m: Map<Seq<char>, Arc<AnalysisResult>>) -> bool {
    exists|ks: Seq<Seq<char>>| #[trigger] keys_listing(ks, m) && vs == ks.map_values(|k: Seq<char>| m[k])
}

/// Every document of `m` is well kept and held under its own address.
pub open spec fn documents_wf(m: Map<Seq<char>, Document>) -> bool {
    forall|k: Seq<char>| #[trigger] m.contains_key(k) ==> m[k].wf() && url_serialization(m[k].uri_view()) == k
}

proof fn lemma_documents_wf_remove(m: Map<Seq<char>, Document>, k: Seq<char>)
    requires
        documents_wf(m),
    ensures
        documents_wf(m.remove(k)),
{
    assert forall|j: Seq<char>| #[trigger] m.remove(k).contains_key(j) implies m.remove(k)[j].wf()
        && url_serialization(m.remove(k)[j].uri_view()) == j by {
        assert(m.contains_key(j));
    }
}

proof fn lemma_documents_wf_insert(m: Map<Seq<char>, Document>, k: Seq<char>, d: Document)
    requires
        documents_wf(m),
        d.wf(),
        url_serialization(d.uri_view()) == k,
    ensures
        documents_wf(m.insert(k, d)),
{
    assert forall|j: Seq<char>| #[trigger] m.insert(k, d).contains_key(j) implies m.insert(k, d)[j].wf()
        && url_serialization(m.insert(k, d)[j].uri_view()) == j by {
        if j != k {
            assert(m.contains_key(j));
        }
    }
}

/// The open documents of a session and the latest analysis of each.
pub struct Workspace {
    documents: DocumentMap,
    analyses: AnalysisMap,
}

impl Workspace {
    /// The open documents, by the serialization of their addresses.
    pub closed spec fn documents(&self) -> Map<Seq<char>, Document> {
        held_documents(self.documents)
    }

    /// The analyses, by the serialization of their addresses.
    pub closed spec fn analyses(&self) -> Map<Seq<char>, Arc<AnalysisResult>> {
        held_analyses(self.analyses)
    }

    /// Every open document is well kept and held under its own address.
    pub closed spec fn wf(&self) -> bool {
        documents_wf(self.documents())
    }

    /// No document and no analysis.
    pub fn new() -> (r: Workspace)
        ensures
            r.wf(),
            r.documents() == Map::<Seq<char>, Document>::empty(),
            r.analyses() == Map::<Seq<char>, Arc<AnalysisResult>>::empty(),
    {
        Workspace { documents: documents_new(), analyses: analyses_new() }
    }

    /// Opens (or reopens) the document at `uri` with `text` and `version`.
    pub fn open(&mut self, uri: lsp_types::Url, text: String, version: Option<i32>)
        requires
            old(self).wf(),
        ensures
            final(self).wf(),
            final(self).analyses() == old(self).analyses(),
            final(self).documents().remove(url_serialization(uri)) == old(self).documents().remove(url_serialization(uri)),
            final(self).documents().contains_key(url_serialization(uri)),
            final(self).documents()[url_serialization(uri)].text_view() == text@,
            final(self).documents()[url_serialization(uri)].version_view() == version,
            final(self).documents()[url_serialization(uri)].uri_view() == uri,
    {
        let key = uri.clone();
        let document = Document::new(uri, version, text);
        documents_insert(&mut self.documents, key, document);
        proof {
            lemma_documents_wf_insert(old(self).documents(), url_serialization(key), document);
            assert(self.documents().remove(url_serialization(key)) =~= old(self).documents().remove(url_serialization(key)));
        }
    }

    /// Applies `changes` in order to the open document at `uri` and gives
    /// it `version`; a change whose range ends before it starts, and those
    /// after it, are not applied. With no document open there, the last
    /// change's text is opened.
    pub fn change(&mut self, uri: &lsp_types::Url, changes: Vec<ContentChange>, version: Option<i32>)
        requires
            old(self).wf(),
        ensures
            final(self).wf(),
            final(self).analyses() == old(self).analyses(),
            final(self).documents().remove(url_serialization(*uri)) == old(self).documents().remove(url_serialization(*uri)),
            old(self).documents().contains_key(url_serialization(*uri)) ==> ({
                let before = old(self).documents()[url_serialization(*uri)];
                let after = final(self).documents()[url_serialization(*uri)];
                &&& final(self).documents().contains_key(url_serialization(*uri))
                &&& after.version_view() == version
                &&& after.uri_view() == before.uri_view()
                &&& exists|texts: Seq<Seq<char>>, k: int|
                    #![trigger changes_chain(texts, changes@.take(k))]
                    0 <= k <= changes@.len() && changes_chain(texts, changes@.take(k)) && texts[0] == before.text_view()
                        && texts.last() == after.text_view() && (k < changes@.len() ==> !applicable(
                        texts.last(),
                        changes@[k],
                    ))
            }),
            !old(self).documents().contains_key(url_serialization(*uri)) ==> if changes@.len() > 0 {
                &&& final(self).documents().contains_key(url_serialization(*uri))
                &&& final(self).documents()[url_serialization(*uri)].text_view() == changes@.last().text@
                &&& final(self).documents()[url_serialization(*uri)].version_view() == version
                &&& final(self).documents()[url_serialization(*uri)].uri_view() == *uri
            } else {
                final(self).documents() == old(self).documents()
            },
    {
        let ghost s = url_serialization(*uri);
        match documents_remove(&mut self.documents, uri) {
            Some(mut document) => {
                proof {
                    assert(old(self).documents().contains_key(s));
                    lemma_documents_wf_remove(old(self).documents(), s);
                }
                document.set_version(version);
                let ghost mut texts: Seq<Seq<char>> = seq![document.text_view()];
                let mut i: usize = 0;
                let mut stopped = false;
                proof {
                    assert(changes@.take(0) =~= Seq::<ContentChange>::empty());
                }
                while i < changes.len() && !stopped
                    invariant
                        0 <= i <= changes@.len(),
                        stopped ==> i < changes@.len() && !applicable(texts.last(), changes@[i as int]),
                        document.wf(),
                        document.version_view() == version,
                        document.uri_view() == old(self).documents()[s].uri_view(),
                        changes_chain(texts, changes@.take(i as int)),
                        texts[0] == old(self).documents()[s].text_view(),
                        texts.last() == document.text_view(),
                    decreases changes@.len() - i + (if stopped { 0int } else { 1int }),
                {
                    let in_order = match changes[i].range {
                        Some(range) => document.position_to_offset(range.start) <= document.position_to_offset(range.end),
                        None => true,
                    };
                    if !in_order {
                        stopped = true;
                    } else {
                        document.apply_change(&changes[i]);
                        proof {
                            let texts0 = texts;
                            texts = texts.push(document.text_view());
                            let cs = changes@.take(i + 1);
                            assert forall|j: int| 0 <= j < cs.len() implies applicable(#[trigger] texts[j], cs[j])
                                && crate::document::text_after(texts[j], texts[j + 1], cs[j]) by {
                                if j < i {
                                    assert(texts[j] == texts0[j] && texts[j + 1] == texts0[j + 1]);
                                    assert(cs[j] == changes@.take(i as int)[j]);
                                }
                            }
                        }
                        i = i + 1;
                    }
                }
                let ghost removed = self.documents();
                documents_insert(&mut self.documents, uri.clone(), document);
                proof {
                    lemma_documents_wf_insert(removed, s, document);
                    assert(self.documents().remove(s) =~= old(self).documents().remove(s));
                    assert(changes_chain(texts, changes@.take(i as int)));
                    assert(self.documents()[s] == document);
                }
            },
            None => {
                proof {
                    assert(self.documents() =~= old(self).documents());
                }
                if changes.len() > 0 {
                    let last = &changes[changes.len() - 1];
                    self.open(uri.clone(), last.text.clone(), version);
                } else {
                    proof {
                        assert(self.documents() =~= old(self).documents());
                    }
                }
            },
        }
    }

    /// Closes the document at `uri` and forgets its analysis.
    pub fn close(&mut self, uri: &lsp_types::Url)
        requires
            old(self).wf(),
        ensures
            final(self).wf(),
            final(self).documents() == old(self).documents().remove(url_serialization(*uri)),
            final(self).analyses() == old(self).analyses().remove(url_serialization(*uri)),
    {
        documents_remove(&mut self.documents, uri);
        analyses_remove(&mut self.analyses, uri);
        proof {
            lemma_documents_wf_remove(old(self).documents(), url_serialization(*uri));
        }
    }

    /// The text and version of the document at `uri`, if one is open.
    pub fn get_text(&self, uri: &lsp_types::Url) -> (r: Option<(Arc<String>, Option<i32>)>)
        requires
            self.wf(),
        ensures
            match r {
                Some((t, v)) => self.documents().contains_key(url_serialization(*uri)) && t@ == self.documents()[url_serialization(
                    *uri,
                )].text_view() && v == self.documents()[url_serialization(*uri)].version_view(),
                None => !self.documents().contains_key(url_serialization(*uri)),
            },
    {
        match documents_get(&self.documents, uri) {
            Some(d) => Some((d.text(), d.version_value())),
            None => None,
        }
    }

    /// Records `analysis` as the one of the document at `uri`.
    pub fn set_analysis(&mut self, uri: lsp_types::Url, analysis: Arc<AnalysisResult>)
        ensures
            final(self).documents() == old(self).documents(),
            final(self).analyses() == old(self).analyses().insert(url_serialization(uri), analysis),
    {
        analyses_insert(&mut self.analyses, uri, analysis);
    }

    /// The analysis recorded for the document at `uri`, if any.
    pub fn get_analysis(&self, uri: &lsp_types::Url) -> (r: Option<Arc<AnalysisResult>>)
        ensures
            match r {
                Some(a) => self.analyses().contains_key(url_serialization(*uri)) && a == self.analyses()[url_serialization(*uri)],
                None => !self.analyses().contains_key(url_serialization(*uri)),
            },
    {
        analyses_get(&self.analyses, uri)
    }

    /// Every recorded analysis, each once, in no particular order.
    pub fn all_analyses(&self) -> (r: Vec<Arc<AnalysisResult>>)
        ensures
            values_in_some_order(r@, self.analyses()),
    {
        analyses_values(&self.analyses)
    }

    /// A copy of the document at `uri`, if one is open.
    pub fn get_document(&self, uri: &lsp_types::Url) -> (r: Option<Document>)
        requires
            self.wf(),
        ensures
            match r {
                Some(d) => {
                    let h = self.documents()[url_serialization(*uri)];
                    &&& self.documents().contains_key(url_serialization(*uri))
                    &&& d.wf()
                    &&& d.uri_view() == h.uri_view()
                    &&& d.version_view() == h.version_view()
                    &&& d.text_view() == h.text_view()
                },
                None => !self.documents().contains_key(url_serialization(*uri)),
            },
    {
        documents_get(&self.documents, uri)
    }
}

/// A named item of a document, as a workspace search lists it.
#[derive(Debug)]
pub struct SymbolInformation {
    pub name: String,
    pub kind: OutlineKind,
    pub location: Location,
    pub container_name: Option<String>,
}

/// What a listed symbol holds.
pub ghost struct SymbolModel {
    pub name: Seq<char>,
    pub kind: OutlineKind,
    pub uri: lsp_types::Url,
    pub range: Range,
    pub container_name: Option<Seq<char>>,
}

pub open spec fn symbol_model(s: SymbolInformation) -> SymbolModel {
    SymbolModel {
        name: s.name@,
        kind: s.kind,
        uri: s.location.uri,
        range: s.location.range,
        container_name: match s.container_name {
            Some(c) => Some(c@),
            None => None,
        },
    }
}

/// The kinds a workspace search lists: the top-level ones.
pub open spec fn listed_kind(k: SymbolEntryKind) -> Option<OutlineKind> {
    match k {
        SymbolEntryKind::Struct => Some(OutlineKind::Struct),
        SymbolEntryKind::Enum => Some(OutlineKind::Enum),
        SymbolEntryKind::Const => Some(OutlineKind::Constant),
        SymbolEntryKind::TypeAlias => Some(OutlineKind::TypeParameter),
        SymbolEntryKind::Function | SymbolEntryKind::ExportFunction | SymbolEntryKind::ExternFunction => Some(
            OutlineKind::Function,
        ),
        _ => None,
    }
}

fn listed_kind_of(k: SymbolEntryKind) -> (r: Option<OutlineKind>)
    ensures
        r == listed_kind(k),
{
    match k {
        SymbolEntryKind::Struct => Some(OutlineKind::Struct),
        SymbolEntryKind::Enum => Some(OutlineKind::Enum),
        SymbolEntryKind::Const => Some(OutlineKind::Constant),
        SymbolEntryKind::TypeAlias => Some(OutlineKind::TypeParameter),
        SymbolEntryKind::Function | SymbolEntryKind::ExportFunction | SymbolEntryKind::ExternFunction => Some(
            OutlineKind::Function,
        ),
        _ => None,
    }
}

/// Whether a name answers a query: the query is empty, or occurs in the
/// name, both lower-cased.
pub open spec fn answers_query(name: Seq<char>, query: Seq<char>) -> bool {
    query.len() == 0 || has_sub(spec_lowercase(name), spec_lowercase(query))
}

/// The first document whose address has the serialization of `uri`.
pub open spec fn document_for(docs: Seq<Document>, uri: lsp_types::Url) -> Option<int>
    decreases docs.len(),
{
    if docs.len() == 0 {
        None
    } else {
        match document_for(docs.drop_last(), uri) {
            Some(i) => Some(i),
            None => if url_serialization(docs.last().uri_view()) == url_serialization(uri) {
                Some(docs.len() - 1)
            } else {
                None
            },
        }
    }
}

/// The symbols listed for the entries of an analysis whose document has
/// text `s`.
pub open spec fn entry_symbols(s: Seq<char>, a: AnalysisResult, entries: Seq<SymbolEntry>, query: Seq<char>) -> Seq<SymbolModel>
    decreases entries.len(),
{
    if entries.len() == 0 {
        seq![]
    } else {
        let e = entries.last();
        entry_symbols(s, a, entries.drop_last(), query) + match listed_kind(e.kind) {
            Some(k) => if answers_query(e.name@, query) {
                seq![SymbolModel {
                    name: e.name@,
                    kind: k,
                    uri: a.uri,
                    range: Range { start: position_at(s, e.selection_span.start as int), end: position_at(s, span_end(e.selection_span)) },
                    container_name: match e.parent {
                        Some(p) => Some(p@),
                        None => None,
                    },
                }]
            } else {
                seq![]
            },
            None => seq![],
        }
    }
}

/// The symbols of a workspace: for each analysis in turn whose document is
/// open, its top-level entries answering the query.
pub open spec fn workspace_model(docs: Seq<Document>, analyses: Seq<AnalysisResult>, query: Seq<char>) -> Seq<SymbolModel>
    decreases analyses.len(),
{
    if analyses.len() == 0 {
        seq![]
    } else {
        let a = analyses.last();
        workspace_model(docs, analyses.drop_last(), query) + match document_for(docs, a.uri) {
            Some(i) => entry_symbols(docs[i].text_view(), a, a.symbol_index.entries@, query),
            None => seq![],
        }
    }
}

/// Every entry's name span can be shown in the text `s`.
pub open spec fn selections_showable(s: Seq<char>, entries: Seq<SymbolEntry>) -> bool {
    forall|i: int|
        0 <= i < entries.len() ==> {
            let sp = (#[trigger] entries[i]).selection_span;
            sp.start < u32::MAX && on_boundary(s, sp.start as int) && on_boundary(s, span_end(sp))
        }
}

/// Every analysis whose document is open can show its entries there.
pub open spec fn workspace_showable(docs: Seq<Document>, analyses: Seq<AnalysisResult>) -> bool {
    forall|j: int|
        0 <= j < analyses.len() ==> match document_for(docs, (#[trigger] analyses[j]).uri) {
            Some(i) => selections_showable(docs[i].text_view(), analyses[j].symbol_index.entries@),
            None => true,
        }
}

proof fn lemma_document_for(docs: Seq<Document>, uri: lsp_types::Url)
    ensures
        document_for(docs, uri) matches Some(i) ==> 0 <= i < docs.len() && url_serialization(docs[i].uri_view())
            == url_serialization(uri),
        document_for(docs, uri) is None ==> forall|i: int|
            0 <= i < docs.len() ==> url_serialization(docs[i].uri_view()) != url_serialization(uri),
    decreases docs.len(),
{
    if docs.len() > 0 {
        lemma_document_for(docs.drop_last(), uri);
        if document_for(docs.drop_last(), uri) is None {
            assert forall|i: int| 0 <= i < docs.len() - 1 implies url_serialization(docs[i].uri_view()) != url_serialization(uri) by {
                assert(docs.drop_last()[i] == docs[i]);
            }
        } else {
            let i = document_for(docs.drop_last(), uri)->0;
            assert(docs.drop_last()[i] == docs[i]);
        }
    }
}

/// The index of the first document with address `uri`.
fn find_document(docs: &Vec<Document>, uri: &lsp_types::Url) -> (r: Option<usize>)
    ensures
        r matches Some(i) ==> document_for(docs@, *uri) == Some(i as int),
        r is None ==> document_for(docs@, *uri) is None,
{
    let mut i: usize = 0;
    while i < docs.len()
        invariant
            i <= docs@.len(),
            document_for(docs@.take(i as int), *uri) is None,
        decreases docs@.len() - i,
    {
        proof {
            assert(docs@.take(i + 1).drop_last() =~= docs@.take(i as int));
            assert(docs@.take(i + 1).last() == docs@[i as int]);
        }
        if url_eq(docs[i].uri_ref(), uri) {
            proof {
                lemma_first_found(docs@, *uri, i as int);
            }
            return Some(i);
        }
        i = i + 1;
    }
    proof {
        assert(docs@.take(docs@.len() as int) =~= docs@);
    }
    None
}

proof fn lemma_first_found(docs: Seq<Document>, uri: lsp_types::Url, i: int)
    requires
        0 <= i < docs.len(),
        url_serialization(docs[i].uri_view()) == url_serialization(uri),
        document_for(docs.take(i), uri) is None,
    ensures
        document_for(docs, uri) == Some(i),
    decreases docs.len(),
{
    if i < docs.len() - 1 {
        assert(docs.drop_last().take(i) =~= docs.take(i));
        assert(docs.drop_last()[i] == docs[i]);
        lemma_first_found(docs.drop_last(), uri, i);
    } else {
        assert(docs.drop_last() =~= docs.take(i));
    }
}

/// Appends the listed symbols of `a`'s entries, shown in `document`.
fn push_entry_symbols(
    out: &mut Vec<SymbolInformation>,
    document: &Document,
    a: &AnalysisResult,
    query: &str,
    lowered_query: &Vec<char>,
)
    requires
        document.wf(),
        selections_showable(document.text_view(), a.symbol_index.entries@),
        lowered_query@ == spec_lowercase(query@),
    ensures
        final(out)@.len() == old(out)@.len() + entry_symbols(document.text_view(), *a, a.symbol_index.entries@, query@).len(),
        forall|k: int| 0 <= k < old(out)@.len() ==> #[trigger] final(out)@[k] == old(out)@[k],
        forall|k: int|
            0 <= k < entry_symbols(document.text_view(), *a, a.symbol_index.entries@, query@).len() ==> symbol_model(
                #[trigger] final(out)@[old(out)@.len() + k],
            ) == entry_symbols(document.text_view(), *a, a.symbol_index.entries@, query@)[k],
{
    let ghost s = document.text_view();
    let ghost base = old(out)@;
    let entries = &a.symbol_index.entries;
    let query_is_empty = query.as_bytes().len() == 0;
    proof {
        assert(query_is_empty == (query@.len() == 0)) by {
            crate::text::lemma_bytes_injective(query@, Seq::<char>::empty());
            assert(crate::text::bytes_of(Seq::<char>::empty()) =~= Seq::<u8>::empty());
        }
    }
    let mut j: usize = 0;
    while j < entries.len()
        invariant
            j <= entries@.len(),
            entries@ == a.symbol_index.entries@,
            document.wf(),
            s == document.text_view(),
            selections_showable(s, entries@),
            lowered_query@ == spec_lowercase(query@),
            query_is_empty == (query@.len() == 0),
            out@.len() == base.len() + entry_symbols(s, *a, entries@.take(j as int), query@).len(),
            forall|k: int| 0 <= k < base.len() ==> #[trigger] out@[k] == base[k],
            forall|k: int|
                0 <= k < entry_symbols(s, *a, entries@.take(j as int), query@).len() ==> symbol_model(
                    #[trigger] out@[base.len() + k],
                ) == entry_symbols(s, *a, entries@.take(j as int), query@)[k],
        decreases entries@.len() - j,
    {
        let e = &entries[j];
        proof {
            assert(entries@.take(j + 1).drop_last() =~= entries@.take(j as int));
            assert(entries@.take(j + 1).last() == entries@[j as int]);
        }
        let ghost before = entry_symbols(s, *a, entries@.take(j as int), query@);
        match listed_kind_of(e.kind) {
            Some(kind) => {
                let answers = if query_is_empty {
                    true
                } else {
                    let lowered = chars_of(lowercase(e.name.as_str()).as_str());
                    chars_contain(&lowered, lowered_query)
                };
                if answers {
                    let range = span_to_range(document, e.selection_span);
                    let container_name = match &e.parent {
                        Some(p) => Some(p.clone()),
                        None => None,
                    };
                    let location = Location { uri: a.uri.clone(), range };
                    out.push(SymbolInformation { name: e.name.clone(), kind, location, container_name });
                    proof {
                        assert(entry_symbols(s, *a, entries@.take(j + 1), query@) == before.push(symbol_model(out@.last())));
                        assert forall|k: int| 0 <= k < before.len() + 1 implies symbol_model(
                            #[trigger] out@[base.len() + k],
                        ) == before.push(symbol_model(out@.last()))[k] by {}
                    }
                } else {
                    proof {
                        assert(entry_symbols(s, *a, entries@.take(j + 1), query@) =~= before);
                    }
                }
            },
            None => {
                proof {
                    assert(entry_symbols(s, *a, entries@.take(j + 1), query@) =~= before);
                }
            },
        }
        j = j + 1;
    }
    proof {
        assert(entries@.take(entries@.len() as int) =~= entries@);
    }
}

/// The symbols of the open documents that answer `query`: for each
/// analysis in turn whose document is among `documents`, its structs,
/// enums, constants, type aliases and functions whose lower-cased name
/// contains the lower-cased query (any, when the query is empty).
pub fn workspace_symbols(documents: &Vec<Document>, analyses: &Vec<AnalysisResult>, query: &str) -> (r: Vec<SymbolInformation>)
    requires
        forall|i: int| 0 <= i < documents@.len() ==> (#[trigger] documents@[i]).wf(),
        workspace_showable(documents@, analyses@),
    ensures
        r@.len() == workspace_model(documents@, analyses@, query@).len(),
        forall|k: int| 0 <= k < r@.len() ==> symbol_model(#[trigger] r@[k]) == workspace_model(documents@, analyses@, query@)[k],
{
    let lowered_query = chars_of(lowercase(query).as_str());
    let mut out: Vec<SymbolInformation> = Vec::new();
    let mut j: usize = 0;
    while j < analyses.len()
        invariant
            j <= analyses@.len(),
            forall|i: int| 0 <= i < documents@.len() ==> (#[trigger] documents@[i]).wf(),
            workspace_showable(documents@, analyses@),
            lowered_query@ == spec_lowercase(query@),
            out@.len() == workspace_model(documents@, analyses@.take(j as int), query@).len(),
            forall|k: int| 0 <= k < out@.len() ==> symbol_model(#[trigger] out@[k]) == workspace_model(
                documents@,
                analyses@.take(j as int),
                query@,
            )[k],
        decreases analyses@.len() - j,
    {
        let a = &analyses[j];
        proof {
            assert(analyses@.take(j + 1).drop_last() =~= analyses@.take(j as int));
            assert(analyses@.take(j + 1).last() == analyses@[j as int]);
            lemma_document_for(documents@, a.uri);
        }
        let ghost before = workspace_model(documents@, analyses@.take(j as int), query@);
        match find_document(documents, &a.uri) {
            Some(i) => {
                let ghost old_out = out@;
                proof {
                    assert(document_for(documents@, analyses@[j as int].uri) == Some(i as int));
                    assert(selections_showable(documents@[i as int].text_view(), analyses@[j as int].symbol_index.entries@));
                }
                push_entry_symbols(&mut out, &documents[i], a, query, &lowered_query);
                proof {
                    let added = entry_symbols(documents@[i as int].text_view(), *a, a.symbol_index.entries@, query@);
                    assert(workspace_model(documents@, analyses@.take(j + 1), query@) == before + added);
                    assert forall|k: int| 0 <= k < out@.len() implies symbol_model(#[trigger] out@[k]) == (before
                        + added)[k] by {
                        if k < old_out.len() {
                            assert(out@[k] == old_out[k]);
                        } else {
                            assert(out@[old_out.len() + (k - old_out.len())] == out@[k]);
                        }
                    }
                }
            },
            None => {
                proof {
                    assert(workspace_model(documents@, analyses@.take(j + 1), query@) =~= before);
                }
            },
        }
        j = j + 1;
    }
    proof {
        assert(analyses@.take(analyses@.len() as int) =~= analyses@);
    }
    out
}

} // verus!
