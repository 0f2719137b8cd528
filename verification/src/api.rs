//! What the service in front of the store asks of it: taking in documents,
//! making indices, and looking for documents by the text that they hold.

use crate::document::{DocumentView, ReviewDocument};
use crate::error::StorageError;
use crate::ident::is_random_id;
use crate::index::Index;
use crate::model::{listed, stored, stored_index};
use crate::storage::{IndexStorage, StorageEngine};
use std::collections::HashMap;
use vstd::prelude::*;

verus! {

/// How many documents a search returns where the query names no limit.
pub const DEFAULT_LIMIT: usize = 10;

/// A search: the text to look for, and how many documents to return at most.
pub struct SearchQuery {
    pub q: String,
    pub limit: Option<usize>,
}

/// The answer to a search: the documents found, and how many they are.
pub struct SearchResponse {
    pub documents: Vec<ReviewDocument>,
    pub total: usize,
}

/// A request to store a new document.
pub struct DocumentRequest {
    pub content: String,
    pub metadata: Option<HashMap<String, String>>,
}

/// The lowercase form of a text, as `str::to_lowercase` gives it.
pub uninterp spec fn lowercase(text: Seq<char>) -> Seq<char>;

/// Whether `needle` stands somewhere in `hay` as a run of consecutive
/// characters.
pub open spec fn occurs_in(needle: Seq<char>, hay: Seq<char>) -> bool {
    exists|start: int|
        0 <= start && start + needle.len() <= hay.len() && #[trigger] hay.subrange(
            start,
            start + needle.len(),
        ) == needle
}

/// Whether a document answers a query: the query's text occurs in the
/// document's content, both taken in lowercase.
pub open spec fn matches_query(doc: DocumentView, q: Seq<char>) -> bool {
    occurs_in(lowercase(q), lowercase(doc.content))
}

/// The test that picks the documents answering `q`.
pub open spec fn query_filter(q: Seq<char>) -> spec_fn(DocumentView) -> bool {
    |doc: DocumentView| matches_query(doc, q)
}

/// The number of hits at which a search stops. A search stops after a hit,
/// so it returns one even where the limit is zero.
pub open spec fn effective_limit(limit: usize) -> int {
    if limit == 0 {
        1
    } else {
        limit as int
    }
}

/// The hits of a search over `candidates`: those that answer `q`, in the
/// order of the candidates, as many as the limit lets through.
pub open spec fn first_hits(candidates: Seq<DocumentView>, q: Seq<char>, limit: usize) -> Seq<
    DocumentView,
> {
    let hits = candidates.filter(query_filter(q));
    if hits.len() <= effective_limit(limit) {
        hits
    } else {
        hits.take(effective_limit(limit))
    }
}

/// The documents that stand under the identifiers of a listing.
pub open spec fn documents_at(live: Map<u128, DocumentView>, ids: Seq<u128>) -> Seq<
    DocumentView,
> {
    Seq::new(ids.len(), |i: int| live[ids[i]])
}

/// The documents of a vector, as mathematical values.
pub open spec fn hit_views(documents: Seq<ReviewDocument>) -> Seq<DocumentView> {
    documents.map_values(|d: ReviewDocument| d@)
}

/// Whether `response` answers `query` over the live documents: for some
/// order in which the documents can be listed, it holds the first hits in
/// that order, and counts them.
pub open spec fn answers(
    response: SearchResponse,
    live: Map<u128, DocumentView>,
    q: Seq<char>,
    limit: usize,
) -> bool {
    &&& response.total == response.documents@.len()
    &&& exists|ids: Seq<u128>|
        {
            &&& ids.no_duplicates()
            &&& ids.to_set() == listed(live)
            &&& hit_views(response.documents@) == #[trigger] first_hits(
                documents_at(live, ids),
                q,
                limit,
            )
        }
}

/// Calls `str::to_lowercase`. The result is, by the meaning of the name,
/// the lowercase form of the text.
#[verifier::external_body]
pub(crate) fn to_lowercase(text: &str) -> (lower: String)
    ensures
        lower@ == lowercase(text@),
{
    text.to_lowercase()
}

/// Calls `str::contains` with a string as the pattern, which says whether
/// the pattern matches a part of the text.
#[verifier::external_body]
pub(crate) fn contains_text(hay: &str, needle: &str) -> (found: bool)
    ensures
        found == occurs_in(needle@, hay@),
{
    hay.contains(needle)
}

/// Whether `doc` answers the query text `q`.
pub fn document_matches(doc: &ReviewDocument, q: &str) -> (hit: bool)
    ensures
        hit == matches_query(doc@, q@),
{
    let content = to_lowercase(doc.content.as_str());
    let wanted = to_lowercase(q);
    contains_text(content.as_str(), wanted.as_str())
}

/// Hits that fill the limit are the first hits, whatever candidates follow.
pub proof fn lemma_full_hits_are_first_hits(
    candidates: Seq<DocumentView>,
    seen: int,
    q: Seq<char>,
    limit: usize,
)
    requires
        0 <= seen <= candidates.len(),
        candidates.take(seen).filter(query_filter(q)).len() == effective_limit(limit),
    ensures
        first_hits(candidates, q, limit) == candidates.take(seen).filter(query_filter(q)),
{
    let front = candidates.take(seen);
    let back = candidates.skip(seen);
    assert(front + back =~= candidates);
    Seq::filter_distributes_over_add(front, back, query_filter(q));
    let hits = candidates.filter(query_filter(q));
    assert(hits.take(effective_limit(limit)) =~= front.filter(query_filter(q)));
}

impl DocumentRequest {
    /// Makes the new document that the request asks for, with a fresh
    /// identifier and the present time. Without metadata in the request the
    /// document has none.
    pub fn into_document(self) -> (doc: ReviewDocument)
        ensures
            doc.content == self.content,
            match self.metadata {
                Some(metadata) => doc.metadata == metadata,
                None => doc.metadata@ == Map::<String, String>::empty(),
            },
            is_random_id(doc.id),
    {
        let metadata = match self.metadata {
            Some(metadata) => metadata,
            None => HashMap::new(),
        };
        ReviewDocument::new(self.content, metadata)
    }
}

/// What a request is answered with once the store has given its outcome:
/// the new item where the store took it, and the store's error where it did
/// not.
pub fn delivered<T>(item: T, outcome: Result<(), StorageError>) -> (r: Result<T, StorageError>)
    ensures
        match outcome {
            Ok(()) => r == Ok::<T, StorageError>(item),
            Err(e) => r == Err::<T, StorageError>(e),
        },
{
    match outcome {
        Ok(()) => Ok(item),
        Err(e) => Err(e),
    }
}

/// Takes a new document in: makes it from the request, stores it, and
/// returns it. Whether the store takes it is the store's to say. Where it
/// does not, the error is the store's and the store has not changed.
pub fn ingest_document<S: StorageEngine>(storage: &mut S, request: DocumentRequest) -> (r: Result<
    ReviewDocument,
    StorageError,
>)
    requires
        old(storage).valid(),
    ensures
        final(storage).valid(),
        match r {
            Ok(doc) => {
                &&& final(storage).live_documents() == stored(old(storage).live_documents(), doc@)
                &&& doc.content == request.content
                &&& match request.metadata {
                    Some(metadata) => doc.metadata == metadata,
                    None => doc.metadata@ == Map::<String, String>::empty(),
                }
                &&& is_random_id(doc.id)
            },
            Err(_) => final(storage).live_documents() == old(storage).live_documents(),
        },
{
    let doc = request.into_document();
    let outcome = storage.store_document(&doc);
    delivered(doc, outcome)
}

/// Makes a new, empty index with the given name, stores it, and returns
/// it. Whether the store takes it is the store's to say. Where it does not,
/// the error is the store's and the store has not changed.
pub fn create_index<S: IndexStorage>(storage: &mut S, name: String) -> (r: Result<
    Index,
    StorageError,
>)
    requires
        old(storage).valid_indices(),
    ensures
        final(storage).valid_indices(),
        match r {
            Ok(index) => {
                &&& final(storage).live_indices() == stored_index(
                    old(storage).live_indices(),
                    index@,
                )
                &&& index.name == name
                &&& index.documents@ == Seq::<u128>::empty()
                &&& is_random_id(index.id)
            },
            Err(_) => final(storage).live_indices() == old(storage).live_indices(),
        },
{
    let index = Index::new(name);
    let outcome = storage.store_index(&index);
    delivered(index, outcome)
}

/// Looks through the live documents, in the order in which the store lists
/// them, for those whose content holds the query's text, letters compared
/// without regard to case. Stops after the hit that fills the limit, which
/// is ten where the query names none. Never fails.
pub fn search_documents<S: StorageEngine>(storage: &S, query: &SearchQuery) -> (r: Result<
    SearchResponse,
    StorageError,
>)
    requires
        storage.valid(),
    ensures
        r is Ok,
        answers(
            r->Ok_0,
            storage.live_documents(),
            query.q@,
            match query.limit {
                Some(n) => n,
                None => DEFAULT_LIMIT,
            },
        ),
{
    let ids = match storage.list_documents() {
        Ok(ids) => ids,
        Err(e) => {
            return Err(e);
        },
    };
    let limit = match query.limit {
        Some(n) => n,
        None => DEFAULT_LIMIT,
    };
    let ghost live = storage.live_documents();
    let ghost candidates = documents_at(live, ids@);
    let ghost wanted = query_filter(query.q@);
    let mut documents: Vec<ReviewDocument> = Vec::new();
    let mut i: usize = 0;
    assert(candidates.take(0) =~= Seq::<DocumentView>::empty());
    assert(hit_views(documents@) =~= Seq::<DocumentView>::empty());
    while i < ids.len()
        invariant_except_break
            hit_views(documents@) == candidates.take(i as int).filter(wanted),
            documents@.len() < effective_limit(limit),
        invariant
            i <= ids@.len(),
            storage.valid(),
            live == storage.live_documents(),
            candidates == documents_at(live, ids@),
            wanted == query_filter(query.q@),
            ids@.to_set() == listed(live),
        ensures
            hit_views(documents@) == first_hits(candidates, query.q@, limit) || (i == ids@.len()
                && hit_views(documents@) == candidates.take(i as int).filter(wanted)
                && documents@.len() < effective_limit(limit)),
        decreases ids@.len() - i,
    {
        let ghost seen = candidates.take(i as int);
        let ghost before = hit_views(documents@);
        assert(candidates.take(i + 1) =~= seen.push(candidates[i as int]));
        assert(seen.push(candidates[i as int]).drop_last() =~= seen);
        assert(ids@.to_set().contains(ids@[i as int]));
        reveal(Seq::filter);
        match storage.get_document(&ids[i]) {
            Ok(Some(doc)) => {
                assert(doc@ == candidates[i as int]);
                if document_matches(&doc, query.q.as_str()) {
                    documents.push(doc);
                    assert(hit_views(documents@) =~= before.push(candidates[i as int]));
                    if documents.len() >= limit {
                        proof {
                            lemma_full_hits_are_first_hits(candidates, i + 1, query.q@, limit);
                        }
                        break ;
                    }
                }
            },
            Ok(None) => {
                assert(false);
            },
            Err(e) => {
                return Err(e);
            },
        }
        i += 1;
    }
    proof {
        if i == ids@.len() {
            assert(candidates.take(i as int) =~= candidates);
        }
        assert(hit_views(documents@) == first_hits(candidates, query.q@, limit));
    }
    let total = documents.len();
    Ok(SearchResponse { documents, total })
}

} // verus!
