//! The cursor that pages through a collection: what each request carries, what
//! is read from each response, and when the last page has been seen.

use vstd::prelude::*;
use vstd::string::*;

use crate::json::{JsonModel, JsonNumber, JsonValue};

verus! {

/// Why a response of the store cannot be used.
#[derive(Clone, Copy, Debug, PartialEq, Eq)]
pub enum FetchError {
    /// The store answered with a status other than 200.
    Status(u16),
    /// The response has a `bookmark` that is not a string.
    BadBookmark,
    /// The response has no array `docs`.
    MissingDocs,
}

/// The cursor over one collection of the store.
pub struct Fetch {
    dbprefix: String,
    dbtable: String,
    bookmark: Option<String>,
    limit: usize,
    doc_count: u64,
    fetched: usize,
    pages: usize,
    exhausted: bool,
}

/// The model of a [`Fetch`].
pub struct FetchModel {
    pub dbprefix: Seq<char>,
    pub dbtable: Seq<char>,
    /// The continuation token of the last page, absent before the first.
    pub bookmark: Option<Seq<char>>,
    pub limit: nat,
    /// The number of documents that the store reported for the collection.
    pub doc_count: nat,
    /// The number of documents in the pages seen so far.
    pub fetched: nat,
    /// The number of pages seen so far.
    pub pages: nat,
    /// Whether no further request is to be made: the last page has been seen,
    /// or a request has failed.
    pub exhausted: bool,
}

/// One page of documents with the continuation token that came with it.
pub struct Page {
    pub bookmark: Option<String>,
    pub docs: Vec<JsonValue>,
}

/// The model of a [`Page`].
pub struct PageModel {
    pub bookmark: Option<Seq<char>>,
    pub docs: Seq<JsonModel>,
}

impl View for Page {
    type V = PageModel;

    open spec fn view(&self) -> PageModel {
        PageModel {
            bookmark: crate::descriptor::text_of(self.bookmark),
            docs: self.docs@.map_values(|d: JsonValue| d@),
        }
    }
}

impl View for Fetch {
    type V = FetchModel;

    closed spec fn view(&self) -> FetchModel {
        FetchModel {
            dbprefix: self.dbprefix@,
            dbtable: self.dbtable@,
            bookmark: crate::descriptor::text_of(self.bookmark),
            limit: self.limit as nat,
            doc_count: self.doc_count as nat,
            fetched: self.fetched as nat,
            pages: self.pages as nat,
            exhausted: self.exhausted,
        }
    }
}

/// A batch is the last one when it holds fewer documents than the page limit.
pub open spec fn is_last_batch(size: nat, limit: nat) -> bool {
    size < limit
}

/// The selector of every page request: all ids, in ascending order.
pub open spec fn all_ids_selector() -> JsonModel {
    JsonModel::Object(seq![("_id"@, JsonModel::Object(seq![("$gt"@, JsonModel::Null)]))])
}

/// The body of a page request: the selector, the limit, and the bookmark of
/// the previous page where there is one.
pub open spec fn selector_model(limit: nat, bookmark: Option<Seq<char>>) -> JsonModel {
    let head = seq![
        ("selector"@, all_ids_selector()),
        ("limit"@, JsonModel::Number(JsonNumber::PosInt(limit as u64))),
    ];
    match bookmark {
        Some(token) => JsonModel::Object(head.push(("bookmark"@, JsonModel::Text(token)))),
        None => JsonModel::Object(head),
    }
}

/// The document count in the metadata of a collection: the member
/// `doc_count` where it is a non-negative integer, else 0.
pub open spec fn doc_count_of(metadata: JsonModel) -> nat {
    match metadata.member("doc_count"@) {
        Some(JsonModel::Number(n)) => match n.unsigned_value() {
            Some(count) => count as nat,
            None => 0,
        },
        _ => 0,
    }
}

/// What a page response holds. A `bookmark` that is not a string is refused
/// before `docs` is looked at; a response without `bookmark` has none.
pub open spec fn page_of(response: JsonModel) -> Result<PageModel, FetchError> {
    match response.member("bookmark"@) {
        Some(JsonModel::Text(token)) => match response.member("docs"@) {
            Some(JsonModel::Array(docs)) => Ok(PageModel { bookmark: Some(token), docs }),
            _ => Err(FetchError::MissingDocs),
        },
        Some(_) => Err(FetchError::BadBookmark),
        None => match response.member("docs"@) {
            Some(JsonModel::Array(docs)) => Ok(PageModel { bookmark: None, docs }),
            _ => Err(FetchError::MissingDocs),
        },
    }
}

/// The cursor after it has moved past `page`.
pub open spec fn advanced(cursor: FetchModel, page: PageModel) -> FetchModel {
    FetchModel {
        bookmark: page.bookmark,
        fetched: cursor.fetched + page.docs.len(),
        pages: cursor.pages + 1,
        exhausted: is_last_batch(page.docs.len(), cursor.limit),
        ..cursor
    }
}

/// The cursor after it has moved past each of `pages` in turn.
pub open spec fn after_pages(cursor: FetchModel, pages: Seq<PageModel>) -> FetchModel
    decreases pages.len(),
{
    if pages.len() == 0 {
        cursor
    } else {
        advanced(after_pages(cursor, pages.drop_last()), pages.last())
    }
}

/// The sizes of the pages that a cursor with page limit `limit` is handed by a
/// store that holds `count` further documents, up to the page at which the
/// cursor stops: the store hands out `limit` documents while it has as many,
/// and then what is left.
pub open spec fn page_sizes(count: nat, limit: nat) -> Seq<nat>
    decreases count,
{
    if limit == 0 {
        Seq::empty()
    } else if count < limit {
        seq![count]
    } else {
        seq![limit] + page_sizes((count - limit) as nat, limit)
    }
}

/// `a / b`, rounded up.
pub open spec fn ceil_div(a: nat, b: nat) -> nat {
    ((a + b - 1) / (b as int)) as nat
}

/// A store with `count` documents and a page limit `limit` above 0 gives
/// `count / limit` full pages, none of which ends the run, and then one last
/// page with the `count % limit` documents that are left, which is empty where
/// the limit divides the count. The number of full pages is the quotient
/// rounded up exactly where the limit divides the count.
pub proof fn lemma_page_sizes(count: nat, limit: nat)
    requires
        limit > 0,
    ensures
        page_sizes(count, limit).len() == count / limit + 1,
        forall|i: int|
            0 <= i < count / limit ==> (#[trigger] page_sizes(count, limit)[i]) == limit
                && !is_last_batch(page_sizes(count, limit)[i], limit),
        page_sizes(count, limit).last() == count % limit,
        is_last_batch(page_sizes(count, limit).last(), limit),
        count % limit == 0 ==> count / limit == ceil_div(count, limit),
    decreases count,
{
    if count < limit {
        assert(count / limit == 0 && count % limit == count) by (nonlinear_arith)
            requires
                count < limit,
        ;
        assert(ceil_div(count, limit) == 0 || count % limit != 0) by (nonlinear_arith)
            requires
                count < limit,
                limit > 0,
                count % limit == count,
                ceil_div(count, limit) == ((count + limit - 1) / (limit as int)) as nat,
        ;
    } else {
        let rest = (count - limit) as nat;
        lemma_page_sizes(rest, limit);
        assert(count / limit == rest / limit + 1 && count % limit == rest % limit)
            by (nonlinear_arith)
            requires
                count == rest + limit,
                limit > 0,
        ;
        assert(count % limit == 0 ==> (count + limit - 1) / (limit as int) == count / limit)
            by (nonlinear_arith)
            requires
                limit > 0,
        ;
        let tail = page_sizes(rest, limit);
        let all = page_sizes(count, limit);
        assert(all == seq![limit] + tail);
        assert forall|i: int| 0 <= i < count / limit implies (#[trigger] all[i]) == limit by {
            if i > 0 {
                assert(all[i] == tail[i - 1]);
            }
        }
        assert(all.last() == tail.last());
    }
}

/// Pagination runs to exhaustion: a cursor that is handed the pages of a store
/// with `count` documents has then seen `count` documents in
/// `count / limit + 1` pages and knows that it is done, and it did not take
/// any earlier page for the last one.
pub proof fn lemma_pagination_exhaustion(cursor: FetchModel, pages: Seq<PageModel>, count: nat)
    requires
        cursor.limit > 0,
        pages.len() == page_sizes(count, cursor.limit).len(),
        forall|i: int|
            0 <= i < pages.len() ==> (#[trigger] pages[i]).docs.len() == page_sizes(
                count,
                cursor.limit,
            )[i],
    ensures
        after_pages(cursor, pages).fetched == cursor.fetched + count,
        after_pages(cursor, pages).pages == cursor.pages + count / cursor.limit + 1,
        after_pages(cursor, pages).exhausted,
        after_pages(cursor, pages).limit == cursor.limit,
        forall|k: int|
            0 < k < pages.len() ==> !(#[trigger] after_pages(cursor, pages.take(k))).exhausted,
{
    let limit = cursor.limit;
    lemma_page_sizes(count, limit);
    lemma_full_pages(cursor, pages, (pages.len() - 1) as nat);
    assert(pages.take(pages.len() - 1) =~= pages.drop_last());
    assert(count == (count / limit) * limit + count % limit) by (nonlinear_arith)
        requires
            limit > 0,
    ;
    assert forall|k: int| 0 < k < pages.len() implies !(#[trigger] after_pages(
        cursor,
        pages.take(k),
    )).exhausted by {
        lemma_full_pages(cursor, pages, k as nat);
    }
}

/// After `k` pages that each hold `limit` documents the cursor has seen
/// `k * limit` documents and is not done.
proof fn lemma_full_pages(cursor: FetchModel, pages: Seq<PageModel>, k: nat)
    requires
        cursor.limit > 0,
        k <= pages.len(),
        forall|i: int| 0 <= i < k ==> (#[trigger] pages[i]).docs.len() == cursor.limit,
    ensures
        after_pages(cursor, pages.take(k as int)).fetched == cursor.fetched + k * cursor.limit,
        after_pages(cursor, pages.take(k as int)).pages == cursor.pages + k,
        after_pages(cursor, pages.take(k as int)).limit == cursor.limit,
        k > 0 ==> !after_pages(cursor, pages.take(k as int)).exhausted,
    decreases k,
{
    if k > 0 {
        lemma_full_pages(cursor, pages, (k - 1) as nat);
        assert(pages.take(k as int).drop_last() =~= pages.take(k - 1));
        assert(pages.take(k as int).last() == pages[k - 1]);
        assert(k * cursor.limit == (k - 1) * cursor.limit + cursor.limit) by (nonlinear_arith);
    } else {
        assert(0 * cursor.limit == 0) by (nonlinear_arith);
    }
}

/// Accepts the status 200 and no other.
pub fn check_status(status: u16) -> (result: Result<(), FetchError>)
    ensures
        result == if status == 200 {
            Ok::<(), FetchError>(())
        } else {
            Err::<(), FetchError>(FetchError::Status(status))
        },
{
    if status == 200 {
        Ok(())
    } else {
        Err(FetchError::Status(status))
    }
}

fn copy_docs(value: &JsonValue) -> (result: Option<Vec<JsonValue>>)
    ensures
        match result {
            Some(docs) => value@ == JsonModel::Array(docs@.map_values(|d: JsonValue| d@)),
            None => !(value@ is Array),
        },
{
    match value {
        JsonValue::Array(items) => {
            proof {
                value.lemma_view_array();
            }
            let mut docs: Vec<JsonValue> = Vec::new();
            let mut i: usize = 0;
            while i < items.len()
                invariant
                    i <= items@.len(),
                    docs@.len() == i,
                    forall|j: int| 0 <= j < i ==> (#[trigger] docs@[j])@ == items@[j]@,
                decreases items@.len() - i,
            {
                docs.push(items[i].duplicate());
                i += 1;
            }
            assert(value@->Array_0 =~= docs@.map_values(|d: JsonValue| d@));
            Some(docs)
        },
        _ => None,
    }
}

impl Page {
    /// Reads a page from the body of a page response. The documents are
    /// copied out of the response.
    pub fn parse(response: &JsonValue) -> (result: Result<Page, FetchError>)
        ensures
            match result {
                Ok(page) => page_of(response@) == Ok::<PageModel, FetchError>(page@),
                Err(error) => page_of(response@) == Err::<PageModel, FetchError>(error),
            },
    {
        let bookmark: Option<String> = match response.get("bookmark") {
            Some(token) => match token.as_str() {
                Some(text) => Some(String::from_str(text)),
                None => {
                    return Err(FetchError::BadBookmark);
                },
            },
            None => None,
        };
        match response.get("docs") {
            Some(value) => match copy_docs(value) {
                Some(docs) => Ok(Page { bookmark, docs }),
                None => Err(FetchError::MissingDocs),
            },
            None => Err(FetchError::MissingDocs),
        }
    }
}

impl Fetch {
    /// A cursor at the start of the collection `dbtable` of the store at
    /// `dbprefix`, with pages of at most `limit` documents.
    pub fn new(dbprefix: &str, dbtable: &str, limit: usize) -> (fetch: Fetch)
        ensures
            fetch@ == (FetchModel {
                dbprefix: dbprefix@,
                dbtable: dbtable@,
                bookmark: None,
                limit: limit as nat,
                doc_count: 0,
                fetched: 0,
                pages: 0,
                exhausted: false,
            }),
    {
        Fetch {
            dbprefix: String::from_str(dbprefix),
            dbtable: String::from_str(dbtable),
            bookmark: None,
            limit,
            doc_count: 0,
            fetched: 0,
            pages: 0,
            exhausted: false,
        }
    }

    /// The address of the collection, where its metadata is read.
    pub fn metadata_url(&self) -> (url: String)
        ensures
            url@ == self@.dbprefix + seq!['/'] + self@.dbtable,
    {
        proof {
            reveal_strlit("/");
        }
        let mut url: String = self.dbprefix.clone();
        url.append("/");
        url.append(self.dbtable.as_str());
        url
    }

    /// The address that page requests are sent to.
    pub fn find_url(&self) -> (url: String)
        ensures
            url@ == self@.dbprefix + seq!['/'] + self@.dbtable + "/_find"@,
    {
        let mut url: String = self.metadata_url();
        url.append("/_find");
        url
    }

    /// The body of the next page request.
    pub fn selector(&self) -> (body: JsonValue)
        ensures
            body@ == selector_model(self@.limit, self@.bookmark),
    {
        let mut bound: Vec<(String, JsonValue)> = Vec::new();
        bound.push((String::from_str("$gt"), JsonValue::Null));
        let bound = JsonValue::Object(bound);
        let mut ids: Vec<(String, JsonValue)> = Vec::new();
        ids.push((String::from_str("_id"), bound));
        let ids = JsonValue::Object(ids);
        proof {
            bound.lemma_view_object();
            ids.lemma_view_object();
            assert(bound@->Object_0 =~= seq![("$gt"@, JsonModel::Null)]);
            assert(ids@->Object_0 =~= seq![("_id"@, bound@)]);
            assert(ids@ == all_ids_selector());
        }
        let limit: JsonNumber = JsonNumber::PosInt(self.limit as u64);
        let mut members: Vec<(String, JsonValue)> = Vec::new();
        members.push((String::from_str("selector"), ids));
        members.push((String::from_str("limit"), JsonValue::Number(limit)));
        match &self.bookmark {
            Some(token) => {
                members.push((String::from_str("bookmark"), JsonValue::Text(token.clone())));
            },
            None => {},
        }
        let body = JsonValue::Object(members);
        proof {
            body.lemma_view_object();
            assert(body@->Object_0 =~= selector_model(self@.limit, self@.bookmark)->Object_0);
        }
        body
    }

    /// Records the document count that the metadata of the collection gives.
    pub fn record_metadata(&mut self, metadata: &JsonValue)
        ensures
            final(self)@ == (FetchModel { doc_count: doc_count_of(metadata@), ..old(self)@ }),
    {
        let count: u64 = match metadata.get("doc_count") {
            Some(JsonValue::Number(n)) => match n.as_u64() {
                Some(count) => count,
                None => 0,
            },
            _ => 0,
        };
        self.doc_count = count;
    }

    /// Moves the cursor past a page: its bookmark goes into the next request,
    /// whatever the page holds, and a page with fewer documents than the limit
    /// is the last one.
    pub fn advance(&mut self, page: &Page) -> (last: bool)
        requires
            old(self)@.fetched + page@.docs.len() <= usize::MAX,
            old(self)@.pages < usize::MAX,
        ensures
            last == is_last_batch(page@.docs.len(), old(self)@.limit),
            final(self)@ == (FetchModel {
                bookmark: page@.bookmark,
                fetched: old(self)@.fetched + page@.docs.len(),
                pages: old(self)@.pages + 1,
                exhausted: last,
                ..old(self)@
            }),
    {
        let size: usize = page.docs.len();
        let last: bool = size < self.limit;
        self.bookmark = match &page.bookmark {
            Some(token) => Some(token.clone()),
            None => None,
        };
        self.fetched = self.fetched + size;
        self.pages = self.pages + 1;
        self.exhausted = last;
        last
    }

    /// Ends the run after a request that failed: the cursor asks for no
    /// further request, and everything else stays as it was.
    pub fn fail(&mut self)
        ensures
            final(self)@ == (FetchModel { exhausted: true, ..old(self)@ }),
    {
        self.exhausted = true;
    }

    /// The page limit.
    pub fn limit(&self) -> (limit: usize)
        ensures
            limit == self@.limit,
    {
        self.limit
    }

    /// The number of documents that the store reported for the collection.
    pub fn doc_count(&self) -> (count: u64)
        ensures
            count == self@.doc_count,
    {
        self.doc_count
    }

    /// The number of documents in the pages seen so far.
    pub fn fetched(&self) -> (count: usize)
        ensures
            count == self@.fetched,
    {
        self.fetched
    }

    /// The number of pages seen so far.
    pub fn pages(&self) -> (count: usize)
        ensures
            count == self@.pages,
    {
        self.pages
    }

    /// Whether no further request is to be made: the last page has been seen,
    /// or a request has failed.
    pub fn is_exhausted(&self) -> (exhausted: bool)
        ensures
            exhausted == self@.exhausted,
    {
        self.exhausted
    }
}

} // verus!
