//! The cursor pruner: deletion of every document matching a predicate,
//! page by page over a resumable server-side cursor.
//!
//! The pass opens a scroll with the predicate query and a deterministic
//! sort, then alternates: delete the page's ids in one bulk call, fetch the
//! next page with the cursor token. An empty page ends the pass. Deletions
//! commit page by page, so an aborted pass leaves only documents still
//! matching the predicate, and a rerun deletes exactly what is left.

use vstd::prelude::*;

use crate::bulk::{bulk_delete_body, bulk_delete_body_spec};
use crate::error::Error;
use crate::json::{dec_digits, json_quoted, push_char, push_quoted, push_u64};
use crate::lifecycle::bulk_path_spec;
use crate::request::{Method, Request};
use crate::responses::{parse_scroll_page, scroll_page_of};

verus! {

/// The query of the one pruning pass this system runs: every document no
/// live-catalog title confirms, page size as given, sorted by the stable
/// internal order so pages never repeat or skip a document.
pub open spec fn non_clubdam_query_spec(size: nat) -> Seq<char> {
    "{\"query\":{\"bool\":{\"must_not\":{\"exists\":{\"field\":\"clubdam_titles\"}}}},\"sort\":[\"_doc\"],\"fields\":[],\"size\":"@
        + dec_digits(size) + "}"@
}

/// The body resuming a scroll from a cursor token, renewing its lease.
pub open spec fn scroll_continue_spec(scroll_id: Seq<char>) -> Seq<char> {
    "{\"scroll\":\"1m\",\"scroll_id\":"@ + json_quoted(scroll_id) + "}"@
}

/// The path opening a scrolling search under the alias.
pub open spec fn search_scroll_path_spec(alias: Seq<char>) -> Seq<char> {
    alias + "/_search?scroll=1m"@
}

/// The pruner's configuration: where to search and where to delete.
pub struct Pruner {
    pub alias: String,
    pub doc_type: String,
}

/// What one page of the pass demands of the caller.
#[derive(Debug)]
pub enum PruneStep {
    /// Delete this page now, then fetch the next page with the cursor.
    Continue { delete: Request, fetch: Request },
    /// The empty page: the pass is complete.
    Done,
}

/// What the decision on one parsed page must look like: an empty page ends
/// the pass; a page of ids with a cursor is deleted in one bulk call and
/// the cursor fetches on; a page of ids without a cursor is a protocol
/// error, since the pass could not continue without skipping documents.
pub open spec fn prune_step_ok(
    p: Pruner,
    sid: Option<Seq<char>>,
    ids: Seq<Seq<char>>,
    r: Result<PruneStep, Error>,
) -> bool {
    &&& (ids.len() == 0 ==> (r matches Ok(s) && s is Done))
    &&& (ids.len() > 0 ==> match sid {
        Some(c) => (r matches Ok(s) && s matches PruneStep::Continue { delete, fetch }
            && delete@.method == Method::Put && delete@.path == bulk_path_spec(
            p.alias@,
            p.doc_type@,
            false,
        ) && delete@.body == Some(bulk_delete_body_spec(ids)) && fetch@.method == Method::Post
            && fetch@.path == "_search/scroll"@ && fetch@.body == Some(scroll_continue_spec(c))),
        None => (r matches Err(e) && e matches Error::UnexpectedResponse(pth, b) && pth@
            == "_search/scroll"@),
    })
}

impl Pruner {
    pub fn new(alias: String, doc_type: String) -> (r: Pruner)
        ensures
            r.alias == alias,
            r.doc_type == doc_type,
    {
        Pruner { alias, doc_type }
    }

    /// The request opening the pass: the predicate query, the page size,
    /// and a one-minute cursor lease.
    pub fn initial_request(&self, page_size: usize) -> (r: Request)
        ensures
            r@.method == Method::Post,
            r@.path == search_scroll_path_spec(self.alias@),
            r@.body == Some(non_clubdam_query_spec(page_size as nat)),
    {
        let mut path = String::new();
        path.append(self.alias.as_str());
        path.append("/_search?scroll=1m");
        let mut body = String::new();
        body.append(
            "{\"query\":{\"bool\":{\"must_not\":{\"exists\":{\"field\":\"clubdam_titles\"}}}},\"sort\":[\"_doc\"],\"fields\":[],\"size\":",
        );
        push_u64(&mut body, page_size as u64);
        push_char(&mut body, '}');
        proof {
            reveal_strlit("}");
            assert("}"@ =~= seq!['}']);
            assert(path@ =~= search_scroll_path_spec(self.alias@));
            assert(body@ =~= non_clubdam_query_spec(page_size as nat));
        }
        Request { method: Method::Post, path, body: Some(body) }
    }

    /// Decide on one parsed page.
    pub fn on_page(&self, scroll_id: &Option<String>, ids: &Vec<String>) -> (r: Result<
        PruneStep,
        Error,
    >)
        ensures
            prune_step_ok(*self, scroll_id.deep_view(), ids.deep_view(), r),
    {
        if ids.len() == 0 {
            return Ok(PruneStep::Done);
        }
        match scroll_id {
            Some(sid) => {
                let mut dpath = String::new();
                dpath.append(self.alias.as_str());
                push_char(&mut dpath, '/');
                dpath.append(self.doc_type.as_str());
                dpath.append("/_bulk");
                proof {
                    assert(dpath@ =~= bulk_path_spec(self.alias@, self.doc_type@, false));
                }
                let delete = Request {
                    method: Method::Put,
                    path: dpath,
                    body: Some(bulk_delete_body(ids)),
                };
                let mut fbody = String::new();
                fbody.append("{\"scroll\":\"1m\",\"scroll_id\":");
                push_quoted(&mut fbody, sid.as_str());
                push_char(&mut fbody, '}');
                proof {
                    reveal_strlit("}");
                    assert("}"@ =~= seq!['}']);
                    assert(fbody@ =~= scroll_continue_spec(sid@));
                }
                let fetch = Request {
                    method: Method::Post,
                    path: String::from_str("_search/scroll"),
                    body: Some(fbody),
                };
                Ok(PruneStep::Continue { delete, fetch })
            },
            None => Err(
                Error::UnexpectedResponse(
                    String::from_str("_search/scroll"),
                    String::from_str("page of hits without a cursor token"),
                ),
            ),
        }
    }

    /// Decide on one raw response body: the page is extracted, an empty
    /// page ends the pass, any other page is deleted and the cursor
    /// fetches on; a body that does not parse is a protocol error.
    pub fn on_response(&self, body: &str) -> (r: Result<PruneStep, Error>)
        ensures
            match scroll_page_of(body@) {
                Some(page) => prune_step_ok(*self, page.0, page.1, r),
                None => r matches Err(e) && e matches Error::UnexpectedResponse(p, b) && p@
                    == "_search/scroll"@ && b@ == body@,
            },
    {
        match parse_scroll_page(body) {
            Some(page) => self.on_page(&page.0, &page.1),
            None => Err(
                Error::UnexpectedResponse(String::from_str("_search/scroll"), body.to_owned()),
            ),
        }
    }
}

/// The pages a completed pass sees: the snapshot the cursor was opened
/// over, cut into pages of the requested size, full pages first.
pub open spec fn scroll_pages(ids: Seq<Seq<char>>, size: int) -> Seq<Seq<Seq<char>>>
    decreases ids.len(),
{
    if size <= 0 || ids.len() == 0 {
        Seq::<Seq<Seq<char>>>::empty()
    } else if ids.len() <= size {
        seq![ids]
    } else {
        seq![ids.take(size)] + scroll_pages(ids.skip(size), size)
    }
}

/// All the ids of a list of pages, in order.
pub open spec fn concat_ids(pages: Seq<Seq<Seq<char>>>) -> Seq<Seq<char>>
    decreases pages.len(),
{
    if pages.len() == 0 {
        Seq::<Seq<char>>::empty()
    } else {
        concat_ids(pages.drop_last()) + pages.last()
    }
}

proof fn lemma_concat_ids_append(xs: Seq<Seq<Seq<char>>>, ys: Seq<Seq<Seq<char>>>)
    ensures
        concat_ids(xs + ys) == concat_ids(xs) + concat_ids(ys),
    decreases ys.len(),
{
    if ys.len() == 0 {
        assert(xs + ys =~= xs);
        assert(concat_ids(ys) =~= Seq::<Seq<char>>::empty());
        assert(concat_ids(xs) + concat_ids(ys) =~= concat_ids(xs));
    } else {
        assert((xs + ys).drop_last() =~= xs + ys.drop_last());
        assert((xs + ys).last() == ys.last());
        lemma_concat_ids_append(xs, ys.drop_last());
        assert(concat_ids(xs + ys) =~= concat_ids(xs) + concat_ids(ys));
    }
}

/// Pruning is idempotent: a completed pass deletes exactly the documents
/// of its snapshot — every id the cursor was opened over appears on
/// exactly one page, each page is deleted before the next fetch, so after
/// the pass nothing matching the predicate is left. A second pass then
/// opens its cursor over an empty snapshot and sees only the terminating
/// empty page: it deletes zero documents.
pub proof fn lemma_delete_where_idempotent(ids: Seq<Seq<char>>, size: int)
    requires
        size >= 1,
    ensures
        concat_ids(scroll_pages(ids, size)) == ids,
        scroll_pages(Seq::<Seq<char>>::empty(), size) =~= Seq::<Seq<Seq<char>>>::empty(),
    decreases ids.len(),
{
    if ids.len() == 0 {
        assert(concat_ids(scroll_pages(ids, size)) =~= ids);
    } else if ids.len() <= size {
        let s = seq![ids];
        assert(s.drop_last() =~= Seq::<Seq<Seq<char>>>::empty());
        assert(concat_ids(s.drop_last()) =~= Seq::<Seq<char>>::empty());
        assert(concat_ids(s) =~= ids);
    } else {
        let head = seq![ids.take(size)];
        let tail = scroll_pages(ids.skip(size), size);
        lemma_delete_where_idempotent(ids.skip(size), size);
        lemma_concat_ids_append(head, tail);
        assert(head.drop_last() =~= Seq::<Seq<Seq<char>>>::empty());
        assert(concat_ids(head.drop_last()) =~= Seq::<Seq<char>>::empty());
        assert(concat_ids(head) =~= ids.take(size));
        assert(ids.take(size) + ids.skip(size) =~= ids);
        assert(concat_ids(scroll_pages(ids, size)) =~= ids);
    }
}


/// How many pages a pass of `n` stale documents takes: every page but the
/// last is full, so the page count is the least number of pages of
/// `size` that cover the snapshot — five documents at page size two take
/// three pages, and the pass then ends on one further, empty fetch.
pub proof fn lemma_scroll_page_count(ids: Seq<Seq<char>>, size: int)
    requires
        size >= 1,
    ensures
        ids.len() == 0 ==> scroll_pages(ids, size).len() == 0,
        ids.len() > 0 ==> {
            let pages = scroll_pages(ids, size).len() as int;
            size * (pages - 1) < ids.len() <= size * pages
        },
    decreases ids.len(),
{
    if ids.len() == 0 {
    } else if ids.len() <= size {
        assert(scroll_pages(ids, size).len() == 1);
        assert(size * 0 == 0) by (nonlinear_arith);
        assert(size * 1 == size) by (nonlinear_arith);
    } else {
        lemma_scroll_page_count(ids.skip(size), size);
        let rest = scroll_pages(ids.skip(size), size).len() as int;
        assert(ids.skip(size).len() == ids.len() - size);
        assert(scroll_pages(ids, size).len() == 1 + rest);
        assert(size * (rest - 1) < ids.len() - size <= size * rest);
        assert(size * rest == size * (rest - 1) + size) by (nonlinear_arith);
        assert(size * (rest + 1) == size * rest + size) by (nonlinear_arith);
    }
}

} // verus!
