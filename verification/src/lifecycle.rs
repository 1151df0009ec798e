//! The index lifecycle manager: a zero-downtime rebuild as a plan of
//! remote calls, and the retirement of the indices it replaces.
//!
//! A rebuild never touches the index the alias serves: it creates a fresh,
//! stamp-named index, loads it chunk by chunk, and only then repoints the
//! alias in one atomic multi-action request that unbinds every old index
//! and binds the new one. The old indices come back as the retire list.

use vstd::prelude::*;

use crate::clock::{timestamp_chars, push_timestamp, Timestamp};
use crate::elastic::Series;
use crate::error::Error;
use crate::bulk::{bulk_insert_bodies, insert_bodies_spec};
use crate::json::{join_seq, json_quoted, push_char, push_quoted};
use crate::request::{Method, Request, RequestView};
use crate::responses::{alias_names_of, parse_alias_names};
use crate::bulk::{bulk_insert_body_spec, lemma_chunked_inserts_cover};
use crate::elastic::SeriesView;
use crate::json::concat_all;

verus! {

/// The name of a rebuilt index: the alias, an underscore, and the sortable
/// stamp, so rebuilds never collide and sort chronologically.
pub open spec fn index_name_spec(alias: Seq<char>, ts: Timestamp) -> Seq<char> {
    alias + seq!['_'] + timestamp_chars(ts)
}

pub fn index_name(alias: &str, ts: &Timestamp) -> (r: String)
    requires
        ts.wf(),
    ensures
        r@ == index_name_spec(alias@, *ts),
{
    let mut out = String::new();
    out.append(alias);
    push_char(&mut out, '_');
    push_timestamp(&mut out, ts);
    proof {
        assert(out@ =~= index_name_spec(alias@, *ts));
    }
    out
}

/// The settings and field mappings a new index is created with: the romaji
/// analyzer, and one field per supported language beside the exact-match
/// main title and the live-catalog titles.
pub open spec fn mappings_spec() -> Seq<char> {
    "{\"settings\":{\"analysis\":{\"analyzer\":{\"romaji\":{\"type\":\"custom\",\"tokenizer\":\"standard\",\"char_filter\":[],\"filter\":[\"word_delimiter\",\"lowercase\"]}}}},\"mappings\":{\"series\":{\"_all\":{\"enabled\":false},\"properties\":{\"main_title\":{\"type\":\"string\",\"index\":\"not_analyzed\"},\"titles\":{\"properties\":{\"x-jat\":{\"type\":\"string\",\"analyzer\":\"romaji\"},\"ja\":{\"type\":\"string\",\"analyzer\":\"cjk\"},\"en\":{\"type\":\"string\",\"analyzer\":\"english\"}}},\"clubdam_titles\":{\"type\":\"string\",\"analyzer\":\"cjk\"}}}}}"@
}

pub fn mappings() -> (r: String)
    ensures
        r@ == mappings_spec(),
{
    String::from_str(
        "{\"settings\":{\"analysis\":{\"analyzer\":{\"romaji\":{\"type\":\"custom\",\"tokenizer\":\"standard\",\"char_filter\":[],\"filter\":[\"word_delimiter\",\"lowercase\"]}}}},\"mappings\":{\"series\":{\"_all\":{\"enabled\":false},\"properties\":{\"main_title\":{\"type\":\"string\",\"index\":\"not_analyzed\"},\"titles\":{\"properties\":{\"x-jat\":{\"type\":\"string\",\"analyzer\":\"romaji\"},\"ja\":{\"type\":\"string\",\"analyzer\":\"cjk\"},\"en\":{\"type\":\"string\",\"analyzer\":\"english\"}}},\"clubdam_titles\":{\"type\":\"string\",\"analyzer\":\"cjk\"}}}}}",
    )
}

/// One action of the atomic alias update.
pub enum AliasActionView {
    Remove(Seq<char>),
    Add(Seq<char>),
}

/// Constructor of a remove action, for mapping over the old indices.
pub open spec fn remove_action() -> spec_fn(Seq<char>) -> AliasActionView {
    |ix: Seq<char>| AliasActionView::Remove(ix)
}

/// The action list of a swap: unbind every old index, then bind the new
/// one, all in one request.
pub open spec fn swap_actions(old: Seq<Seq<char>>, new: Seq<char>) -> Seq<AliasActionView> {
    old.map_values(remove_action()).push(AliasActionView::Add(new))
}

/// Renderer of one alias action as JSON.
pub open spec fn render_alias_action(alias: Seq<char>) -> spec_fn(AliasActionView) -> Seq<char> {
    |a: AliasActionView|
        match a {
            AliasActionView::Remove(ix) => "{\"remove\":{\"index\":"@ + json_quoted(ix)
                + ",\"alias\":"@ + json_quoted(alias) + "}}"@,
            AliasActionView::Add(ix) => "{\"add\":{\"index\":"@ + json_quoted(ix) + ",\"alias\":"@
                + json_quoted(alias) + "}}"@,
        }
}

/// The body of the atomic alias update.
pub open spec fn alias_swap_body_spec(alias: Seq<char>, old: Seq<Seq<char>>, new: Seq<char>) -> Seq<
    char,
> {
    "{\"actions\":["@ + join_seq(swap_actions(old, new), render_alias_action(alias), seq![','])
        + "]}"@
}

pub fn alias_swap_body(alias: &str, old_indices: &Vec<String>, new_index: &str) -> (r: String)
    ensures
        r@ == alias_swap_body_spec(alias@, old_indices.deep_view(), new_index@),
{
    let ghost acts = swap_actions(old_indices.deep_view(), new_index@);
    let ghost render = render_alias_action(alias@);
    let mut out = String::new();
    out.append("{\"actions\":[");
    proof {
        assert(acts.len() == old_indices.deep_view().len() + 1);
    }
    let mut i: usize = 0;
    while i < old_indices.len()
        invariant
            i <= old_indices@.len(),
            acts == swap_actions(old_indices.deep_view(), new_index@),
            render == render_alias_action(alias@),
            acts.len() == old_indices@.len() + 1,
            out@ == "{\"actions\":["@ + join_seq(acts.take(i as int), render, seq![',']),
        decreases old_indices@.len() - i,
    {
        proof {
            assert(acts[i as int] == AliasActionView::Remove(old_indices.deep_view()[i as int]));
            assert(old_indices.deep_view()[i as int] == old_indices@[i as int]@);
            assert(acts.take(i as int + 1).drop_last() =~= acts.take(i as int));
            assert(acts.take(i as int + 1).last() == acts[i as int]);
        }
        if i > 0 {
            push_char(&mut out, ',');
        }
        out.append("{\"remove\":{\"index\":");
        push_quoted(&mut out, old_indices[i].as_str());
        out.append(",\"alias\":");
        push_quoted(&mut out, alias);
        out.append("}}");
        proof {
            assert(out@ =~= "{\"actions\":["@ + join_seq(acts.take(i as int + 1), render, seq![',']));
        }
        i += 1;
    }
    if old_indices.len() > 0 {
        push_char(&mut out, ',');
    }
    out.append("{\"add\":{\"index\":");
    push_quoted(&mut out, new_index);
    out.append(",\"alias\":");
    push_quoted(&mut out, alias);
    out.append("}}");
    out.append("]}");
    proof {
        assert(acts.last() == AliasActionView::Add(new_index@));
        assert(acts.drop_last() =~= acts.take(old_indices@.len() as int));
        if old_indices@.len() == 0 {
            assert(acts.len() == 1);
            assert(join_seq(acts, render, seq![',']) == render(acts[0]));
        }
        assert(out@ =~= alias_swap_body_spec(alias@, old_indices.deep_view(), new_index@));
    }
    out
}

/// The concrete indices an alias resolves to after a list of actions is
/// applied to the set it resolved to before.
pub open spec fn apply_alias_actions(bound: Set<Seq<char>>, acts: Seq<AliasActionView>) -> Set<
    Seq<char>,
>
    decreases acts.len(),
{
    if acts.len() == 0 {
        bound
    } else {
        let prev = apply_alias_actions(bound, acts.drop_last());
        match acts.last() {
            AliasActionView::Remove(ix) => prev.remove(ix),
            AliasActionView::Add(ix) => prev.insert(ix),
        }
    }
}

proof fn lemma_apply_removes(bound: Set<Seq<char>>, old: Seq<Seq<char>>)
    ensures
        forall|x: Seq<char>|
            apply_alias_actions(bound, old.map_values(remove_action())).contains(x) <==> (
            bound.contains(x) && !old.contains(x)),
    decreases old.len(),
{
    let acts = old.map_values(remove_action());
    if old.len() == 0 {
        assert(acts.len() == 0);
        assert(forall|x: Seq<char>| !old.contains(x));
    } else {
        let acts_prev = old.drop_last().map_values(remove_action());
        assert(acts.drop_last() =~= acts_prev);
        assert(acts.last() == AliasActionView::Remove(old.last()));
        lemma_apply_removes(bound, old.drop_last());
        assert forall|x: Seq<char>|
            apply_alias_actions(bound, acts).contains(x) <==> (bound.contains(x) && !old.contains(
                x,
            )) by {
            assert(old.contains(x) <==> (old.drop_last().contains(x) || old.last() == x)) by {
                if old.contains(x) {
                    let i = choose|i: int| 0 <= i < old.len() && old[i] == x;
                    if i < old.len() - 1 {
                        assert(old.drop_last()[i] == x);
                    }
                }
                if old.drop_last().contains(x) {
                    let i = choose|i: int| 0 <= i < old.len() - 1 && old.drop_last()[i] == x;
                    assert(old[i] == x);
                }
            }
        }
    }
}

/// After the swap the alias resolves to exactly the new index: provided
/// every index it resolved to before stands in the remove list, the action
/// list leaves the new index bound and nothing else.
pub proof fn lemma_swap_repoints_alias(bound: Set<Seq<char>>, old: Seq<Seq<char>>, new: Seq<char>)
    requires
        forall|x: Seq<char>| bound.contains(x) ==> old.contains(x),
    ensures
        apply_alias_actions(bound, swap_actions(old, new)) =~= Set::<Seq<char>>::empty().insert(
            new,
        ),
{
    let acts = swap_actions(old, new);
    let racts = old.map_values(remove_action());
    assert(acts.len() == old.len() + 1);
    assert(acts.drop_last() =~= racts);
    assert(acts.last() == AliasActionView::Add(new));
    lemma_apply_removes(bound, old);
    let prev = apply_alias_actions(bound, racts);
    assert(apply_alias_actions(bound, acts.drop_last()) == prev);
    assert(apply_alias_actions(bound, acts) == prev.insert(new));
    assert forall|x: Seq<char>|
        apply_alias_actions(bound, acts).contains(x) <==> x == new by {
        assert(prev.insert(new).contains(x) <==> (x == new || prev.contains(x)));
        assert(prev.contains(x) <==> (bound.contains(x) && !old.contains(x)));
    }
}

/// A bulk-load path under an index: the document type between index and
/// endpoint, and the visibility-wait flag as a query parameter.
pub open spec fn bulk_path_spec(index: Seq<char>, doc_type: Seq<char>, wait: bool) -> Seq<char> {
    index + seq!['/'] + doc_type + "/_bulk"@ + (if wait {
        "?refresh=wait_for"@
    } else {
        Seq::<char>::empty()
    })
}

pub fn bulk_path(index: &str, doc_type: &str, wait: bool) -> (r: String)
    ensures
        r@ == bulk_path_spec(index@, doc_type@, wait),
{
    let mut out = String::new();
    out.append(index);
    push_char(&mut out, '/');
    out.append(doc_type);
    out.append("/_bulk");
    if wait {
        out.append("?refresh=wait_for");
    }
    proof {
        assert(out@ =~= bulk_path_spec(index@, doc_type@, wait));
    }
    out
}

/// A list of bulk-load requests: one PUT of each body, all to one path.
pub open spec fn is_bulk_requests(reqs: Seq<RequestView>, path: Seq<char>, bodies: Seq<Seq<char>>) -> bool {
    &&& reqs.len() == bodies.len()
    &&& forall|k: int|
        0 <= k < reqs.len() ==> {
            &&& (#[trigger] reqs[k]).method == Method::Put
            &&& reqs[k].path == path
            &&& reqs[k].body == Some(bodies[k])
        }
}

/// The full plan of one rebuild, to be executed in order: create the
/// stamp-named index, load every chunk, swap the alias; the indices the
/// alias pointed to before are the retire list.
pub struct RebuildPlan {
    pub index_name: String,
    pub create: Request,
    pub inserts: Vec<Request>,
    pub swap: Request,
    pub retire: Vec<String>,
}

/// Plan a rebuild from the documents, the batch size, and the indices the
/// alias currently resolves to. The caller performs the requests in plan
/// order and aborts on the first failure; until the swap request succeeds
/// the alias is untouched.
pub fn rebuild_plan(
    alias: &str,
    doc_type: &str,
    ts: &Timestamp,
    docs: &Vec<Series>,
    chunk_size: usize,
    should_wait: bool,
    old_indices: Vec<String>,
) -> (r: RebuildPlan)
    requires
        ts.wf(),
        chunk_size >= 1,
    ensures
        r.index_name@ == index_name_spec(alias@, *ts),
        r.create@.method == Method::Put,
        r.create@.path == index_name_spec(alias@, *ts),
        r.create@.body == Some(mappings_spec()),
        is_bulk_requests(
            r.inserts.deep_view(),
            bulk_path_spec(index_name_spec(alias@, *ts), doc_type@, should_wait),
            insert_bodies_spec(docs.deep_view(), chunk_size as int),
        ),
        r.swap@.method == Method::Post,
        r.swap@.path == "_aliases"@,
        r.swap@.body == Some(
            alias_swap_body_spec(alias@, old_indices.deep_view(), index_name_spec(alias@, *ts)),
        ),
        r.retire == old_indices,
{
    let iname = index_name(alias, ts);
    let create = Request {
        method: Method::Put,
        path: iname.clone(),
        body: Some(mappings()),
    };
    let bpath = bulk_path(iname.as_str(), doc_type, should_wait);
    let bodies = bulk_insert_bodies(docs, chunk_size);
    let ghost bodies_view = bodies.deep_view();
    let mut inserts: Vec<Request> = Vec::new();
    let mut k: usize = 0;
    while k < bodies.len()
        invariant
            k <= bodies@.len(),
            bodies_view == bodies.deep_view(),
            bodies_view.len() == bodies@.len(),
            is_bulk_requests(inserts.deep_view(), bpath@, bodies_view.take(k as int)),
        decreases bodies@.len() - k,
    {
        let ghost before = inserts.deep_view();
        let req = Request { method: Method::Put, path: bpath.clone(), body: Some(bodies[k].clone()) };
        proof {
            assert(req@.path == bpath@);
            assert(req@.body == Some(bodies_view[k as int])) by {
                assert(bodies_view[k as int] == bodies@[k as int]@);
            }
        }
        inserts.push(req);
        proof {
            assert(inserts.deep_view() =~= before.push(req@));
            assert(bodies_view.take(k as int + 1).drop_last() =~= bodies_view.take(k as int));
            assert forall|w: int|
                0 <= w < k + 1 implies {
                &&& (#[trigger] inserts.deep_view()[w]).method == Method::Put
                &&& inserts.deep_view()[w].path == bpath@
                &&& inserts.deep_view()[w].body == Some(bodies_view.take(k as int + 1)[w])
            } by {
                if w < k {
                    assert(inserts.deep_view()[w] == before[w]);
                    assert(bodies_view.take(k as int + 1)[w] == bodies_view.take(k as int)[w]);
                } else {
                    assert(inserts.deep_view()[w] == req@);
                    assert(bodies_view.take(k as int + 1)[w] == bodies_view[k as int]);
                }
            }
        }
        k += 1;
    }
    proof {
        assert(bodies_view.take(bodies_view.len() as int) =~= bodies_view);
    }
    let swap_body = alias_swap_body(alias, &old_indices, iname.as_str());
    let swap = Request {
        method: Method::Post,
        path: String::from_str("_aliases"),
        body: Some(swap_body),
    };
    RebuildPlan { index_name: iname, create, inserts, swap, retire: old_indices }
}

/// One DELETE per retired index; a failure of one is reported and the rest
/// are still attempted, since leftover indices cost storage but no
/// correctness.
pub fn retire_plan(indices: &Vec<String>) -> (r: Vec<Request>)
    ensures
        r@.len() == indices@.len(),
        forall|k: int|
            0 <= k < r@.len() ==> {
                &&& (#[trigger] r@[k])@.method == Method::Delete
                &&& r@[k]@.path == indices@[k]@
                &&& r@[k]@.body is None
            },
{
    let mut out: Vec<Request> = Vec::new();
    let mut k: usize = 0;
    while k < indices.len()
        invariant
            k <= indices@.len(),
            out@.len() == k,
            forall|w: int|
                0 <= w < k ==> {
                    &&& (#[trigger] out@[w])@.method == Method::Delete
                    &&& out@[w]@.path == indices@[w]@
                    &&& out@[w]@.body is None
                },
        decreases indices@.len() - k,
    {
        out.push(Request { method: Method::Delete, path: indices[k].clone(), body: None });
        k += 1;
    }
    out
}

/// Decode the alias listing into the index names currently bound: the keys
/// of the response object. A body that is not a JSON object is a protocol
/// error carrying the offending text.
pub fn indexes_for_alias(body: &str) -> (r: Result<Vec<String>, Error>)
    ensures
        match alias_names_of(body@) {
            Some(names) => r matches Ok(v) && v.deep_view() == names,
            None => r matches Err(e) && e matches Error::UnexpectedResponse(p, b) && p@
                == "_aliases"@ && b@ == body@,
        },
{
    match parse_alias_names(body) {
        Some(v) => Ok(v),
        None => Err(
            Error::UnexpectedResponse(String::from_str("_aliases"), body.to_owned()),
        ),
    }
}


/// The round trip of one rebuild: after the plan's requests succeed in
/// order, resolving the alias yields exactly the one new index — every
/// index bound before the swap stood in the remove list — and that index
/// was sent every document the rebuild was given, since the chunked load
/// bodies concatenate to the body of the whole collection.
pub proof fn lemma_rebuild_round_trip(
    alias: Seq<char>,
    ts: Timestamp,
    docs: Seq<SeriesView>,
    chunk_size: int,
    old: Seq<Seq<char>>,
    bound: Set<Seq<char>>,
)
    requires
        chunk_size >= 1,
        forall|x: Seq<char>| bound.contains(x) ==> old.contains(x),
    ensures
        apply_alias_actions(bound, swap_actions(old, index_name_spec(alias, ts)))
            =~= Set::<Seq<char>>::empty().insert(index_name_spec(alias, ts)),
        concat_all(insert_bodies_spec(docs, chunk_size)) == bulk_insert_body_spec(docs),
{
    lemma_swap_repoints_alias(bound, old, index_name_spec(alias, ts));
    lemma_chunked_inserts_cover(docs, chunk_size);
}

} // verus!
