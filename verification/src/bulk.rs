//! The batch writer: serialization of documents and of bulk actions into
//! newline-delimited bulk request bodies, chunked by a batch size.
//!
//! Each body is an alternation of action lines and document lines (delete
//! actions have no document line), every line terminated by a newline, as
//! the engine's bulk endpoint expects. Chunking loses nothing: the chunked
//! bodies concatenate to the body of the whole collection.

use vstd::prelude::*;

use crate::elastic::{Series, SeriesView, TitlesByLanguage};
use crate::json::{
    join_seq, json_quoted, json_str_array, push_char, push_quoted, push_quoted_array,
};
use crate::json::{concat_all, lemma_concat_all_append};

verus! {

/// Renderer of one language entry of a document's titles object.
pub open spec fn render_lang_entry() -> spec_fn((Seq<char>, Seq<Seq<char>>)) -> Seq<char> {
    |e: (Seq<char>, Seq<Seq<char>>)| json_quoted(e.0) + seq![':'] + json_str_array(e.1)
}

/// The JSON object of a document's per-language titles.
pub open spec fn titles_json(entries: Seq<(Seq<char>, Seq<Seq<char>>)>) -> Seq<char> {
    seq!['{'] + join_seq(entries, render_lang_entry(), seq![',']) + seq!['}']
}

/// An optional JSON string: `null` when absent.
pub open spec fn opt_quoted(o: Option<Seq<char>>) -> Seq<char> {
    match o {
        Some(s) => json_quoted(s),
        None => "null"@,
    }
}

/// An optional JSON array of strings: `null` when absent.
pub open spec fn opt_str_array(o: Option<Seq<Seq<char>>>) -> Seq<char> {
    match o {
        Some(xs) => json_str_array(xs),
        None => "null"@,
    }
}

/// The JSON document of one series, as the bulk and insert requests carry
/// it.
pub open spec fn series_json(v: SeriesView) -> Seq<char> {
    "{\"id\":"@ + json_quoted(v.id) + ",\"main_title\":"@ + opt_quoted(v.main_title)
        + ",\"titles\":"@ + titles_json(v.titles) + ",\"clubdam_titles\":"@ + opt_str_array(
        v.clubdam_titles,
    ) + "}"@
}

/// The action line announcing a full-document insert under an id.
pub open spec fn index_action_json(id: Seq<char>) -> Seq<char> {
    "{\"index\":{\"_id\":"@ + json_quoted(id) + "}}"@
}

/// The action line announcing a partial-document update under an id.
pub open spec fn update_action_json(id: Seq<char>) -> Seq<char> {
    "{\"update\":{\"_id\":"@ + json_quoted(id) + "}}"@
}

/// The action line deleting an id.
pub open spec fn delete_action_json(id: Seq<char>) -> Seq<char> {
    "{\"delete\":{\"_id\":"@ + json_quoted(id) + "}}"@
}

/// The partial document that merges live-catalog titles into an indexed
/// document.
pub open spec fn update_doc_json(titles: Seq<Seq<char>>) -> Seq<char> {
    "{\"doc\":{\"clubdam_titles\":"@ + json_str_array(titles) + "}}"@
}

/// The bulk body inserting every document of `docs`, in order.
pub open spec fn bulk_insert_body_spec(docs: Seq<SeriesView>) -> Seq<char>
    decreases docs.len(),
{
    if docs.len() == 0 {
        Seq::<char>::empty()
    } else {
        bulk_insert_body_spec(docs.drop_last()) + index_action_json(docs.last().id) + seq!['\n']
            + series_json(docs.last()) + seq!['\n']
    }
}

/// The bulk body applying every update of `items`: each target document id
/// with the live-catalog titles to merge into it.
pub open spec fn bulk_update_body_spec(items: Seq<(Seq<char>, Seq<Seq<char>>)>) -> Seq<char>
    decreases items.len(),
{
    if items.len() == 0 {
        Seq::<char>::empty()
    } else {
        bulk_update_body_spec(items.drop_last()) + update_action_json(items.last().0) + seq!['\n']
            + update_doc_json(items.last().1) + seq!['\n']
    }
}

/// The bulk body deleting every id of `ids`.
pub open spec fn bulk_delete_body_spec(ids: Seq<Seq<char>>) -> Seq<char>
    decreases ids.len(),
{
    if ids.len() == 0 {
        Seq::<char>::empty()
    } else {
        bulk_delete_body_spec(ids.drop_last()) + delete_action_json(ids.last()) + seq!['\n']
    }
}

/// The insert bodies for `docs` split into chunks of at most `size`
/// documents: full chunks first, a shorter final chunk if one is left.
pub open spec fn insert_bodies_spec(docs: Seq<SeriesView>, size: int) -> Seq<Seq<char>>
    decreases docs.len(),
{
    if size <= 0 || docs.len() == 0 {
        Seq::<Seq<char>>::empty()
    } else if docs.len() <= size {
        seq![bulk_insert_body_spec(docs)]
    } else {
        seq![bulk_insert_body_spec(docs.take(size))] + insert_bodies_spec(docs.skip(size), size)
    }
}

/// The update bodies for `items` split into chunks of at most `size`.
pub open spec fn update_bodies_spec(items: Seq<(Seq<char>, Seq<Seq<char>>)>, size: int) -> Seq<
    Seq<char>,
>
    decreases items.len(),
{
    if size <= 0 || items.len() == 0 {
        Seq::<Seq<char>>::empty()
    } else if items.len() <= size {
        seq![bulk_update_body_spec(items)]
    } else {
        seq![bulk_update_body_spec(items.take(size))] + update_bodies_spec(items.skip(size), size)
    }
}

fn push_titles_json(out: &mut String, t: &TitlesByLanguage)
    ensures
        final(out)@ == old(out)@ + titles_json(t@),
{
    push_char(out, '{');
    let ghost all = t@;
    let mut i: usize = 0;
    while i < t.0.len()
        invariant
            i <= t.0@.len(),
            all == t@,
            all.len() == t.0@.len(),
            out@ == old(out)@ + seq!['{'] + join_seq(
                all.take(i as int),
                render_lang_entry(),
                seq![','],
            ),
        decreases t.0@.len() - i,
    {
        proof {
            assert(all[i as int] == (t.0@[i as int].0@, t.0@[i as int].1.deep_view()));
            assert(all.take(i as int + 1).drop_last() =~= all.take(i as int));
            assert(all.take(i as int + 1).last() == all[i as int]);
        }
        if i > 0 {
            push_char(out, ',');
        }
        push_quoted(out, t.0[i].0.as_str());
        push_char(out, ':');
        push_quoted_array(out, &t.0[i].1);
        proof {
            assert(out@ =~= old(out)@ + seq!['{'] + join_seq(
                all.take(i as int + 1),
                render_lang_entry(),
                seq![','],
            ));
        }
        i += 1;
    }
    push_char(out, '}');
    proof {
        assert(all.take(all.len() as int) =~= all);
        assert(final(out)@ =~= old(out)@ + titles_json(all));
    }
}

/// Serialize one document.
pub fn push_series_json(out: &mut String, s: &Series)
    ensures
        final(out)@ == old(out)@ + series_json(s@),
{
    out.append("{\"id\":");
    push_quoted(out, s.id.as_str());
    out.append(",\"main_title\":");
    match &s.main_title {
        Some(m) => push_quoted(out, m.as_str()),
        None => out.append("null"),
    }
    out.append(",\"titles\":");
    push_titles_json(out, &s.titles);
    out.append(",\"clubdam_titles\":");
    match &s.clubdam_titles {
        Some(xs) => push_quoted_array(out, xs),
        None => out.append("null"),
    }
    out.append("}");
    proof {
        assert(final(out)@ =~= old(out)@ + series_json(s@));
    }
}

/// The bulk bodies inserting `docs`, chunked by `size`.
pub fn bulk_insert_bodies(docs: &Vec<Series>, size: usize) -> (r: Vec<String>)
    requires
        size >= 1,
    ensures
        r.deep_view() == insert_bodies_spec(docs.deep_view(), size as int),
{
    let ghost all = docs.deep_view();
    let mut bodies: Vec<String> = Vec::new();
    let mut start: usize = 0;
    proof {
        assert(all.skip(0) =~= all);
        assert(bodies.deep_view() + insert_bodies_spec(all.skip(0), size as int)
            =~= insert_bodies_spec(all, size as int));
    }
    while start < docs.len()
        invariant
            size >= 1,
            all == docs.deep_view(),
            all.len() == docs@.len(),
            start <= docs@.len(),
            insert_bodies_spec(all, size as int) == bodies.deep_view() + insert_bodies_spec(
                all.skip(start as int),
                size as int,
            ),
        decreases docs@.len() - start,
    {
        let ghost bodies_before = bodies.deep_view();
        let ghost rest = all.skip(start as int);
        let end = if docs.len() - start < size {
            docs.len()
        } else {
            start + size
        };
        let mut body = String::new();
        let mut i = start;
        while i < end
            invariant
                start <= i <= end <= docs@.len(),
                all == docs.deep_view(),
                all.len() == docs@.len(),
                body@ == bulk_insert_body_spec(all.subrange(start as int, i as int)),
            decreases end - i,
        {
            proof {
                let sub = all.subrange(start as int, i as int + 1);
                assert(sub.drop_last() =~= all.subrange(start as int, i as int));
                assert(sub.last() == all[i as int]);
                assert(all[i as int] == docs@[i as int]@);
            }
            push_id_action(&mut body, "{\"index\":{\"_id\":", &docs[i].id);
            push_char(&mut body, '\n');
            push_series_json(&mut body, &docs[i]);
            push_char(&mut body, '\n');
            proof {
                assert(body@ =~= bulk_insert_body_spec(
                    all.subrange(start as int, i as int + 1),
                ));
            }
            i += 1;
        }
        bodies.push(body);
        proof {
            let chunk = all.subrange(start as int, end as int);
            if rest.len() <= size {
                assert(chunk =~= rest);
                assert(all.skip(end as int) =~= rest.skip(rest.len() as int));
                assert(all.skip(end as int).len() == 0);
                assert(insert_bodies_spec(all.skip(end as int), size as int)
                    =~= Seq::<Seq<char>>::empty());
                assert(insert_bodies_spec(rest, size as int) =~= seq![bulk_insert_body_spec(rest)]);
            } else {
                assert(chunk =~= rest.take(size as int));
                assert(all.skip(end as int) =~= rest.skip(size as int));
            }
            assert(bodies.deep_view() =~= bodies_before.push(bulk_insert_body_spec(chunk)));
            assert(bodies.deep_view() + insert_bodies_spec(all.skip(end as int), size as int)
                =~= bodies_before + insert_bodies_spec(rest, size as int));
        }
        start = end;
    }
    proof {
        assert(all.skip(start as int).len() == 0);
        assert(insert_bodies_spec(all.skip(start as int), size as int)
            =~= Seq::<Seq<char>>::empty());
        assert(bodies.deep_view() =~= bodies.deep_view() + insert_bodies_spec(
            all.skip(start as int),
            size as int,
        ));
    }
    bodies
}

/// The bulk bodies applying the updates of `items`, chunked by `size`.
pub fn bulk_update_bodies(items: &Vec<(String, Vec<String>)>, size: usize) -> (r: Vec<String>)
    requires
        size >= 1,
    ensures
        r.deep_view() == update_bodies_spec(items.deep_view(), size as int),
{
    let ghost all = items.deep_view();
    let mut bodies: Vec<String> = Vec::new();
    let mut start: usize = 0;
    proof {
        assert(all.skip(0) =~= all);
        assert(bodies.deep_view() + update_bodies_spec(all.skip(0), size as int)
            =~= update_bodies_spec(all, size as int));
    }
    while start < items.len()
        invariant
            size >= 1,
            all == items.deep_view(),
            all.len() == items@.len(),
            start <= items@.len(),
            update_bodies_spec(all, size as int) == bodies.deep_view() + update_bodies_spec(
                all.skip(start as int),
                size as int,
            ),
        decreases items@.len() - start,
    {
        let ghost bodies_before = bodies.deep_view();
        let ghost rest = all.skip(start as int);
        let end = if items.len() - start < size {
            items.len()
        } else {
            start + size
        };
        let mut body = String::new();
        let mut i = start;
        while i < end
            invariant
                start <= i <= end <= items@.len(),
                all == items.deep_view(),
                all.len() == items@.len(),
                body@ == bulk_update_body_spec(all.subrange(start as int, i as int)),
            decreases end - i,
        {
            proof {
                let sub = all.subrange(start as int, i as int + 1);
                assert(sub.drop_last() =~= all.subrange(start as int, i as int));
                assert(sub.last() == all[i as int]);
                assert(all[i as int] == (items@[i as int].0@, items@[i as int].1.deep_view()));
            }
            push_id_action(&mut body, "{\"update\":{\"_id\":", &items[i].0);
            push_char(&mut body, '\n');
            body.append("{\"doc\":{\"clubdam_titles\":");
            push_quoted_array(&mut body, &items[i].1);
            body.append("}}");
            push_char(&mut body, '\n');
            proof {
                assert(body@ =~= bulk_update_body_spec(
                    all.subrange(start as int, i as int + 1),
                ));
            }
            i += 1;
        }
        bodies.push(body);
        proof {
            let chunk = all.subrange(start as int, end as int);
            if rest.len() <= size {
                assert(chunk =~= rest);
                assert(all.skip(end as int) =~= rest.skip(rest.len() as int));
                assert(all.skip(end as int).len() == 0);
                assert(update_bodies_spec(all.skip(end as int), size as int)
                    =~= Seq::<Seq<char>>::empty());
                assert(update_bodies_spec(rest, size as int) =~= seq![bulk_update_body_spec(rest)]);
            } else {
                assert(chunk =~= rest.take(size as int));
                assert(all.skip(end as int) =~= rest.skip(size as int));
            }
            assert(bodies.deep_view() =~= bodies_before.push(bulk_update_body_spec(chunk)));
            assert(bodies.deep_view() + update_bodies_spec(all.skip(end as int), size as int)
                =~= bodies_before + update_bodies_spec(rest, size as int));
        }
        start = end;
    }
    proof {
        assert(all.skip(start as int).len() == 0);
        assert(update_bodies_spec(all.skip(start as int), size as int)
            =~= Seq::<Seq<char>>::empty());
        assert(bodies.deep_view() =~= bodies.deep_view() + update_bodies_spec(
            all.skip(start as int),
            size as int,
        ));
    }
    bodies
}

/// The bulk body deleting one page of ids.
pub fn bulk_delete_body(ids: &Vec<String>) -> (r: String)
    ensures
        r@ == bulk_delete_body_spec(ids.deep_view()),
{
    let ghost all = ids.deep_view();
    let mut body = String::new();
    let mut i: usize = 0;
    while i < ids.len()
        invariant
            i <= ids@.len(),
            all == ids.deep_view(),
            all.len() == ids@.len(),
            body@ == bulk_delete_body_spec(all.take(i as int)),
        decreases ids@.len() - i,
    {
        proof {
            assert(all.take(i as int + 1).drop_last() =~= all.take(i as int));
            assert(all.take(i as int + 1).last() == all[i as int]);
            assert(all[i as int] == ids@[i as int]@);
        }
        push_id_action(&mut body, "{\"delete\":{\"_id\":", &ids[i]);
        push_char(&mut body, '\n');
        proof {
            assert(body@ =~= bulk_delete_body_spec(all.take(i as int + 1)));
        }
        i += 1;
    }
    proof {
        assert(all.take(all.len() as int) =~= all);
    }
    body
}

/// One action line: the given prefix, the quoted id, and the closing
/// braces.
fn push_id_action(out: &mut String, prefix: &str, id: &String)
    ensures
        final(out)@ == old(out)@ + prefix@ + json_quoted(id@) + "}}"@,
{
    out.append(prefix);
    push_quoted(out, id.as_str());
    out.append("}}");
    proof {
        assert(final(out)@ =~= old(out)@ + prefix@ + json_quoted(id@) + "}}"@);
    }
}


/// The insert body of concatenated document lists is the concatenation of
/// their insert bodies.
proof fn lemma_insert_body_distributes(a: Seq<SeriesView>, b: Seq<SeriesView>)
    ensures
        bulk_insert_body_spec(a + b) == bulk_insert_body_spec(a) + bulk_insert_body_spec(b),
    decreases b.len(),
{
    if b.len() == 0 {
        assert(a + b =~= a);
        assert(bulk_insert_body_spec(b) =~= Seq::<char>::empty());
        assert(bulk_insert_body_spec(a) + bulk_insert_body_spec(b) =~= bulk_insert_body_spec(a));
    } else {
        assert((a + b).drop_last() =~= a + b.drop_last());
        assert((a + b).last() == b.last());
        lemma_insert_body_distributes(a, b.drop_last());
        assert(bulk_insert_body_spec(a + b) =~= bulk_insert_body_spec(a) + bulk_insert_body_spec(
            b,
        ));
    }
}

/// Chunking loses no document: the chunked insert bodies concatenate to
/// the insert body of the whole collection, so a rebuild that issues every
/// chunk has sent every document it was given.
pub proof fn lemma_chunked_inserts_cover(docs: Seq<SeriesView>, size: int)
    requires
        size >= 1,
    ensures
        concat_all(insert_bodies_spec(docs, size)) == bulk_insert_body_spec(docs),
    decreases docs.len(),
{
    if docs.len() == 0 {
        assert(concat_all(insert_bodies_spec(docs, size)) =~= bulk_insert_body_spec(docs));
    } else if docs.len() <= size {
        let s = seq![bulk_insert_body_spec(docs)];
        assert(s.drop_last() =~= Seq::<Seq<char>>::empty());
        assert(concat_all(s.drop_last()) =~= Seq::<char>::empty());
        assert(concat_all(s) =~= bulk_insert_body_spec(docs));
    } else {
        let head = seq![bulk_insert_body_spec(docs.take(size))];
        let tail = insert_bodies_spec(docs.skip(size), size);
        lemma_chunked_inserts_cover(docs.skip(size), size);
        lemma_concat_all_append(head, tail);
        assert(head.drop_last() =~= Seq::<Seq<char>>::empty());
        assert(concat_all(head.drop_last()) =~= Seq::<char>::empty());
        assert(concat_all(head) =~= bulk_insert_body_spec(docs.take(size)));
        lemma_insert_body_distributes(docs.take(size), docs.skip(size));
        assert(docs.take(size) + docs.skip(size) =~= docs);
        assert(concat_all(insert_bodies_spec(docs, size)) =~= bulk_insert_body_spec(docs));
    }
}


/// The update body of concatenated update lists is the concatenation of
/// their update bodies.
proof fn lemma_update_body_distributes(
    a: Seq<(Seq<char>, Seq<Seq<char>>)>,
    b: Seq<(Seq<char>, Seq<Seq<char>>)>,
)
    ensures
        bulk_update_body_spec(a + b) == bulk_update_body_spec(a) + bulk_update_body_spec(b),
    decreases b.len(),
{
    if b.len() == 0 {
        assert(a + b =~= a);
        assert(bulk_update_body_spec(b) =~= Seq::<char>::empty());
        assert(bulk_update_body_spec(a) + bulk_update_body_spec(b) =~= bulk_update_body_spec(a));
    } else {
        assert((a + b).drop_last() =~= a + b.drop_last());
        assert((a + b).last() == b.last());
        lemma_update_body_distributes(a, b.drop_last());
        assert(bulk_update_body_spec(a + b) =~= bulk_update_body_spec(a) + bulk_update_body_spec(
            b,
        ));
    }
}

/// Chunking loses no update either: the chunked update bodies concatenate
/// to the update body of the whole queue, so a reconciliation that issues
/// every chunk has patched every matched document it queued.
pub proof fn lemma_chunked_updates_cover(items: Seq<(Seq<char>, Seq<Seq<char>>)>, size: int)
    requires
        size >= 1,
    ensures
        concat_all(update_bodies_spec(items, size)) == bulk_update_body_spec(items),
    decreases items.len(),
{
    if items.len() == 0 {
        assert(concat_all(update_bodies_spec(items, size)) =~= bulk_update_body_spec(items));
    } else if items.len() <= size {
        let s = seq![bulk_update_body_spec(items)];
        assert(s.drop_last() =~= Seq::<Seq<char>>::empty());
        assert(concat_all(s.drop_last()) =~= Seq::<char>::empty());
        assert(concat_all(s) =~= bulk_update_body_spec(items));
    } else {
        let head = seq![bulk_update_body_spec(items.take(size))];
        let tail = update_bodies_spec(items.skip(size), size);
        lemma_chunked_updates_cover(items.skip(size), size);
        lemma_concat_all_append(head, tail);
        assert(head.drop_last() =~= Seq::<Seq<char>>::empty());
        assert(concat_all(head.drop_last()) =~= Seq::<char>::empty());
        assert(concat_all(head) =~= bulk_update_body_spec(items.take(size)));
        lemma_update_body_distributes(items.take(size), items.skip(size));
        assert(items.take(size) + items.skip(size) =~= items);
        assert(concat_all(update_bodies_spec(items, size)) =~= bulk_update_body_spec(items));
    }
}

} // verus!
