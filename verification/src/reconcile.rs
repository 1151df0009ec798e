//! The reconciliation engine: matching live-catalog entries against the
//! index by batched fuzzy search, and routing each entry to the update or
//! the insert queue.
//!
//! Each batch of entry titles becomes one multi-search request, one query
//! per title, scored over the language fields and a heavily boosted
//! exact-match main title, keeping only the best hit. A matched entry
//! contributes its title to the matched document's live-catalog list,
//! grouped by document id across the whole reconciliation; an unmatched
//! entry becomes a brand-new document whose identity is its title.

use vstd::prelude::*;

use crate::elastic::{Series, SeriesView, TitlesByLanguage};
use crate::error::Error;
use crate::json::{join_seq, json_quoted, json_str_array, push_char, push_quoted, str_eq};
use crate::responses::{msearch_matches_of, parse_msearch_matches};

verus! {

/// Prefix of a per-language search field.
pub open spec fn titles_field() -> spec_fn(Seq<char>) -> Seq<char> {
    |l: Seq<char>| "titles."@ + l
}

/// The fields one query scores over: one per requested language, then the
/// main title boosted tenfold, so an exact canonical-title match always
/// outranks a partial token overlap in another language.
pub open spec fn field_list(langs: Seq<Seq<char>>) -> Seq<Seq<char>> {
    langs.map_values(titles_field()).push("main_title^10"@)
}

/// One query of the multi-search: best hit only, scored over the field
/// list.
pub open spec fn msearch_query_spec(title: Seq<char>, langs: Seq<Seq<char>>) -> Seq<char> {
    "{\"size\":1,\"query\":{\"multi_match\":{\"query\":"@ + json_quoted(title) + ",\"fields\":"@
        + json_str_array(field_list(langs)) + "}}}"@
}

/// The newline-delimited multi-search body: an empty header line and one
/// query per entry title, in order.
pub open spec fn msearch_body_spec(titles: Seq<Seq<char>>, langs: Seq<Seq<char>>) -> Seq<char>
    decreases titles.len(),
{
    if titles.len() == 0 {
        Seq::<char>::empty()
    } else {
        msearch_body_spec(titles.drop_last(), langs) + "{}\n"@ + msearch_query_spec(
            titles.last(),
            langs,
        ) + seq!['\n']
    }
}

fn fields_json(languages: &Vec<String>) -> (r: String)
    ensures
        r@ == json_str_array(field_list(languages.deep_view())),
{
    let ghost flds = field_list(languages.deep_view());
    let mut out = String::new();
    push_char(&mut out, '[');
    proof {
        assert(flds.len() == languages@.len() + 1);
    }
    let mut i: usize = 0;
    while i < languages.len()
        invariant
            i <= languages@.len(),
            flds == field_list(languages.deep_view()),
            flds.len() == languages@.len() + 1,
            out@ == seq!['['] + join_seq(
                flds.take(i as int),
                crate::json::render_quoted(),
                seq![','],
            ),
        decreases languages@.len() - i,
    {
        proof {
            assert(flds[i as int] == "titles."@ + languages.deep_view()[i as int]);
            assert(languages.deep_view()[i as int] == languages@[i as int]@);
            assert(flds.take(i as int + 1).drop_last() =~= flds.take(i as int));
            assert(flds.take(i as int + 1).last() == flds[i as int]);
        }
        if i > 0 {
            push_char(&mut out, ',');
        }
        let mut f = String::from_str("titles.");
        f.append(languages[i].as_str());
        push_quoted(&mut out, f.as_str());
        proof {
            assert(out@ =~= seq!['['] + join_seq(
                flds.take(i as int + 1),
                crate::json::render_quoted(),
                seq![','],
            ));
        }
        i += 1;
    }
    if languages.len() > 0 {
        push_char(&mut out, ',');
    }
    push_quoted(&mut out, "main_title^10");
    push_char(&mut out, ']');
    proof {
        assert(flds.last() == "main_title^10"@);
        assert(flds.drop_last() =~= flds.take(languages@.len() as int));
        if languages@.len() == 0 {
            assert(flds.len() == 1);
            assert(join_seq(flds, crate::json::render_quoted(), seq![',']) == json_quoted(
                flds[0],
            ));
        }
        assert(out@ =~= json_str_array(flds));
    }
    out
}

/// The multi-search request body for one batch of entry titles.
pub fn msearch_body(titles: &Vec<String>, languages: &Vec<String>) -> (r: String)
    ensures
        r@ == msearch_body_spec(titles.deep_view(), languages.deep_view()),
{
    let fields = fields_json(languages);
    let ghost all = titles.deep_view();
    let mut out = String::new();
    let mut i: usize = 0;
    while i < titles.len()
        invariant
            i <= titles@.len(),
            all == titles.deep_view(),
            all.len() == titles@.len(),
            fields@ == json_str_array(field_list(languages.deep_view())),
            out@ == msearch_body_spec(all.take(i as int), languages.deep_view()),
        decreases titles@.len() - i,
    {
        proof {
            assert(all.take(i as int + 1).drop_last() =~= all.take(i as int));
            assert(all.take(i as int + 1).last() == all[i as int]);
            assert(all[i as int] == titles@[i as int]@);
        }
        out.append("{}\n");
        out.append("{\"size\":1,\"query\":{\"multi_match\":{\"query\":");
        push_quoted(&mut out, titles[i].as_str());
        out.append(",\"fields\":");
        out.append(fields.as_str());
        out.append("}}}");
        push_char(&mut out, '\n');
        proof {
            assert(out@ =~= msearch_body_spec(all.take(i as int + 1), languages.deep_view()));
        }
        i += 1;
    }
    proof {
        assert(all.take(all.len() as int) =~= all);
    }
    out
}

/// The document synthesized for an unmatched live-catalog entry: its id
/// and main title are both the entry's title, and the title stands in the
/// live-catalog list; the catalog offers no per-language titles.
pub open spec fn insert_doc_spec(title: Seq<char>) -> SeriesView {
    SeriesView {
        id: title,
        main_title: Some(title),
        titles: Seq::<(Seq<char>, Seq<Seq<char>>)>::empty(),
        clubdam_titles: Some(seq![title]),
    }
}

/// Add one title under a document id in the update queue: the first entry
/// of the id takes the title at the end of its list; an unknown id opens a
/// new entry at the end of the queue.
pub open spec fn upsert(
    us: Seq<(Seq<char>, Seq<Seq<char>>)>,
    id: Seq<char>,
    title: Seq<char>,
) -> Seq<(Seq<char>, Seq<Seq<char>>)>
    decreases us.len(),
{
    if us.len() == 0 {
        seq![(id, seq![title])]
    } else if us[0].0 == id {
        seq![(us[0].0, us[0].1.push(title))] + us.drop_first()
    } else {
        seq![us[0]] + upsert(us.drop_first(), id, title)
    }
}

/// Route one zipped pair of entry title and best-hit document id.
pub open spec fn absorb_one(
    ups: Seq<(Seq<char>, Seq<Seq<char>>)>,
    ins: Seq<SeriesView>,
    title: Seq<char>,
    m: Option<Seq<char>>,
) -> (Seq<(Seq<char>, Seq<Seq<char>>)>, Seq<SeriesView>) {
    match m {
        Some(id) => (upsert(ups, id, title), ins),
        None => (ups, ins.push(insert_doc_spec(title))),
    }
}

/// Route a whole zipped batch, in order.
pub open spec fn absorb_all(
    ups: Seq<(Seq<char>, Seq<Seq<char>>)>,
    ins: Seq<SeriesView>,
    titles: Seq<Seq<char>>,
    ms: Seq<Option<Seq<char>>>,
) -> (Seq<(Seq<char>, Seq<Seq<char>>)>, Seq<SeriesView>)
    decreases titles.len(),
{
    if titles.len() == 0 || titles.len() != ms.len() {
        (ups, ins)
    } else {
        let prev = absorb_all(ups, ins, titles.drop_last(), ms.drop_last());
        absorb_one(prev.0, prev.1, titles.last(), ms.last())
    }
}

/// The accumulator of one reconciliation run: the update queue, grouped
/// and deduplicated by target document id, and the insert queue of
/// documents to synthesize.
pub struct Reconciliation {
    pub updates: Vec<(String, Vec<String>)>,
    pub inserts: Vec<Series>,
}

impl Reconciliation {
    pub fn new() -> (r: Reconciliation)
        ensures
            r.updates.deep_view() =~= Seq::<(Seq<char>, Seq<Seq<char>>)>::empty(),
            r.inserts.deep_view() =~= Seq::<SeriesView>::empty(),
    {
        Reconciliation { updates: Vec::new(), inserts: Vec::new() }
    }

    /// Route one batch of live entries zipped with their match results.
    pub fn absorb(&mut self, titles: &Vec<String>, matches: &Vec<Option<String>>)
        requires
            titles@.len() == matches@.len(),
        ensures
            (final(self).updates.deep_view(), final(self).inserts.deep_view()) == absorb_all(
                old(self).updates.deep_view(),
                old(self).inserts.deep_view(),
                titles.deep_view(),
                matches.deep_view(),
            ),
    {
        let ghost all_t = titles.deep_view();
        let ghost all_m = matches.deep_view();
        let mut k: usize = 0;
        proof {
            assert(all_t.take(0) =~= Seq::<Seq<char>>::empty());
            assert(all_m.take(0) =~= Seq::<Option<Seq<char>>>::empty());
        }
        while k < titles.len()
            invariant
                k <= titles@.len(),
                all_t == titles.deep_view(),
                all_m == matches.deep_view(),
                all_t.len() == titles@.len(),
                all_m.len() == titles@.len(),
                (self.updates.deep_view(), self.inserts.deep_view()) == absorb_all(
                    old(self).updates.deep_view(),
                    old(self).inserts.deep_view(),
                    all_t.take(k as int),
                    all_m.take(k as int),
                ),
            decreases titles@.len() - k,
        {
            proof {
                assert(all_t.take(k as int + 1).drop_last() =~= all_t.take(k as int));
                assert(all_m.take(k as int + 1).drop_last() =~= all_m.take(k as int));
                assert(all_t.take(k as int + 1).last() == all_t[k as int]);
                assert(all_m.take(k as int + 1).last() == all_m[k as int]);
                assert(all_t[k as int] == titles@[k as int]@);
                assert(all_t.take(k as int + 1).len() == all_m.take(k as int + 1).len());
            }
            match &matches[k] {
                Some(id) => {
                    proof {
                        assert(all_m[k as int] == Some(id@));
                    }
                    self.add_update(id, &titles[k]);
                },
                None => {
                    proof {
                        assert(all_m[k as int] is None);
                    }
                    let ghost ins_before = self.inserts.deep_view();
                    let mut lst: Vec<String> = Vec::new();
                    lst.push(titles[k].clone());
                    let doc = Series {
                        id: titles[k].clone(),
                        main_title: Some(titles[k].clone()),
                        titles: TitlesByLanguage(Vec::new()),
                        clubdam_titles: Some(lst),
                    };
                    proof {
                        assert(doc@.titles =~= Seq::<(Seq<char>, Seq<Seq<char>>)>::empty());
                        assert(doc@.clubdam_titles matches Some(c) && c =~= seq![titles@[k as int]@]);
                        assert(doc@ == insert_doc_spec(all_t[k as int]));
                    }
                    self.inserts.push(doc);
                    proof {
                        assert(self.inserts.deep_view() =~= ins_before.push(
                            insert_doc_spec(all_t[k as int]),
                        ));
                    }
                },
            }
            k += 1;
        }
        proof {
            assert(all_t.take(all_t.len() as int) =~= all_t);
            assert(all_m.take(all_m.len() as int) =~= all_m);
        }
    }

    /// Add one matched title under its document id in the update queue.
    fn add_update(&mut self, id: &String, title: &String)
        ensures
            final(self).inserts == old(self).inserts,
            final(self).updates.deep_view() == upsert(
                old(self).updates.deep_view(),
                id@,
                title@,
            ),
    {
        let ghost us = self.updates.deep_view();
        let mut j: usize = 0;
        let mut found: Option<usize> = None;
        while j < self.updates.len()
            invariant
                j <= self.updates@.len(),
                us == self.updates.deep_view(),
                us.len() == self.updates@.len(),
                match found {
                    Some(i) => 0 <= i < j && us[i as int].0 == id@ && (forall|w: int|
                        0 <= w < i ==> (#[trigger] us[w]).0 != id@),
                    None => forall|w: int| 0 <= w < j ==> (#[trigger] us[w]).0 != id@,
                },
            decreases self.updates@.len() - j,
        {
            proof {
                assert(us[j as int].0 == self.updates@[j as int].0@);
            }
            if found.is_none() && str_eq(self.updates[j].0.as_str(), id.as_str()) {
                found = Some(j);
            }
            j += 1;
        }
        match found {
            Some(i) => {
                proof {
                    lemma_upsert_found(us, id@, title@, i as int);
                }
                let ghost pre = self.updates@;
                let mut e = self.updates.remove(i);
                let ghost e0 = e;
                e.1.push(title.clone());
                proof {
                    assert(e.1@.len() == e0.1@.len() + 1);
                    assert(e.1.deep_view() =~= us[i as int].1.push(title@));
                    assert(e.0@ == us[i as int].0);
                }
                self.updates.insert(i, e);
                proof {
                    assert(self.updates@ =~= pre.update(i as int, e));
                    assert(self.updates.deep_view() =~= us.update(
                        i as int,
                        (us[i as int].0, us[i as int].1.push(title@)),
                    ));
                }
            },
            None => {
                proof {
                    lemma_upsert_missing(us, id@, title@);
                }
                let mut lst: Vec<String> = Vec::new();
                lst.push(title.clone());
                proof {
                    assert(lst.deep_view() =~= seq![title@]);
                }
                self.updates.push((id.clone(), lst));
                proof {
                    assert(self.updates.deep_view() =~= us.push((id@, seq![title@])));
                }
            },
        }
    }

    /// Route one batch from the raw multi-search response body: the match
    /// results are extracted and zipped against the batch's titles; a body
    /// that does not parse, or answers a different number of queries than
    /// the batch asked, is a protocol error and leaves the queues
    /// untouched.
    pub fn absorb_response(&mut self, titles: &Vec<String>, body: &str) -> (r: Result<(), Error>)
        ensures
            match msearch_matches_of(body@) {
                Some(ms) => if ms.len() == titles@.len() {
                    r is Ok && (final(self).updates.deep_view(), final(self).inserts.deep_view())
                        == absorb_all(
                        old(self).updates.deep_view(),
                        old(self).inserts.deep_view(),
                        titles.deep_view(),
                        ms,
                    )
                } else {
                    r is Err && *final(self) == *old(self)
                },
                None => r is Err && *final(self) == *old(self),
            },
            r matches Err(e) ==> (e matches Error::UnexpectedResponse(p, b) && p@ == "_msearch"@
                && b@ == body@),
    {
        match parse_msearch_matches(body) {
            Some(ms) => {
                if ms.len() == titles.len() {
                    self.absorb(titles, &ms);
                    Ok(())
                } else {
                    Err(
                        Error::UnexpectedResponse(String::from_str("_msearch"), body.to_owned()),
                    )
                }
            },
            None => Err(
                Error::UnexpectedResponse(String::from_str("_msearch"), body.to_owned()),
            ),
        }
    }
}

proof fn lemma_upsert_found(us: Seq<(Seq<char>, Seq<Seq<char>>)>, id: Seq<char>, title: Seq<char>, i: int)
    requires
        0 <= i < us.len(),
        us[i].0 == id,
        forall|w: int| 0 <= w < i ==> (#[trigger] us[w]).0 != id,
    ensures
        upsert(us, id, title) == us.update(i, (us[i].0, us[i].1.push(title))),
    decreases i,
{
    if i == 0 {
        assert(upsert(us, id, title) =~= us.update(0, (us[0].0, us[0].1.push(title))));
    } else {
        assert(us[0].0 != id);
        assert(us.drop_first()[i - 1] == us[i]);
        assert(forall|w: int| 0 <= w < i - 1 ==> (#[trigger] us.drop_first()[w]).0 != id);
        lemma_upsert_found(us.drop_first(), id, title, i - 1);
        assert(upsert(us, id, title) =~= us.update(i, (us[i].0, us[i].1.push(title))));
    }
}

proof fn lemma_upsert_missing(us: Seq<(Seq<char>, Seq<Seq<char>>)>, id: Seq<char>, title: Seq<char>)
    requires
        forall|w: int| 0 <= w < us.len() ==> (#[trigger] us[w]).0 != id,
    ensures
        upsert(us, id, title) == us.push((id, seq![title])),
    decreases us.len(),
{
    if us.len() == 0 {
        assert(upsert(us, id, title) =~= us.push((id, seq![title])));
    } else {
        assert(us[0].0 != id);
        lemma_upsert_missing(us.drop_first(), id, title);
        assert(upsert(us, id, title) =~= us.push((id, seq![title])));
    }
}

/// Reconciliation is deterministic and independent of batching: for a
/// fixed index state the match result of each entry is fixed, and routing
/// a stream of zipped entries cut into batches at any point yields the
/// same queues as routing it whole, so the outcome is a pure function of
/// the live entries and the index content they were matched against.
pub proof fn lemma_reconcile_batching_irrelevant(
    ups: Seq<(Seq<char>, Seq<Seq<char>>)>,
    ins: Seq<SeriesView>,
    t1: Seq<Seq<char>>,
    m1: Seq<Option<Seq<char>>>,
    t2: Seq<Seq<char>>,
    m2: Seq<Option<Seq<char>>>,
)
    requires
        t1.len() == m1.len(),
        t2.len() == m2.len(),
    ensures
        absorb_all(ups, ins, t1 + t2, m1 + m2) == {
            let mid = absorb_all(ups, ins, t1, m1);
            absorb_all(mid.0, mid.1, t2, m2)
        },
    decreases t2.len(),
{
    if t2.len() == 0 {
        assert(t1 + t2 =~= t1);
        assert(m1 + m2 =~= m1);
        let mid = absorb_all(ups, ins, t1, m1);
        assert(absorb_all(mid.0, mid.1, t2, m2) == (mid.0, mid.1));
    } else {
        assert((t1 + t2).drop_last() =~= t1 + t2.drop_last());
        assert((m1 + m2).drop_last() =~= m1 + m2.drop_last());
        assert((t1 + t2).last() == t2.last());
        assert((m1 + m2).last() == m2.last());
        assert((t1 + t2).len() == (m1 + m2).len());
        assert((t1 + t2).len() > 0);
        lemma_reconcile_batching_irrelevant(ups, ins, t1, m1, t2.drop_last(), m2.drop_last());
    }
}

} // verus!
