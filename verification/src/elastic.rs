//! Per-language title lists and their assembly from title records.
//!
//! `TitlesByLanguage::new` is the document assembler: it groups the records
//! of one owning entity by language and orders each language's list by
//! descending title-type priority; among records of equal priority the later
//! record of the input comes first, as the priority sort of the title dump
//! takes records from the high end.

use vstd::prelude::*;

use crate::Title;
use crate::json::str_eq;
use crate::json::{dec_digits, push_u64};
use vstd::seq_lib::{group_to_multiset_ensures, lemma_multiset_commutative};
use vstd::multiset::{group_multiset_axioms, Multiset};

verus! {

/// The texts of the records of `ts` with the given language and priority,
/// in reverse input order (the order in which assembly emits them).
pub open spec fn rev_texts(ts: Seq<Title>, lang: Seq<char>, pri: u8) -> Seq<Seq<char>>
    decreases ts.len(),
{
    if ts.len() == 0 {
        Seq::<Seq<char>>::empty()
    } else {
        (if ts.last().language@ == lang && ts.last().title_type.priority_spec() == pri {
            seq![ts.last().title@]
        } else {
            Seq::<Seq<char>>::empty()
        }) + rev_texts(ts.drop_last(), lang, pri)
    }
}

/// The language's lists for priorities `pri` down to 0, concatenated.
pub open spec fn concat_down(ts: Seq<Title>, lang: Seq<char>, pri: int) -> Seq<Seq<char>>
    decreases pri + 1,
{
    if pri < 0 {
        Seq::<Seq<char>>::empty()
    } else {
        rev_texts(ts, lang, pri as u8) + concat_down(ts, lang, pri - 1)
    }
}

/// The full assembled list of one language: every priority class, highest
/// first.
pub open spec fn lang_list(ts: Seq<Title>, lang: Seq<char>) -> Seq<Seq<char>> {
    concat_down(ts, lang, 3)
}

/// The first value bound to `lang` in an association list of language
/// entries.
pub open spec fn find_lang(entries: Seq<(Seq<char>, Seq<Seq<char>>)>, lang: Seq<char>) -> Option<
    Seq<Seq<char>>,
>
    decreases entries.len(),
{
    if entries.len() == 0 {
        None
    } else if entries[0].0 == lang {
        Some(entries[0].1)
    } else {
        find_lang(entries.drop_first(), lang)
    }
}

/// Does some string of `ls` read `lang`?
pub open spec fn contains_str(ls: Seq<String>, lang: Seq<char>) -> bool {
    exists|j: int| 0 <= j < ls.len() && (#[trigger] ls[j])@ == lang
}

/// Titles of one owning entity, partitioned by language code; within each
/// language the highest-priority title comes first.
pub struct TitlesByLanguage(pub Vec<(String, Vec<String>)>);

impl View for TitlesByLanguage {
    type V = Seq<(Seq<char>, Seq<Seq<char>>)>;

    open spec fn view(&self) -> Seq<(Seq<char>, Seq<Seq<char>>)> {
        self.0.deep_view()
    }
}

impl TitlesByLanguage {
    /// Language keys are distinct and no language holds an empty list.
    pub open spec fn wf(self) -> bool {
        &&& forall|i: int, j: int| 0 <= i < j < self@.len() ==> self@[i].0 != self@[j].0
        &&& forall|i: int| 0 <= i < self@.len() ==> (#[trigger] self@[i]).1.len() > 0
    }

    /// The result of assembling exactly the records `ts`: each language that
    /// occurs in `ts` is bound to its full priority-ordered list, and no
    /// other language is bound at all.
    pub open spec fn is_assembly_of(self, ts: Seq<Title>) -> bool {
        &&& self.wf()
        &&& forall|lang: Seq<char>|
            (#[trigger] find_lang(self@, lang)) == (if lang_list(ts, lang).len() > 0 {
                Some(lang_list(ts, lang))
            } else {
                None::<Seq<Seq<char>>>
            })
    }

    /// Assemble the records of one owning entity into per-language lists,
    /// highest title-type priority first within each language.
    pub fn new(titles: Vec<Title>) -> (r: TitlesByLanguage)
        ensures
            r.is_assembly_of(titles@),
    {
        let langs = distinct_languages(&titles);
        let mut entries: Vec<(String, Vec<String>)> = Vec::new();
        let mut j: usize = 0;
        while j < langs.len()
            invariant
                forall|i: int| #![auto]
                    0 <= i < titles@.len() ==> contains_str(langs@, titles@[i].language@),
                forall|j1: int, j2: int| 0 <= j1 < j2 < langs@.len() ==> langs@[j1]@ != langs@[j2]@,
                j <= langs@.len(),
                forall|lang: Seq<char>|
                    (#[trigger] find_lang(entries.deep_view(), lang)) == (if contains_str(
                        langs@.take(j as int),
                        lang,
                    ) && lang_list(titles@, lang).len() > 0 {
                        Some(lang_list(titles@, lang))
                    } else {
                        None::<Seq<Seq<char>>>
                    }),
                forall|i1: int, i2: int|
                    0 <= i1 < i2 < entries.deep_view().len() ==> entries.deep_view()[i1].0
                        != entries.deep_view()[i2].0,
                forall|i: int|
                    0 <= i < entries.deep_view().len() ==> (#[trigger] entries.deep_view()[i]).1.len()
                        > 0,
                forall|i: int|
                    0 <= i < entries.deep_view().len() ==> contains_str(
                        langs@.take(j as int),
                        (#[trigger] entries.deep_view()[i]).0,
                    ),
            decreases langs@.len() - j,
        {
            let ghost entries_before = entries.deep_view();
            let ghost cur: Seq<char> = langs@[j as int]@;
            proof {
                // The language under work was not seen in the processed prefix.
                if contains_str(langs@.take(j as int), cur) {
                    let w = choose|w: int|
                        0 <= w < j && (langs@.take(j as int)[w])@ == cur;
                    assert(langs@[w]@ == langs@[j as int]@);
                    assert(false);
                }
            }
            let list = build_lang_list(&titles, &langs[j]);
            let ghost list_view = list.deep_view();
            if list.len() > 0 {
                let key = langs[j].clone();
                proof {
                    assert(list_view.len() > 0);
                }
                entries.push((key, list));
                proof {
                    assert(entries.deep_view() =~= entries_before.push((cur, list_view)));
                }
            } else {
                proof {
                    assert(list_view.len() == 0);
                }
            }
            proof {
                let take_now = langs@.take(j as int);
                let take_next = langs@.take(j as int + 1);
                // Membership in the longer prefix is membership in the
                // shorter one or equality with the language under work.
                assert forall|lang: Seq<char>|
                    contains_str(take_next, lang) <==> (contains_str(take_now, lang) || cur
                        == lang) by {
                    if contains_str(take_now, lang) {
                        let w = choose|w: int| 0 <= w < j && (take_now[w])@ == lang;
                        assert((take_next[w])@ == lang);
                    }
                    if cur == lang {
                        assert((take_next[j as int])@ == lang);
                    }
                    if contains_str(take_next, lang) && cur != lang {
                        let w = choose|w: int| 0 <= w < j + 1 && (take_next[w])@ == lang;
                        assert(langs@[w]@ == lang);
                        assert(w < j);
                        assert((take_now[w])@ == lang);
                    }
                }
                assert forall|lang: Seq<char>|
                    (#[trigger] find_lang(entries.deep_view(), lang)) == (if contains_str(
                        take_next,
                        lang,
                    ) && lang_list(titles@, lang).len() > 0 {
                        Some(lang_list(titles@, lang))
                    } else {
                        None::<Seq<Seq<char>>>
                    }) by {
                    if list_view.len() > 0 {
                        lemma_find_lang_push(entries_before, (cur, list_view), lang);
                    }
                }
                // Keys of the grown list still come from the processed prefix.
                assert forall|i: int|
                    0 <= i < entries.deep_view().len() implies contains_str(
                    take_next,
                    (#[trigger] entries.deep_view()[i]).0,
                ) by {
                    if i < entries_before.len() {
                        assert(entries.deep_view()[i] == entries_before[i]);
                        let w = choose|w: int|
                            0 <= w < j && (take_now[w])@ == entries_before[i].0;
                        assert((take_next[w])@ == entries_before[i].0);
                    } else {
                        assert(entries.deep_view()[i].0 == cur);
                        assert((take_next[j as int])@ == cur);
                    }
                }
                // The new key differs from every old key.
                assert forall|i1: int, i2: int|
                    0 <= i1 < i2 < entries.deep_view().len() implies entries.deep_view()[i1].0
                    != entries.deep_view()[i2].0 by {
                    if i2 == entries_before.len() && entries.deep_view().len() > entries_before.len() {
                        let w = choose|w: int|
                            0 <= w < j && (take_now[w])@ == entries_before[i1].0;
                        assert(langs@[w]@ != langs@[j as int]@);
                    }
                }
            }
            j += 1;
        }
        proof {
            assert(langs@.take(langs@.len() as int) =~= langs@);
            assert forall|lang: Seq<char>|
                (#[trigger] find_lang(entries.deep_view(), lang)) == (if lang_list(
                    titles@,
                    lang,
                ).len() > 0 {
                    Some(lang_list(titles@, lang))
                } else {
                    None::<Seq<Seq<char>>>
                }) by {
                if !contains_str(langs@, lang) {
                    assert forall|i: int| 0 <= i < titles@.len() implies titles@[i].language@
                        != lang by {
                        if titles@[i].language@ == lang {
                            assert(contains_str(langs@, titles@[i].language@));
                        }
                    }
                    lemma_no_lang_list_empty(titles@, lang);
                }
            }
        }
        TitlesByLanguage(entries)
    }

    /// The canonical title of a language: the head of its list, which the
    /// assembly ordering makes the highest-priority title.
    pub fn main_title(&self, language: &str) -> (r: Option<String>)
        ensures
            match find_lang(self@, language@) {
                Some(l) => if l.len() > 0 {
                    r matches Some(s) && s@ == l[0]
                } else {
                    r is None
                },
                None => r is None,
            },
    {
        proof {
            assert(self@.skip(0) =~= self@);
        }
        let mut i: usize = 0;
        while i < self.0.len()
            invariant
                i <= self.0.len(),
                self@.len() == self.0.len(),
                find_lang(self@, language@) == find_lang(self@.skip(i as int), language@),
            decreases self.0.len() - i,
        {
            proof {
                assert(self@.skip(i as int)[0] == self@[i as int]);
                assert(self@.skip(i as int).drop_first() =~= self@.skip(i as int + 1));
            }
            if str_eq(self.0[i].0.as_str(), language) {
                proof {
                    assert(self@[i as int].0 == self.0[i as int].0@);
                    assert(find_lang(self@, language@) == Some(self@[i as int].1));
                }
                let list = &self.0[i].1;
                if list.len() > 0 {
                    proof {
                        assert(self@[i as int].1[0] == list@[0]@);
                    }
                    return Some(list[0].clone());
                } else {
                    return None;
                }
            }
            i += 1;
        }
        proof {
            assert(self@.skip(self@.len() as int) =~= Seq::<(Seq<char>, Seq<Seq<char>>)>::empty());
        }
        None
    }
}

/// The distinct language codes of `ts`, first occurrence first.
fn distinct_languages(ts: &Vec<Title>) -> (r: Vec<String>)
    ensures
        forall|i: int| #![auto] 0 <= i < ts@.len() ==> contains_str(r@, ts@[i].language@),
        forall|j1: int, j2: int| 0 <= j1 < j2 < r@.len() ==> r@[j1]@ != r@[j2]@,
{
    let mut langs: Vec<String> = Vec::new();
    let mut k: usize = 0;
    while k < ts.len()
        invariant
            k <= ts@.len(),
            forall|i: int| #![auto] 0 <= i < k ==> contains_str(langs@, ts@[i].language@),
            forall|j1: int, j2: int| 0 <= j1 < j2 < langs@.len() ==> langs@[j1]@ != langs@[j2]@,
        decreases ts@.len() - k,
    {
        let ghost langs_before = langs@;
        let mut found = false;
        let mut j: usize = 0;
        while j < langs.len()
            invariant
                j <= langs@.len(),
                found <==> exists|w: int|
                    0 <= w < j && (#[trigger] langs@[w])@ == ts@[k as int].language@,
                k < ts@.len(),
            decreases langs@.len() - j,
        {
            if !found && str_eq(langs[j].as_str(), ts[k].language.as_str()) {
                found = true;
            }
            j += 1;
        }
        if !found {
            langs.push(ts[k].language.clone());
            proof {
                assert(langs@.last()@ == ts@[k as int].language@);
                assert forall|i: int| 0 <= i < langs_before.len() implies langs@[i]
                    == langs_before[i] by {}
            }
        }
        proof {
            assert forall|i: int| #![auto] 0 <= i < k + 1 implies contains_str(
                langs@,
                ts@[i].language@,
            ) by {
                if i < k {
                    let w = choose|w: int|
                        0 <= w < langs_before.len() && (#[trigger] langs_before[w])@
                            == ts@[i].language@;
                    assert(langs@[w]@ == ts@[i].language@);
                } else {
                    if found {
                        let w = choose|w: int|
                            0 <= w < langs_before.len() && (#[trigger] langs_before[w])@
                                == ts@[k as int].language@;
                        assert(langs@[w]@ == ts@[k as int].language@);
                    } else {
                        assert(langs@[langs@.len() - 1]@ == ts@[k as int].language@);
                    }
                }
            }
        }
        k += 1;
    }
    langs
}

/// The full list of one language, built by scanning the records once per
/// priority class, from the highest class down, each scan from the last
/// record back to the first.
fn build_lang_list(ts: &Vec<Title>, lang: &String) -> (r: Vec<String>)
    ensures
        r.deep_view() == lang_list(ts@, lang@),
{
    let mut acc: Vec<String> = Vec::new();
    let mut pp: u8 = 4;
    while pp > 0
        invariant
            pp <= 4,
            acc.deep_view() + concat_down(ts@, lang@, pp - 1) == lang_list(ts@, lang@),
        decreases pp,
    {
        let p = pp - 1;
        let mut j = ts.len();
        proof {
            assert(ts@.take(j as int) =~= ts@);
            assert(concat_down(ts@, lang@, p as int) == rev_texts(ts@, lang@, p) + concat_down(
                ts@,
                lang@,
                p - 1,
            ));
            assert(acc.deep_view() + rev_texts(ts@.take(j as int), lang@, p) + concat_down(
                ts@,
                lang@,
                p - 1,
            ) =~= acc.deep_view() + concat_down(ts@, lang@, p as int));
        }
        while j > 0
            invariant
                j <= ts@.len(),
                p == pp - 1,
                0 < pp <= 4,
                acc.deep_view() + rev_texts(ts@.take(j as int), lang@, p) + concat_down(
                    ts@,
                    lang@,
                    p - 1,
                ) == lang_list(ts@, lang@),
            decreases j,
        {
            j -= 1;
            let ghost acc_before = acc.deep_view();
            let ghost sub = ts@.take(j as int + 1);
            proof {
                assert(sub.drop_last() =~= ts@.take(j as int));
                assert(sub.last() == ts@[j as int]);
            }
            let t = &ts[j];
            if t.title_type.priority() == p && str_eq(t.language.as_str(), lang.as_str()) {
                acc.push(t.title.clone());
                proof {
                    assert(acc.deep_view() =~= acc_before.push(t.title@));
                    assert(rev_texts(sub, lang@, p) == seq![t.title@] + rev_texts(
                        ts@.take(j as int),
                        lang@,
                        p,
                    ));
                    assert(acc.deep_view() + rev_texts(ts@.take(j as int), lang@, p) =~= acc_before
                        + rev_texts(sub, lang@, p));
                }
            } else {
                proof {
                    assert(rev_texts(sub, lang@, p) =~= rev_texts(ts@.take(j as int), lang@, p));
                }
            }
        }
        proof {
            assert(ts@.take(0) =~= Seq::<Title>::empty());
            assert(rev_texts(ts@.take(0), lang@, p) =~= Seq::<Seq<char>>::empty());
            assert(acc.deep_view() + concat_down(ts@, lang@, p - 1) =~= acc.deep_view()
                + rev_texts(ts@.take(0), lang@, p) + concat_down(ts@, lang@, p - 1));
        }
        pp -= 1;
    }
    proof {
        assert(concat_down(ts@, lang@, -1) =~= Seq::<Seq<char>>::empty());
        assert(acc.deep_view() =~= acc.deep_view() + concat_down(ts@, lang@, -1));
    }
    acc
}

/// Appending an entry changes a lookup only where no earlier entry matched.
proof fn lemma_find_lang_push(
    entries: Seq<(Seq<char>, Seq<Seq<char>>)>,
    e: (Seq<char>, Seq<Seq<char>>),
    lang: Seq<char>,
)
    ensures
        find_lang(entries.push(e), lang) == (match find_lang(entries, lang) {
            Some(v) => Some(v),
            None => if e.0 == lang {
                Some(e.1)
            } else {
                None
            },
        }),
    decreases entries.len(),
{
    if entries.len() == 0 {
        assert(entries.push(e)[0] == e);
        assert(entries.push(e).drop_first() =~= Seq::<(Seq<char>, Seq<Seq<char>>)>::empty());
    } else {
        assert(entries.push(e)[0] == entries[0]);
        assert(entries.push(e).drop_first() =~= entries.drop_first().push(e));
        lemma_find_lang_push(entries.drop_first(), e, lang);
    }
}

/// Records without the language contribute nothing to its per-priority lists.
proof fn lemma_no_lang_rev_empty(ts: Seq<Title>, lang: Seq<char>, pri: u8)
    requires
        forall|i: int| 0 <= i < ts.len() ==> (#[trigger] ts[i]).language@ != lang,
    ensures
        rev_texts(ts, lang, pri) == Seq::<Seq<char>>::empty(),
    decreases ts.len(),
{
    if ts.len() > 0 {
        lemma_no_lang_rev_empty(ts.drop_last(), lang, pri);
        assert(ts.last() == ts[ts.len() - 1]);
        assert(rev_texts(ts, lang, pri) =~= Seq::<Seq<char>>::empty());
    }
}

/// A language no record carries assembles to the empty list.
proof fn lemma_no_lang_list_empty(ts: Seq<Title>, lang: Seq<char>)
    requires
        forall|i: int| 0 <= i < ts.len() ==> (#[trigger] ts[i]).language@ != lang,
    ensures
        lang_list(ts, lang) == Seq::<Seq<char>>::empty(),
{
    lemma_no_lang_rev_empty(ts, lang, 3);
    lemma_no_lang_rev_empty(ts, lang, 2);
    lemma_no_lang_rev_empty(ts, lang, 1);
    lemma_no_lang_rev_empty(ts, lang, 0);
    assert(concat_down(ts, lang, -1) =~= Seq::<Seq<char>>::empty());
    assert(concat_down(ts, lang, 0) =~= Seq::<Seq<char>>::empty());
    assert(concat_down(ts, lang, 1) =~= Seq::<Seq<char>>::empty());
    assert(concat_down(ts, lang, 2) =~= Seq::<Seq<char>>::empty());
    assert(lang_list(ts, lang) =~= Seq::<Seq<char>>::empty());
}


/// One search document: the unit exchanged with the search engine. The id is
/// the owning entity's number written in decimal, or a synthesized identity
/// for catalog-only entries; `clubdam_titles` holds the live-catalog titles
/// the reconciliation confirmed, and is absent on freshly assembled
/// documents.
pub struct Series {
    pub id: String,
    pub main_title: Option<String>,
    pub titles: TitlesByLanguage,
    pub clubdam_titles: Option<Vec<String>>,
}

/// The mathematical value of a `Series`.
pub struct SeriesView {
    pub id: Seq<char>,
    pub main_title: Option<Seq<char>>,
    pub titles: Seq<(Seq<char>, Seq<Seq<char>>)>,
    pub clubdam_titles: Option<Seq<Seq<char>>>,
}

impl DeepView for Series {
    type V = SeriesView;

    open spec fn deep_view(&self) -> SeriesView {
        self.view()
    }
}

impl View for Series {
    type V = SeriesView;

    open spec fn view(&self) -> SeriesView {
        SeriesView {
            id: self.id@,
            main_title: self.main_title.deep_view(),
            titles: self.titles@,
            clubdam_titles: self.clubdam_titles.deep_view(),
        }
    }
}

/// The distinct owning ids of `ts`, first occurrence first.
pub open spec fn ids_in_order(ts: Seq<Title>) -> Seq<u32>
    decreases ts.len(),
{
    if ts.len() == 0 {
        Seq::<u32>::empty()
    } else {
        let rest = ids_in_order(ts.drop_last());
        if rest.contains(ts.last().id) {
            rest
        } else {
            rest.push(ts.last().id)
        }
    }
}

/// The records of one owning entity, in input order.
pub open spec fn titles_of_id(ts: Seq<Title>, id: u32) -> Seq<Title>
    decreases ts.len(),
{
    if ts.len() == 0 {
        Seq::<Title>::empty()
    } else {
        let r = titles_of_id(ts.drop_last(), id);
        if ts.last().id == id {
            r.push(ts.last())
        } else {
            r
        }
    }
}

/// The main title a document carries: the head of the `ja` list when that
/// language has any title.
pub open spec fn main_title_of(group: Seq<Title>) -> Option<Seq<char>> {
    if lang_list(group, "ja"@).len() > 0 {
        Some(lang_list(group, "ja"@)[0])
    } else {
        None
    }
}

/// One assembled document per distinct owning id of `ts`, in order of first
/// occurrence: the id written in decimal, the per-language lists of exactly
/// that entity's records, the `ja` main title, and no live-catalog titles.
pub open spec fn is_assembled_docs(ts: Seq<Title>, docs: Seq<Series>) -> bool {
    &&& docs.len() == ids_in_order(ts).len()
    &&& forall|k: int|
        0 <= k < docs.len() ==> {
            let id = ids_in_order(ts)[k];
            let group = titles_of_id(ts, id);
            &&& (#[trigger] docs[k])@.id == dec_digits(id as nat)
            &&& docs[k].titles.is_assembly_of(group)
            &&& docs[k]@.main_title == main_title_of(group)
            &&& docs[k]@.clubdam_titles is None
        }
}

/// Assemble the whole title dump into one search document per owning
/// entity.
pub fn assemble(titles: &Vec<Title>) -> (r: Vec<Series>)
    ensures
        is_assembled_docs(titles@, r@),
{
    let ids = distinct_ids(titles);
    let mut out: Vec<Series> = Vec::new();
    let mut k: usize = 0;
    while k < ids.len()
        invariant
            ids@ == ids_in_order(titles@),
            k <= ids@.len(),
            out@.len() == k,
            forall|w: int|
                0 <= w < k ==> {
                    let id = ids_in_order(titles@)[w];
                    let group = titles_of_id(titles@, id);
                    &&& (#[trigger] out@[w])@.id == dec_digits(id as nat)
                    &&& out@[w].titles.is_assembly_of(group)
                    &&& out@[w]@.main_title == main_title_of(group)
                    &&& out@[w]@.clubdam_titles is None
                },
        decreases ids@.len() - k,
    {
        let id = ids[k];
        let group = collect_group(titles, id);
        let ghost group_view = group@;
        let tbl = TitlesByLanguage::new(group);
        let main = tbl.main_title("ja");
        let mut idstr = String::new();
        push_u64(&mut idstr, id as u64);
        proof {
            assert(idstr@ =~= dec_digits(id as nat));
        }
        out.push(
            Series { id: idstr, main_title: main, titles: tbl, clubdam_titles: None },
        );
        k += 1;
    }
    out
}

/// The distinct owning ids of the records, first occurrence first.
fn distinct_ids(ts: &Vec<Title>) -> (r: Vec<u32>)
    ensures
        r@ == ids_in_order(ts@),
{
    let mut ids: Vec<u32> = Vec::new();
    let mut k: usize = 0;
    while k < ts.len()
        invariant
            k <= ts@.len(),
            ids@ == ids_in_order(ts@.take(k as int)),
        decreases ts@.len() - k,
    {
        let ghost sub = ts@.take(k as int + 1);
        proof {
            assert(sub.drop_last() =~= ts@.take(k as int));
            assert(sub.last() == ts@[k as int]);
        }
        let id = ts[k].id;
        let mut found = false;
        let mut j: usize = 0;
        while j < ids.len()
            invariant
                j <= ids@.len(),
                found <==> exists|w: int| 0 <= w < j && ids@[w] == id,
            decreases ids@.len() - j,
        {
            if ids[j] == id {
                found = true;
            }
            j += 1;
        }
        proof {
            assert(found == ids@.contains(id));
        }
        if !found {
            ids.push(id);
        }
        k += 1;
    }
    proof {
        assert(ts@.take(ts@.len() as int) =~= ts@);
    }
    ids
}

/// Copy out the records of one owning entity, keeping their order.
fn collect_group(ts: &Vec<Title>, id: u32) -> (r: Vec<Title>)
    ensures
        r@ == titles_of_id(ts@, id),
{
    let mut group: Vec<Title> = Vec::new();
    let mut k: usize = 0;
    while k < ts.len()
        invariant
            k <= ts@.len(),
            group@ == titles_of_id(ts@.take(k as int), id),
        decreases ts@.len() - k,
    {
        let ghost sub = ts@.take(k as int + 1);
        proof {
            assert(sub.drop_last() =~= ts@.take(k as int));
            assert(sub.last() == ts@[k as int]);
        }
        if ts[k].id == id {
            group.push(ts[k].clone());
        }
        k += 1;
    }
    proof {
        assert(ts@.take(ts@.len() as int) =~= ts@);
    }
    group
}

/// The title-type priority that produced position `k` of a language's
/// assembled list: positions are covered by the priority-3 segment first,
/// then the lower segments in order.
pub open spec fn pri_at(ts: Seq<Title>, lang: Seq<char>, k: int) -> u8 {
    let n3 = rev_texts(ts, lang, 3).len();
    let n2 = rev_texts(ts, lang, 2).len();
    let n1 = rev_texts(ts, lang, 1).len();
    if k < n3 {
        3
    } else if k < n3 + n2 {
        2
    } else if k < n3 + n2 + n1 {
        1
    } else {
        0
    }
}

/// Every per-language list the assembler produces is ordered by descending
/// title-type priority: whatever order the records arrive in, a position
/// later in the list never carries a higher priority than an earlier one.
pub proof fn lemma_lang_list_priority_sorted(ts: Seq<Title>, lang: Seq<char>, k1: int, k2: int)
    requires
        0 <= k1 <= k2 < lang_list(ts, lang).len(),
    ensures
        pri_at(ts, lang, k1) >= pri_at(ts, lang, k2),
{
}

/// Each element of a priority class's list is the text of a record with
/// that language and priority.
proof fn lemma_rev_texts_element(ts: Seq<Title>, lang: Seq<char>, pri: u8, m: int)
    requires
        0 <= m < rev_texts(ts, lang, pri).len(),
    ensures
        exists|i: int|
            0 <= i < ts.len() && (#[trigger] ts[i]).language@ == lang
                && ts[i].title_type.priority_spec() == pri && ts[i].title@ == rev_texts(
                ts,
                lang,
                pri,
            )[m],
    decreases ts.len(),
{
    let head: Seq<Seq<char>> = if ts.last().language@ == lang
        && ts.last().title_type.priority_spec() == pri {
        seq![ts.last().title@]
    } else {
        Seq::<Seq<char>>::empty()
    };
    if m < head.len() {
        assert(ts.last() == ts[ts.len() - 1]);
        assert(rev_texts(ts, lang, pri)[m] == ts[ts.len() - 1].title@);
    } else {
        lemma_rev_texts_element(ts.drop_last(), lang, pri, m - head.len());
        let i = choose|i: int|
            0 <= i < ts.drop_last().len() && (#[trigger] ts.drop_last()[i]).language@ == lang
                && ts.drop_last()[i].title_type.priority_spec() == pri
                && ts.drop_last()[i].title@ == rev_texts(ts.drop_last(), lang, pri)[m - head.len()];
        assert(ts[i] == ts.drop_last()[i]);
        assert(rev_texts(ts, lang, pri)[m] == rev_texts(ts.drop_last(), lang, pri)[m - head.len()]);
    }
}

/// Each position of a language's assembled list holds the text of some
/// record of that language whose title-type priority is the priority of the
/// position; together with the ordering lemma this says the assembly is a
/// priority-descending arrangement of exactly the language's record texts.
pub proof fn lemma_lang_list_element(ts: Seq<Title>, lang: Seq<char>, k: int)
    requires
        0 <= k < lang_list(ts, lang).len(),
    ensures
        exists|i: int|
            0 <= i < ts.len() && (#[trigger] ts[i]).language@ == lang
                && ts[i].title_type.priority_spec() == pri_at(ts, lang, k) && ts[i].title@
                == lang_list(ts, lang)[k],
{
    let r3 = rev_texts(ts, lang, 3);
    let r2 = rev_texts(ts, lang, 2);
    let r1 = rev_texts(ts, lang, 1);
    let r0 = rev_texts(ts, lang, 0);
    assert(concat_down(ts, lang, -1) =~= Seq::<Seq<char>>::empty());
    assert(concat_down(ts, lang, 0) =~= r0);
    assert(concat_down(ts, lang, 1) =~= r1 + r0);
    assert(concat_down(ts, lang, 2) =~= r2 + r1 + r0);
    assert(lang_list(ts, lang) =~= r3 + r2 + r1 + r0);
    if k < r3.len() {
        lemma_rev_texts_element(ts, lang, 3, k);
    } else if k < r3.len() + r2.len() {
        lemma_rev_texts_element(ts, lang, 2, k - r3.len());
    } else if k < r3.len() + r2.len() + r1.len() {
        lemma_rev_texts_element(ts, lang, 1, k - r3.len() - r2.len());
    } else {
        lemma_rev_texts_element(ts, lang, 0, k - r3.len() - r2.len() - r1.len());
    }
}


/// The multiset one record contributes to a (language, priority) class.
pub open spec fn class_contrib(t: Title, lang: Seq<char>, pri: u8) -> Multiset<Seq<char>> {
    if t.language@ == lang && t.title_type.priority_spec() == pri {
        Multiset::<Seq<char>>::empty().insert(t.title@)
    } else {
        Multiset::<Seq<char>>::empty()
    }
}

/// Taking one record out of the input takes exactly its contribution out
/// of the class's texts.
proof fn lemma_rev_texts_remove(ts: Seq<Title>, lang: Seq<char>, pri: u8, i: int)
    requires
        0 <= i < ts.len(),
    ensures
        rev_texts(ts, lang, pri).to_multiset() == class_contrib(ts[i], lang, pri).add(
            rev_texts(ts.remove(i), lang, pri).to_multiset(),
        ),
    decreases ts.len(),
{
    broadcast use group_to_multiset_ensures, group_multiset_axioms;

    let head: Seq<Seq<char>> = if ts.last().language@ == lang
        && ts.last().title_type.priority_spec() == pri {
        seq![ts.last().title@]
    } else {
        Seq::<Seq<char>>::empty()
    };
    lemma_multiset_commutative(head, rev_texts(ts.drop_last(), lang, pri));
    assert(head.to_multiset() =~= class_contrib(ts.last(), lang, pri)) by {
        if head.len() == 1 {
            assert(Seq::<Seq<char>>::empty().push(ts.last().title@) =~= head);
        }
    }
    if i == ts.len() - 1 {
        assert(ts.remove(i) =~= ts.drop_last());
        assert(rev_texts(ts, lang, pri).to_multiset() =~= class_contrib(ts[i], lang, pri).add(
            rev_texts(ts.remove(i), lang, pri).to_multiset(),
        ));
    } else {
        lemma_rev_texts_remove(ts.drop_last(), lang, pri, i);
        assert(ts.drop_last()[i] == ts[i]);
        let shorter = ts.remove(i);
        assert(shorter.drop_last() =~= ts.drop_last().remove(i));
        assert(shorter.last() == ts.last());
        let shead: Seq<Seq<char>> = if shorter.last().language@ == lang
            && shorter.last().title_type.priority_spec() == pri {
            seq![shorter.last().title@]
        } else {
            Seq::<Seq<char>>::empty()
        };
        assert(shead =~= head);
        lemma_multiset_commutative(shead, rev_texts(shorter.drop_last(), lang, pri));
        assert(rev_texts(ts, lang, pri).to_multiset() =~= class_contrib(ts[i], lang, pri).add(
            rev_texts(ts.remove(i), lang, pri).to_multiset(),
        ));
    }
}

/// The assembly is invariant under permutation of the input records, list
/// order aside: two inputs with the same records, however ordered, give
/// every (language, priority) class of the assembled lists the same texts
/// with the same multiplicities. With the ordering lemma this makes each
/// per-language list a priority-descending arrangement of the language's
/// record texts, whatever order the dump delivered them in.
pub proof fn lemma_assembly_permutation_invariant(
    ts1: Seq<Title>,
    ts2: Seq<Title>,
    lang: Seq<char>,
    pri: u8,
)
    requires
        ts1.to_multiset() == ts2.to_multiset(),
    ensures
        rev_texts(ts1, lang, pri).to_multiset() == rev_texts(ts2, lang, pri).to_multiset(),
    decreases ts1.len(),
{
    broadcast use group_to_multiset_ensures, group_multiset_axioms;

    assert(ts1.len() == ts1.to_multiset().len());
    assert(ts2.len() == ts2.to_multiset().len());
    assert(ts1.len() == ts2.len());
    if ts1.len() == 0 {
        assert(rev_texts(ts1, lang, pri).to_multiset() =~= rev_texts(
            ts2,
            lang,
            pri,
        ).to_multiset());
    } else {
        let x = ts1.last();
        assert(ts1.contains(x));
        assert(ts2.to_multiset().count(x) > 0);
        assert(ts2.contains(x));
        let i = choose|i: int| 0 <= i < ts2.len() && ts2[i] == x;
        assert(ts1.drop_last().push(x) =~= ts1);
        assert(ts1.drop_last().to_multiset().insert(x) =~= ts1.to_multiset());
        assert(ts2.remove(i).to_multiset() =~= ts2.to_multiset().remove(x));
        assert(ts1.drop_last().to_multiset() =~= ts2.remove(i).to_multiset());
        lemma_assembly_permutation_invariant(ts1.drop_last(), ts2.remove(i), lang, pri);
        lemma_rev_texts_remove(ts2, lang, pri, i);
        lemma_rev_texts_remove(ts1, lang, pri, ts1.len() - 1);
        assert(ts1.remove(ts1.len() - 1) =~= ts1.drop_last());
        assert(rev_texts(ts1, lang, pri).to_multiset() =~= rev_texts(
            ts2,
            lang,
            pri,
        ).to_multiset());
    }
}

} // verus!
