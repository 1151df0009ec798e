//! Keeps a remote full-text search index of anime series titles in step
//! with two sources: a bulk title dump and a live karaoke catalog reachable
//! only through paginated calls.
//!
//! The library holds everything that can be decided without performing
//! I/O, verified: assembling one search document per owning entity with
//! priority-ordered per-language title lists; planning a zero-downtime
//! rebuild that loads a fresh, stamp-named index chunk by chunk and then
//! repoints the alias in one atomic request; the cursor-driven pruning
//! protocol that deletes stale documents page by page; the batched fuzzy
//! reconciliation that routes each live-catalog entry to an update or an
//! insert queue; and the exact text of every request body. A thin
//! unverified driver performs the requests and hands the response bodies
//! back; the few fields read out of those bodies come through three
//! trusted extraction functions over serde_json.

#![allow(unused_imports)]
use vstd::prelude::*;

pub mod error;
pub mod json;
pub mod elastic;
pub mod bulk;
pub mod request;
pub mod clock;
pub mod responses;
pub mod lifecycle;
pub mod scroll;
pub mod reconcile;

use crate::error::Error;

verus! {

/// Categories of AniDB titles, listed from lowest to highest display priority.
#[derive(Debug, PartialEq, Eq, Clone, Copy)]
pub enum TitleType {
    Short,
    Synonym,
    Official,
    Primary,
}

impl TitleType {
    /// Display priority of this category; a higher value sorts first within a
    /// language list.
    pub open spec fn priority_spec(self) -> u8 {
        match self {
            TitleType::Short => 0,
            TitleType::Synonym => 1,
            TitleType::Official => 2,
            TitleType::Primary => 3,
        }
    }

    pub fn priority(self) -> (r: u8)
        ensures
            r == self.priority_spec(),
    {
        match self {
            TitleType::Short => 0,
            TitleType::Synonym => 1,
            TitleType::Official => 2,
            TitleType::Primary => 3,
        }
    }

    /// The title type denoted by a type code from the title dump, if any.
    pub open spec fn of_code(s: Seq<char>) -> Option<TitleType> {
        if s.len() == 1 {
            if s[0] == '1' {
                Some(TitleType::Primary)
            } else if s[0] == '2' {
                Some(TitleType::Synonym)
            } else if s[0] == '3' {
                Some(TitleType::Short)
            } else if s[0] == '4' {
                Some(TitleType::Official)
            } else {
                None
            }
        } else {
            None
        }
    }

    /// Decode a title-type code from the title dump. An unknown code is a
    /// fatal input error: skipping it would corrupt the priority ordering.
    pub fn from_id(id: &str) -> (r: Result<TitleType, Error>)
        ensures
            TitleType::of_code(id@) matches Some(t) ==> r == Ok::<TitleType, Error>(t),
            TitleType::of_code(id@) is None ==> (r matches Err(e)
                && e matches Error::InvalidTitleType(s) && s@ == id@),
    {
        if id.unicode_len() == 1 {
            let c = id.get_char(0);
            if c == '1' {
                return Ok(TitleType::Primary);
            }
            if c == '2' {
                return Ok(TitleType::Synonym);
            }
            if c == '3' {
                return Ok(TitleType::Short);
            }
            if c == '4' {
                return Ok(TitleType::Official);
            }
        }
        Err(Error::InvalidTitleType(id.to_owned()))
    }
}

/// Is `s` a plain decimal numeral: nonempty and all decimal digits?
pub open spec fn is_dec_numeral(s: Seq<char>) -> bool {
    s.len() > 0 && forall|i: int| 0 <= i < s.len() ==> '0' <= #[trigger] s[i] <= '9'
}

/// The value of a decimal numeral, most significant digit first.
pub open spec fn dec_value(s: Seq<char>) -> nat
    decreases s.len(),
{
    if s.len() == 0 {
        0
    } else {
        dec_value(s.drop_last()) * 10 + (((s.last() as u32) - ('0' as u32)) as nat)
    }
}

/// A longer numeral never has a smaller value: every appended digit
/// multiplies the value so far by ten.
proof fn lemma_dec_value_prefix(s: Seq<char>, i: int)
    requires
        0 <= i <= s.len(),
        forall|k: int| 0 <= k < s.len() ==> '0' <= #[trigger] s[k] <= '9',
    ensures
        dec_value(s) >= dec_value(s.take(i)),
    decreases s.len() - i,
{
    if i < s.len() {
        lemma_dec_value_prefix(s, i + 1);
        assert(s.take(i + 1).drop_last() =~= s.take(i));
        assert(s.take(i + 1).last() == s[i]);
        assert(dec_value(s.take(i + 1)) >= dec_value(s.take(i)));
    } else {
        assert(s.take(i) =~= s);
    }
}

/// Decode an owning-entity id field of the title dump: a decimal numeral
/// that fits a `u32`. Anything else — an empty field, a stray character,
/// or a value too large — is reported with the line it came from, and the
/// run aborts rather than mislabel records.
pub fn parse_record_id(s: &str, line_num: u32) -> (r: Result<u32, Error>)
    ensures
        is_dec_numeral(s@) && dec_value(s@) <= u32::MAX ==> r == Ok::<u32, Error>(
            dec_value(s@) as u32,
        ),
        !(is_dec_numeral(s@) && dec_value(s@) <= u32::MAX) ==> (r matches Err(e)
            && e matches Error::InvalidId(t, l) && t@ == s@ && l == line_num),
{
    let n = s.unicode_len();
    if n == 0 {
        return Err(Error::InvalidId(s.to_owned(), line_num));
    }
    let mut value: u32 = 0;
    let mut i: usize = 0;
    while i < n
        invariant
            n == s@.len(),
            0 < n,
            i <= n,
            forall|k: int| 0 <= k < i ==> '0' <= #[trigger] s@[k] <= '9',
            value == dec_value(s@.take(i as int)),
        decreases n - i,
    {
        let c = s.get_char(i);
        if c < '0' || c > '9' {
            return Err(Error::InvalidId(s.to_owned(), line_num));
        }
        let d = (c as u32) - ('0' as u32);
        proof {
            assert(s@.take(i as int + 1).drop_last() =~= s@.take(i as int));
            assert(s@.take(i as int + 1).last() == s@[i as int]);
        }
        if value > (u32::MAX - d) / 10 {
            proof {
                assert(dec_value(s@.take(i as int + 1)) > u32::MAX) by {
                    assert(value * 10 + d > u32::MAX) by (nonlinear_arith)
                        requires
                            value > (u32::MAX - d) / 10,
                            d < 10,
                    ;
                }
                if is_dec_numeral(s@) {
                    lemma_dec_value_prefix(s@, i as int + 1);
                }
            }
            return Err(Error::InvalidId(s.to_owned(), line_num));
        }
        proof {
            assert(value * 10 + d <= u32::MAX) by (nonlinear_arith)
                requires
                    value <= (u32::MAX - d) / 10,
                    d < 10,
            ;
        }
        value = value * 10 + d;
        i += 1;
    }
    proof {
        assert(s@.take(n as int) =~= s@);
    }
    Ok(value)
}

/// One record of the bulk title dump: an owning-entity id, the category of
/// the title, its language code, and the title text itself.
#[derive(Debug, PartialEq)]
pub struct Title {
    pub id: u32,
    pub title_type: TitleType,
    pub language: String,
    pub title: String,
}

impl Clone for Title {
    fn clone(&self) -> (r: Title)
        ensures
            r == *self,
    {
        Title {
            id: self.id,
            title_type: self.title_type,
            language: self.language.clone(),
            title: self.title.clone(),
        }
    }
}

} // verus!
