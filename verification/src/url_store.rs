//! The URL record store: validation, the two-step token assignment,
//! pagination, click counting and age-based cleanup over a collection of
//! shortened-URL records.

use crate::errors::StoreError;
use crate::seq_lemmas::lemma_filter_element_of;
use crate::token::{lemma_token_injective, spec_id_token};
use vstd::pervasive::VecAdditionalExecFns;
use vstd::prelude::*;

verus! {

/// A URL is accepted only when it is non-empty and carries an explicit
/// `http://` or `https://` scheme prefix.
pub open spec fn spec_valid_url(s: Seq<char>) -> bool {
    s.len() > 0 && (spec_has_http_prefix(s) || spec_has_https_prefix(s))
}

pub open spec fn spec_has_http_prefix(s: Seq<char>) -> bool {
    s.len() >= 7 && s[0] == 'h' && s[1] == 't' && s[2] == 't' && s[3] == 'p' && s[4] == ':'
        && s[5] == '/' && s[6] == '/'
}

pub open spec fn spec_has_https_prefix(s: Seq<char>) -> bool {
    s.len() >= 8 && s[0] == 'h' && s[1] == 't' && s[2] == 't' && s[3] == 'p' && s[4] == 's'
        && s[5] == ':' && s[6] == '/' && s[7] == '/'
}

/// Checks that a URL is non-empty and starts with `http://` or `https://`,
/// reporting why it was rejected otherwise.
pub fn validate_url(url: &str) -> (r: Result<(), String>)
    ensures
        r is Ok <==> spec_valid_url(url@),
        r is Err && url@.len() == 0 ==> r->Err_0@ == "URL cannot be empty"@,
        r is Err && url@.len() > 0 ==> r->Err_0@ == "URL must start with http:// or https://"@,
{
    let n = url.unicode_len();
    if n == 0 {
        return Err("URL cannot be empty".to_owned());
    }
    let http = n >= 7 && url.get_char(0) == 'h' && url.get_char(1) == 't' && url.get_char(2) == 't'
        && url.get_char(3) == 'p' && url.get_char(4) == ':' && url.get_char(5) == '/'
        && url.get_char(6) == '/';
    let https = n >= 8 && url.get_char(0) == 'h' && url.get_char(1) == 't'
        && url.get_char(2) == 't' && url.get_char(3) == 'p' && url.get_char(4) == 's'
        && url.get_char(5) == ':' && url.get_char(6) == '/' && url.get_char(7) == '/';
    if http || https {
        Ok(())
    } else {
        Err("URL must start with http:// or https://".to_owned())
    }
}

/// The request body of the create operation: the address to shorten.
pub struct CreateURLBody {
    pub original_url: String,
}

/// A stored shortened-URL record. Timestamps are epoch seconds.
#[derive(Debug, PartialEq)]
pub struct Url {
    pub id: i64,
    pub original_url: String,
    pub short_url: String,
    pub click_count: i64,
    pub created_at: i64,
    pub updated_at: i64,
}

/// Every stored record holds a schemed address, a non-negative click count,
/// ordered timestamps, and a short token that is either still unassigned or
/// exactly the encoding of the record's id.
pub open spec fn url_wf(u: Url) -> bool {
    &&& spec_valid_url(u.original_url@)
    &&& u.click_count >= 0
    &&& u.created_at <= u.updated_at
    &&& u.short_url@.len() == 0 || u.short_url@ == spec_id_token(u.id)
}

impl Clone for Url {
    fn clone(&self) -> (r: Self)
        ensures
            r == *self,
    {
        Url {
            id: self.id,
            original_url: self.original_url.clone(),
            short_url: self.short_url.clone(),
            click_count: self.click_count,
            created_at: self.created_at,
            updated_at: self.updated_at,
        }
    }
}

/// The first record carrying the given short token, if any.
pub open spec fn spec_find_short(s: Seq<Url>, short: Seq<char>) -> Option<Url>
    decreases s.len(),
{
    if s.len() == 0 {
        None
    } else if s[0].short_url@ == short {
        Some(s[0])
    } else {
        spec_find_short(s.subrange(1, s.len() as int), short)
    }
}

/// The first record storing the given address, if any.
pub open spec fn spec_find_long(s: Seq<Url>, long: Seq<char>) -> Option<Url>
    decreases s.len(),
{
    if s.len() == 0 {
        None
    } else if s[0].original_url@ == long {
        Some(s[0])
    } else {
        spec_find_long(s.subrange(1, s.len() as int), long)
    }
}

/// The record with the given id, if any.
pub open spec fn spec_find_url_id(s: Seq<Url>, id: i64) -> Option<Url>
    decreases s.len(),
{
    if s.len() == 0 {
        None
    } else if s[0].id == id {
        Some(s[0])
    } else {
        spec_find_url_id(s.subrange(1, s.len() as int), id)
    }
}

/// Some record carrying the token already counts the largest representable
/// number of clicks, so one more cannot be recorded.
pub open spec fn spec_any_click_max(s: Seq<Url>, short: Seq<char>) -> bool {
    exists|i: int|
        0 <= i < s.len() && (#[trigger] s[i]).short_url@ == short && s[i].click_count == i64::MAX
}

/// One more click on a record: the count grows by one and the update time is
/// refreshed.
pub open spec fn spec_inc_url(u: Url, now: i64) -> Url {
    Url {
        id: u.id,
        original_url: u.original_url,
        short_url: u.short_url,
        click_count: (u.click_count + 1) as i64,
        created_at: u.created_at,
        updated_at: now,
    }
}

/// The store after a click on the given token: every record carrying it is
/// incremented, every other record is untouched.
pub open spec fn spec_inc_list(s: Seq<Url>, short: Seq<char>, now: i64) -> Seq<Url> {
    s.map_values(
        |u: Url|
            if u.short_url@ == short {
                spec_inc_url(u, now)
            } else {
                u
            },
    )
}

/// Keeps every record but the one with the given id.
pub open spec fn pred_url_other_id(id: i64) -> spec_fn(Url) -> bool {
    |u: Url| u.id != id
}

/// Keeps the records touched at or after the threshold.
pub open spec fn pred_fresh(threshold: i64) -> spec_fn(Url) -> bool {
    |u: Url| u.updated_at >= threshold
}

/// No record with the given id was created after `now`.
pub open spec fn url_created_le(s: Seq<Url>, id: i64, now: i64) -> bool {
    forall|i: int| 0 <= i < s.len() && (#[trigger] s[i]).id == id ==> s[i].created_at <= now
}

/// No record carrying the given token was created after `now`.
pub open spec fn short_created_le(s: Seq<Url>, short: Seq<char>, now: i64) -> bool {
    forall|i: int|
        0 <= i < s.len() && (#[trigger] s[i]).short_url@ == short ==> s[i].created_at <= now
}

/// One page of the records in storage order: a negative offset starts at the
/// beginning, a negative limit means no bound, and both are clamped to what
/// is there.
pub open spec fn spec_page(s: Seq<Url>, limit: i64, offset: i64) -> Seq<Url> {
    let off: int = if offset < 0 {
        0
    } else if offset > s.len() {
        s.len() as int
    } else {
        offset as int
    };
    let end: int = if limit < 0 {
        s.len() as int
    } else if limit > s.len() - off {
        s.len() as int
    } else {
        off + limit
    };
    s.subrange(off, end)
}

/// The in-memory URL table: records in storage order, and the next id the
/// store will assign.
pub struct UrlStore {
    pub urls: Vec<Url>,
    pub next_id: i64,
}

impl UrlStore {
    /// Ids are assigned from 1 up, never reused, and stand in storage order;
    /// every stored record is well formed.
    pub open spec fn wf(self) -> bool {
        &&& 1 <= self.next_id
        &&& forall|i: int|
            0 <= i < self.urls@.len() ==> 1 <= (#[trigger] self.urls@[i]).id < self.next_id
                && url_wf(self.urls@[i])
        &&& forall|i: int, j: int|
            0 <= i < j < self.urls@.len() ==> (#[trigger] self.urls@[i]).id < (
            #[trigger] self.urls@[j]).id
    }

    /// A fresh, empty store.
    pub fn new() -> (s: Self)
        ensures
            s.wf(),
            s.urls@.len() == 0,
            s.next_id == 1,
    {
        UrlStore { urls: Vec::new(), next_id: 1 }
    }

    /// Inserts a record for a schemed address: it gets the next id, an empty
    /// short token for now, no clicks, and both timestamps set to `now`. An
    /// address without scheme is rejected before anything is stored; a store
    /// whose ids are exhausted reports a storage failure.
    pub fn create_url(&mut self, original_url: String, now: i64) -> (r: Result<Url, StoreError>)
        requires
            old(self).wf(),
        ensures
            final(self).wf(),
            !spec_valid_url(original_url@) ==> (r matches Err(e) && e is Validation
                && *final(self) == *old(self)),
            spec_valid_url(original_url@) && old(self).next_id == i64::MAX ==> (r matches Err(e)
                && e is Storage && *final(self) == *old(self)),
            spec_valid_url(original_url@) && old(self).next_id < i64::MAX ==> (r matches Ok(u)
                && u.id == old(self).next_id && u.original_url == original_url
                && u.short_url@.len() == 0 && u.click_count == 0 && u.created_at == now
                && u.updated_at == now && final(self).urls@ == old(self).urls@.push(u)
                && final(self).next_id == old(self).next_id + 1),
    {
        match validate_url(original_url.as_str()) {
            Ok(()) => {},
            Err(_) => {
                return Err(StoreError::Validation);
            },
        }
        if self.next_id == i64::MAX {
            return Err(StoreError::Storage);
        }
        let u = Url {
            id: self.next_id,
            original_url,
            short_url: String::new(),
            click_count: 0,
            created_at: now,
            updated_at: now,
        };
        let stored = u.clone();
        self.urls.push(stored);
        self.next_id = self.next_id + 1;
        Ok(u)
    }

    /// One page of the records: at most `limit` of them, starting `offset`
    /// records in, clamped as stored pages are.
    pub fn get_urls(&self, limit: i64, offset: i64) -> (r: Vec<Url>)
        requires
            self.wf(),
        ensures
            r@ == spec_page(self.urls@, limit, offset),
    {
        let len = self.urls.len();
        let off: usize = if offset < 0 {
            0
        } else if offset as u64 >= len as u64 {
            len
        } else {
            offset as usize
        };
        let end: usize = if limit < 0 {
            len
        } else if limit as u64 >= (len - off) as u64 {
            len
        } else {
            off + limit as usize
        };
        let mut r: Vec<Url> = Vec::new();
        let mut i: usize = off;
        while i < end
            invariant
                off <= i <= end <= self.urls@.len(),
                r@ == self.urls@.subrange(off as int, i as int),
            decreases end - i,
        {
            r.push(self.urls[i].clone());
            proof {
                assert(self.urls@.subrange(off as int, i + 1 as int) =~= self.urls@.subrange(
                    off as int,
                    i as int,
                ).push(self.urls@[i as int]));
            }
            i = i + 1;
        }
        proof {
            assert(r@ =~= spec_page(self.urls@, limit, offset));
        }
        r
    }

    /// The first record carrying the given short token, if any.
    pub fn get_url_by_short(&self, short_url: &str) -> (r: Option<Url>)
        requires
            self.wf(),
        ensures
            r == spec_find_short(self.urls@, short_url@),
    {
        let key = short_url.to_owned();
        match find_short_index(&self.urls, &key) {
            Some(i) => Some(self.urls[i].clone()),
            None => None,
        }
    }

    /// The first record storing the given address, if any.
    pub fn get_url_by_long(&self, original_url: &str) -> (r: Option<Url>)
        requires
            self.wf(),
        ensures
            r == spec_find_long(self.urls@, original_url@),
    {
        let key = original_url.to_owned();
        let mut i: usize = 0;
        proof {
            assert(self.urls@.subrange(0, self.urls@.len() as int) =~= self.urls@);
        }
        while i < self.urls.len()
            invariant
                i <= self.urls@.len(),
                key@ == original_url@,
                spec_find_long(self.urls@, original_url@) == spec_find_long(
                    self.urls@.subrange(i as int, self.urls@.len() as int),
                    original_url@,
                ),
            decreases self.urls@.len() - i,
        {
            if self.urls[i].original_url == key {
                proof {
                    let tail = self.urls@.subrange(i as int, self.urls@.len() as int);
                    assert(tail[0] == self.urls@[i as int]);
                }
                return Some(self.urls[i].clone());
            }
            proof {
                lemma_find_long_step(self.urls@, i as int, original_url@);
            }
            i = i + 1;
        }
        proof {
            assert(self.urls@.subrange(self.urls@.len() as int, self.urls@.len() as int)
                =~= Seq::<Url>::empty());
        }
        None
    }

    /// Records one click on the given token: every record carrying it gets
    /// its count raised by one and its update time refreshed, and the first
    /// of them is returned; an absent token is reported as such. A count that
    /// can grow no further is a storage failure and nothing changes.
    pub fn increment_click_count(&mut self, short_url: &str, now: i64) -> (r: Result<
        Option<Url>,
        StoreError,
    >)
        requires
            old(self).wf(),
            short_created_le(old(self).urls@, short_url@, now),
        ensures
            final(self).wf(),
            spec_find_short(old(self).urls@, short_url@) is None ==> (r matches Ok(o) && o is None
                && *final(self) == *old(self)),
            spec_find_short(old(self).urls@, short_url@) is Some && spec_any_click_max(
                old(self).urls@,
                short_url@,
            ) ==> (r matches Err(e) && e is Storage && *final(self) == *old(self)),
            !spec_any_click_max(old(self).urls@, short_url@) ==> (spec_find_short(
                old(self).urls@,
                short_url@,
            ) matches Some(u0) ==> (r matches Ok(o) && o matches Some(u) && u == spec_inc_url(
                u0,
                now,
            ) && final(self).urls@ == spec_inc_list(old(self).urls@, short_url@, now)
                && final(self).next_id == old(self).next_id)),
    {
        let key = short_url.to_owned();
        match find_short_index(&self.urls, &key) {
            None => Ok(None),
            Some(first) => {
                if self.has_max_click(&key) {
                    return Err(StoreError::Storage);
                }
                let mut i: usize = 0;
                let mut out: Option<Url> = None;
                while i < self.urls.len()
                    invariant
                        i <= self.urls@.len(),
                        key@ == short_url@,
                        first < old(self).urls@.len(),
                        old(self).wf(),
                        short_created_le(old(self).urls@, short_url@, now),
                        !spec_any_click_max(old(self).urls@, short_url@),
                        old(self).urls@[first as int].short_url@ == short_url@,
                        spec_find_short(old(self).urls@, short_url@) == Some(
                            old(self).urls@[first as int],
                        ),
                        self.next_id == old(self).next_id,
                        self.urls@.len() == old(self).urls@.len(),
                        forall|j: int|
                            i <= j < self.urls@.len() ==> self.urls@[j] == old(self).urls@[j],
                        forall|j: int|
                            0 <= j < i ==> self.urls@[j] == spec_inc_list(
                                old(self).urls@,
                                short_url@,
                                now,
                            )[j],
                        out is Some <==> first < i,
                        first < i ==> out == Some(
                            spec_inc_url(old(self).urls@[first as int], now),
                        ),
                    decreases self.urls@.len() - i,
                {
                    if self.urls[i].short_url == key {
                        proof {
                            if old(self).urls@[i as int].click_count == i64::MAX {
                                assert(spec_any_click_max(old(self).urls@, short_url@));
                            }
                        }
                        let u = Url {
                            id: self.urls[i].id,
                            original_url: self.urls[i].original_url.clone(),
                            short_url: self.urls[i].short_url.clone(),
                            click_count: self.urls[i].click_count + 1,
                            created_at: self.urls[i].created_at,
                            updated_at: now,
                        };
                        if i == first {
                            out = Some(u.clone());
                        }
                        self.urls.set(i, u);
                    }
                    i = i + 1;
                }
                proof {
                    assert(self.urls@ =~= spec_inc_list(old(self).urls@, short_url@, now));
                }
                Ok(out)
            },
        }
    }

    /// Whether some record carrying the token already counts the largest
    /// representable number of clicks.
    fn has_max_click(&self, key: &String) -> (r: bool)
        ensures
            r == spec_any_click_max(self.urls@, key@),
    {
        let mut i: usize = 0;
        while i < self.urls.len()
            invariant
                i <= self.urls@.len(),
                !spec_any_click_max(self.urls@.take(i as int), key@),
            decreases self.urls@.len() - i,
        {
            if self.urls[i].short_url == *key && self.urls[i].click_count == i64::MAX {
                proof {
                    assert(self.urls@[i as int].short_url@ == key@);
                }
                return true;
            }
            proof {
                let pre = self.urls@.take(i + 1 as int);
                assert forall|j: int|
                    0 <= j < pre.len() implies !((#[trigger] pre[j]).short_url@ == key@
                    && pre[j].click_count == i64::MAX) by {
                    assert(pre[j] == self.urls@[j]);
                }
            }
            i = i + 1;
        }
        proof {
            assert(self.urls@.take(self.urls@.len() as int) =~= self.urls@);
        }
        false
    }

    /// Deletes every record last touched strictly before `now` minus the
    /// given number of days, and says how many went.
    pub fn cleanup_not_used_urls(&mut self, days: i64, now: i64) -> (r: u64)
        requires
            old(self).wf(),
            0 <= days,
            days * 86400 <= i64::MAX,
            i64::MIN <= now - days * 86400,
        ensures
            final(self).wf(),
            final(self).urls@ == old(self).urls@.filter(pred_fresh((now - days * 86400) as i64)),
            r == old(self).urls@.len() - final(self).urls@.len(),
            final(self).next_id == old(self).next_id,
    {
        let threshold: i64 = now - days * 86400;
        let before = self.urls.len();
        let mut kept: Vec<Url> = Vec::new();
        let mut i: usize = 0;
        while i < self.urls.len()
            invariant
                i <= self.urls@.len(),
                *self == *old(self),
                kept@ == self.urls@.take(i as int).filter(pred_fresh(threshold)),
                kept@.len() <= i,
            decreases self.urls@.len() - i,
        {
            if self.urls[i].updated_at >= threshold {
                kept.push(self.urls[i].clone());
            }
            proof {
                self.urls@.take(i as int).lemma_filter_push(
                    self.urls@[i as int],
                    pred_fresh(threshold),
                );
                assert(self.urls@.take(i + 1 as int) =~= self.urls@.take(i as int).push(
                    self.urls@[i as int],
                ));
            }
            i = i + 1;
        }
        proof {
            assert(self.urls@.take(self.urls@.len() as int) =~= self.urls@);
        }
        let after = kept.len();
        self.urls = kept;
        proof {
            lemma_url_filter_keeps_wf(old(self).urls@, pred_fresh(threshold), old(self).next_id);
        }
        (before - after) as u64
    }

    /// Removes the record with the given id, if it is there, and says whether
    /// one went; removing an absent id changes nothing and is not an error.
    pub fn delete_url(&mut self, id: i64) -> (r: u64)
        requires
            old(self).wf(),
        ensures
            final(self).wf(),
            final(self).urls@ == old(self).urls@.filter(pred_url_other_id(id)),
            r == old(self).urls@.len() - final(self).urls@.len(),
            final(self).next_id == old(self).next_id,
    {
        let before = self.urls.len();
        let mut kept: Vec<Url> = Vec::new();
        let mut i: usize = 0;
        while i < self.urls.len()
            invariant
                i <= self.urls@.len(),
                *self == *old(self),
                kept@ == self.urls@.take(i as int).filter(pred_url_other_id(id)),
                kept@.len() <= i,
            decreases self.urls@.len() - i,
        {
            if self.urls[i].id != id {
                kept.push(self.urls[i].clone());
            }
            proof {
                self.urls@.take(i as int).lemma_filter_push(
                    self.urls@[i as int],
                    pred_url_other_id(id),
                );
                assert(self.urls@.take(i + 1 as int) =~= self.urls@.take(i as int).push(
                    self.urls@[i as int],
                ));
            }
            i = i + 1;
        }
        proof {
            assert(self.urls@.take(self.urls@.len() as int) =~= self.urls@);
        }
        let after = kept.len();
        self.urls = kept;
        proof {
            lemma_url_filter_keeps_wf(old(self).urls@, pred_url_other_id(id), old(self).next_id);
        }
        (before - after) as u64
    }

    /// Assigns the encoded token of the record with the given id — the
    /// second step of a creation — and refreshes its update time; says how
    /// many records changed. An absent id changes nothing.
    pub fn update_short_url(&mut self, id: i64, short_url: &str, now: i64) -> (r: u64)
        requires
            old(self).wf(),
            short_url@ == spec_id_token(id),
            url_created_le(old(self).urls@, id, now),
        ensures
            final(self).wf(),
            final(self).urls@.len() == old(self).urls@.len(),
            final(self).next_id == old(self).next_id,
            forall|j: int|
                0 <= j < old(self).urls@.len() && old(self).urls@[j].id != id ==> final(self).urls@[j] == old(self).urls@[j],
            forall|j: int|
                0 <= j < old(self).urls@.len() && old(self).urls@[j].id == id ==> ({
                    let u = final(self).urls@[j];
                    let u0 = old(self).urls@[j];
                    u.id == u0.id && u.original_url == u0.original_url && u.short_url@ == short_url@
                        && u.click_count == u0.click_count && u.created_at == u0.created_at
                        && u.updated_at == now
                }),
            r == 1 <==> spec_find_url_id(old(self).urls@, id) is Some,
            r <= 1,
    {
        match find_url_index(&self.urls, id) {
            None => {
                proof {
                    lemma_find_url_id_none(self.urls@, id);
                }
                0
            },
            Some(i) => {
                let u = Url {
                    id: self.urls[i].id,
                    original_url: self.urls[i].original_url.clone(),
                    short_url: short_url.to_owned(),
                    click_count: self.urls[i].click_count,
                    created_at: self.urls[i].created_at,
                    updated_at: now,
                };
                self.urls.set(i, u);
                proof {
                    assert forall|j: int|
                        0 <= j < old(self).urls@.len() && j != i implies old(self).urls@[j].id
                        != id by {
                        if j < i as int {
                            assert(old(self).urls@[j].id < old(self).urls@[i as int].id);
                        } else {
                            assert(old(self).urls@[i as int].id < old(self).urls@[j].id);
                        }
                    }
                }
                1
            },
        }
    }
}

/// Index of the first record carrying the given short token, if any.
fn find_short_index(urls: &Vec<Url>, key: &String) -> (r: Option<usize>)
    ensures
        r matches Some(i) ==> i < urls@.len() && urls@[i as int].short_url@ == key@
            && spec_find_short(urls@, key@) == Some(urls@[i as int]),
        r is None ==> spec_find_short(urls@, key@) is None,
{
    let mut i: usize = 0;
    proof {
        assert(urls@.subrange(0, urls@.len() as int) =~= urls@);
    }
    while i < urls.len()
        invariant
            i <= urls@.len(),
            spec_find_short(urls@, key@) == spec_find_short(
                urls@.subrange(i as int, urls@.len() as int),
                key@,
            ),
        decreases urls@.len() - i,
    {
        if urls[i].short_url == *key {
            proof {
                let tail = urls@.subrange(i as int, urls@.len() as int);
                assert(tail[0] == urls@[i as int]);
            }
            return Some(i);
        }
        proof {
            lemma_find_short_step(urls@, i as int, key@);
        }
        i = i + 1;
    }
    proof {
        assert(urls@.subrange(urls@.len() as int, urls@.len() as int) =~= Seq::<Url>::empty());
    }
    None
}

/// Index of the record with the given id, if any.
fn find_url_index(urls: &Vec<Url>, id: i64) -> (r: Option<usize>)
    ensures
        r matches Some(i) ==> i < urls@.len() && urls@[i as int].id == id && spec_find_url_id(
            urls@,
            id,
        ) == Some(urls@[i as int]),
        r is None ==> spec_find_url_id(urls@, id) is None,
{
    let mut i: usize = 0;
    proof {
        assert(urls@.subrange(0, urls@.len() as int) =~= urls@);
    }
    while i < urls.len()
        invariant
            i <= urls@.len(),
            spec_find_url_id(urls@, id) == spec_find_url_id(
                urls@.subrange(i as int, urls@.len() as int),
                id,
            ),
        decreases urls@.len() - i,
    {
        if urls[i].id == id {
            proof {
                let tail = urls@.subrange(i as int, urls@.len() as int);
                assert(tail[0] == urls@[i as int]);
            }
            return Some(i);
        }
        proof {
            lemma_find_url_id_step(urls@, i as int, id);
        }
        i = i + 1;
    }
    proof {
        assert(urls@.subrange(urls@.len() as int, urls@.len() as int) =~= Seq::<Url>::empty());
    }
    None
}

proof fn lemma_find_short_step(s: Seq<Url>, i: int, short: Seq<char>)
    requires
        0 <= i < s.len(),
        s[i].short_url@ != short,
    ensures
        spec_find_short(s.subrange(i, s.len() as int), short) == spec_find_short(
            s.subrange(i + 1, s.len() as int),
            short,
        ),
{
    let tail = s.subrange(i, s.len() as int);
    assert(tail[0] == s[i]);
    assert(tail.subrange(1, tail.len() as int) =~= s.subrange(i + 1, s.len() as int));
}

proof fn lemma_find_long_step(s: Seq<Url>, i: int, long: Seq<char>)
    requires
        0 <= i < s.len(),
        s[i].original_url@ != long,
    ensures
        spec_find_long(s.subrange(i, s.len() as int), long) == spec_find_long(
            s.subrange(i + 1, s.len() as int),
            long,
        ),
{
    let tail = s.subrange(i, s.len() as int);
    assert(tail[0] == s[i]);
    assert(tail.subrange(1, tail.len() as int) =~= s.subrange(i + 1, s.len() as int));
}

/// Where the id finder comes up empty, no record carries the id at all.
proof fn lemma_find_url_id_none(s: Seq<Url>, id: i64)
    requires
        spec_find_url_id(s, id) is None,
    ensures
        forall|j: int| 0 <= j < s.len() ==> (#[trigger] s[j]).id != id,
    decreases s.len(),
{
    if s.len() > 0 {
        let tail = s.subrange(1, s.len() as int);
        lemma_find_url_id_none(tail, id);
        assert forall|j: int| 0 <= j < s.len() implies (#[trigger] s[j]).id != id by {
            if j > 0 {
                assert(tail[j - 1] == s[j]);
            }
        }
    }
}

proof fn lemma_find_url_id_step(s: Seq<Url>, i: int, id: i64)
    requires
        0 <= i < s.len(),
        s[i].id != id,
    ensures
        spec_find_url_id(s.subrange(i, s.len() as int), id) == spec_find_url_id(
            s.subrange(i + 1, s.len() as int),
            id,
        ),
{
    let tail = s.subrange(i, s.len() as int);
    assert(tail[0] == s[i]);
    assert(tail.subrange(1, tail.len() as int) =~= s.subrange(i + 1, s.len() as int));
}

/// Dropping records can break none of the store's invariants.
proof fn lemma_url_filter_keeps_wf(s: Seq<Url>, pred: spec_fn(Url) -> bool, next_id: i64)
    requires
        1 <= next_id,
        forall|i: int| 0 <= i < s.len() ==> 1 <= (#[trigger] s[i]).id < next_id && url_wf(s[i]),
        forall|i: int, j: int| 0 <= i < j < s.len() ==> (#[trigger] s[i]).id < (#[trigger] s[j]).id,
    ensures
        forall|i: int|
            0 <= i < s.filter(pred).len() ==> 1 <= (#[trigger] s.filter(pred)[i]).id < next_id
                && url_wf(s.filter(pred)[i]),
        forall|i: int, j: int|
            0 <= i < j < s.filter(pred).len() ==> (#[trigger] s.filter(pred)[i]).id < (
            #[trigger] s.filter(pred)[j]).id,
    decreases s.len(),
{
    reveal(Seq::filter);
    if s.len() > 0 {
        let last = s.last();
        let init = s.drop_last();
        lemma_url_filter_keeps_wf(init, pred, next_id);
        if pred(last) {
            assert forall|i: int, j: int|
                0 <= i < j < s.filter(pred).len() implies (#[trigger] s.filter(pred)[i]).id < (
            #[trigger] s.filter(pred)[j]).id by {
                if j < s.filter(pred).len() - 1 {
                } else {
                    lemma_filter_element_of(init, pred, i);
                }
            }
        }
    }
}

/// A cleanup at a threshold keeps exactly the records touched at or after
/// it: everything still listed is that fresh, and every fresh record is
/// still listed, unchanged.
pub proof fn lemma_cleanup_exact(s: Seq<Url>, threshold: i64)
    ensures
        forall|i: int|
            0 <= i < s.filter(pred_fresh(threshold)).len() ==> (#[trigger] s.filter(
                pred_fresh(threshold),
            )[i]).updated_at >= threshold,
        forall|i: int|
            0 <= i < s.len() && (#[trigger] s[i]).updated_at >= threshold ==> s.filter(
                pred_fresh(threshold),
            ).contains(s[i]),
{
    let pred = pred_fresh(threshold);
    assert forall|i: int| 0 <= i < s.filter(pred).len() implies (#[trigger] s.filter(
        pred,
    )[i]).updated_at >= threshold by {
        s.lemma_filter_pred(pred, i);
    }
    assert forall|i: int|
        0 <= i < s.len() && (#[trigger] s[i]).updated_at >= threshold implies s.filter(
        pred,
    ).contains(s[i]) by {
        s.lemma_filter_contains(pred, i);
    }
}

/// Two records that both carry an assigned token never carry the same one:
/// tokens encode ids, and ids are unique.
pub proof fn lemma_assigned_shorts_unique(s: UrlStore, i: int, j: int)
    requires
        s.wf(),
        0 <= i < s.urls@.len(),
        0 <= j < s.urls@.len(),
        i != j,
        s.urls@[i].short_url@.len() > 0,
        s.urls@[j].short_url@.len() > 0,
    ensures
        s.urls@[i].short_url@ != s.urls@[j].short_url@,
{
    if i < j {
        assert(s.urls@[i].id < s.urls@[j].id);
    } else {
        assert(s.urls@[j].id < s.urls@[i].id);
    }
    lemma_token_injective(s.urls@[i].id, s.urls@[j].id);
}

/// Two clicks on the same token both count: afterwards the record holds its
/// old count plus two, never plus one.
pub proof fn lemma_two_increments(s: Seq<Url>, short: Seq<char>, now1: i64, now2: i64, i: int)
    requires
        0 <= i < s.len(),
        s[i].short_url@ == short,
        s[i].click_count + 2 <= i64::MAX,
    ensures
        spec_inc_list(spec_inc_list(s, short, now1), short, now2)[i].click_count == s[i].click_count
            + 2,
{
    assert(spec_inc_list(s, short, now1)[i] == spec_inc_url(s[i], now1));
}

} // verus!
