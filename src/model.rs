//! Watchdogs, the listings they observe, and what they remember of them.
use vstd::prelude::*;

use crate::clock::{later_by, Timestamp, EARLIEST_SECOND, LATEST_SECOND};
use crate::keyed::{
    has_key, keyed, lemma_keyed_domain, lemma_keyed_push, lemma_keyed_update, lemma_unique_push,
    unique_keys,
};

verus! {

/// Seconds that must pass after a run before a watchdog is due again.
pub const SCRAPING_INTERVAL: u64 = 3600;

/// A single listing on the classifieds site.
#[derive(Debug)]
pub struct Ad {
    pub cb_id: String,
    pub title: String,
}

pub ghost struct AdView {
    pub id: Seq<char>,
    pub title: Seq<char>,
}

impl View for Ad {
    type V = AdView;

    open spec fn view(&self) -> AdView {
        AdView { id: self.cb_id@, title: self.title@ }
    }
}

impl Clone for Ad {
    fn clone(&self) -> (r: Ad)
        ensures
            r == *self,
    {
        Ad { cb_id: self.cb_id.clone(), title: self.title.clone() }
    }
}

/// The page on which the listing with id `id` is shown.
pub open spec fn ad_url(id: Seq<char>) -> Seq<char> {
    "https://www.cyklobazar.cz/inzerat/"@ + id + "/x"@
}

impl Ad {
    pub fn url(&self) -> (r: String)
        ensures
            r@ == ad_url(self.cb_id@),
    {
        let mut url = String::from_str("https://www.cyklobazar.cz/inzerat/");
        url.append(self.cb_id.as_str());
        url.append("/x");
        url
    }
}

/// The views of a sequence of listings.
pub open spec fn views(ads: Seq<Ad>) -> Seq<AdView> {
    ads.map_values(|a: Ad| a@)
}

/// One observation of a listing by a watchdog.
#[derive(Debug)]
pub struct Sniff {
    pub last_sniffed_at: Timestamp,
    pub ad: Ad,
}

pub ghost struct SniffView {
    pub ad: AdView,
    pub seen_at: int,
}

impl View for Sniff {
    type V = SniffView;

    open spec fn view(&self) -> SniffView {
        SniffView { ad: self.ad@, seen_at: self.last_sniffed_at.second as int }
    }
}

impl Clone for Sniff {
    fn clone(&self) -> (r: Sniff)
        ensures
            r == *self,
    {
        Sniff { last_sniffed_at: self.last_sniffed_at, ad: self.ad.clone() }
    }
}

/// The key/value entries that a list of observations stands for.
pub open spec fn entries(s: Seq<Sniff>) -> Seq<(Seq<char>, SniffView)> {
    s.map_values(|x: Sniff| (x.ad.cb_id@, x@))
}

/// A watchdog set to sniff for listings matching a search URL.
#[derive(Debug)]
pub struct Doggo {
    pub id: u128,
    pub name: String,
    pub email: String,
    pub url: String,
    pub last_run: Option<Timestamp>,
    /// Listings observed so far, at most one per listing id.
    pub sniffs: Vec<Sniff>,
}

pub ghost struct DoggoView {
    pub id: u128,
    pub name: Seq<char>,
    pub email: Seq<char>,
    pub url: Seq<char>,
    pub last_run: Option<int>,
    /// Observed listings by listing id.
    pub seen: Map<Seq<char>, SniffView>,
}

impl View for Doggo {
    type V = DoggoView;

    open spec fn view(&self) -> DoggoView {
        DoggoView {
            id: self.id,
            name: self.name@,
            email: self.email@,
            url: self.url@,
            last_run: match self.last_run {
                Some(t) => Some(t.second as int),
                None => None,
            },
            seen: keyed(entries(self.sniffs@)),
        }
    }
}

/// Whether a watchdog is due at second `now`: it never ran, or more than the
/// scraping interval has passed since it last did.
pub open spec fn is_due_at(d: DoggoView, now: int) -> bool {
    match d.last_run {
        None => true,
        Some(last) => now - last > SCRAPING_INTERVAL,
    }
}

/// When a watchdog should run next, asked at second `now`.
pub open spec fn next_run_from(d: DoggoView, now: int) -> int {
    match d.last_run {
        None => now,
        Some(last) => later_by(last, SCRAPING_INTERVAL as int),
    }
}

/// Seconds from `now` until the watchdog's next run; negative when overdue.
pub open spec fn remaining(d: DoggoView, now: int) -> int {
    next_run_from(d, now) - now
}

/// The listings of `ads` whose id is not among the keys of `seen`, in order.
pub open spec fn fresh_among(seen: Map<Seq<char>, SniffView>, ads: Seq<AdView>) -> Seq<AdView>
    decreases ads.len(),
{
    if ads.len() == 0 {
        Seq::empty()
    } else {
        let rest = fresh_among(seen, ads.drop_last());
        if seen.contains_key(ads.last().id) {
            rest
        } else {
            rest.push(ads.last())
        }
    }
}

/// `seen` after each listing of `ads`, in order, is recorded as seen at `at`.
pub open spec fn insert_all(seen: Map<Seq<char>, SniffView>, ads: Seq<AdView>, at: int) -> Map<
    Seq<char>,
    SniffView,
>
    decreases ads.len(),
{
    if ads.len() == 0 {
        seen
    } else {
        insert_all(seen, ads.drop_last(), at).insert(
            ads.last().id,
            SniffView { ad: ads.last(), seen_at: at },
        )
    }
}

/// The watchdog after a run at second `now` that fetched `ads`.
pub open spec fn after_run(d: DoggoView, ads: Seq<AdView>, now: int) -> DoggoView {
    DoggoView {
        last_run: Some(now),
        seen: insert_all(d.seen, fresh_among(d.seen, ads), now),
        ..d
    }
}

impl Doggo {
    /// Each listing id is remembered at most once.
    pub open spec fn wf(&self) -> bool {
        unique_keys(entries(self.sniffs@))
    }

    pub fn new_with_id(id: u128, name: String, email: String, url: String) -> (r: Doggo)
        ensures
            r.wf(),
            r@ == (DoggoView {
                id,
                name: name@,
                email: email@,
                url: url@,
                last_run: None,
                seen: Map::empty(),
            }),
    {
        let r = Doggo { id, name, email, url, last_run: None, sniffs: Vec::new() };
        assert(entries(r.sniffs@) =~= Seq::empty());
        r
    }

    /// A watchdog rebuilt from stored parts; of two observations of one
    /// listing the later stays.
    pub fn restore(
        id: u128,
        name: String,
        email: String,
        url: String,
        last_run: Option<Timestamp>,
        sniffs: Vec<Sniff>,
    ) -> (r: Doggo)
        ensures
            r.wf(),
            r.id == id,
            r.name@ == name@,
            r.email@ == email@,
            r.url@ == url@,
            r.last_run == last_run,
            r@.seen == keyed(entries(sniffs@)),
    {
        let mut r = Doggo::new_with_id(id, name, email, url);
        r.last_run = last_run;
        let mut rest = sniffs;
        let ghost all = rest@;
        let total: usize = rest.len();
        let mut n: usize = 0;
        while rest.len() > 0
            invariant
                r.wf(),
                r.id == id,
                r.name@ == name@,
                r.email@ == email@,
                r.url@ == url@,
                r.last_run == last_run,
                n + rest@.len() == all.len(),
                all.len() == total,
                rest@ == all.subrange(n as int, all.len() as int),
                r@.seen == keyed(entries(all.subrange(0, n as int))),
            decreases rest@.len(),
        {
            let x = rest.remove(0);
            proof {
                assert(x == all[n as int]);
                assert(entries(all.subrange(0, n + 1)) =~= entries(all.subrange(0, n as int)).push(
                    (x.ad.cb_id@, x@),
                ));
                lemma_keyed_push(entries(all.subrange(0, n as int)), (x.ad.cb_id@, x@));
            }
            r.remember(x);
            n = n + 1;
        }
        proof {
            assert(all.subrange(0, n as int) =~= all);
        }
        r
    }

    /// A watchdog with a freshly drawn random id.
    pub fn new(name: String, email: String, url: String) -> (r: Doggo)
        ensures
            r.wf(),
            r@.name == name@,
            r@.email == email@,
            r@.url == url@,
            r@.last_run == None::<int>,
            r@.seen == Map::<Seq<char>, SniffView>::empty(),
    {
        Doggo::new_with_id(random_id(), name, email, url)
    }

    pub fn is_due(&self, now: Timestamp) -> (r: bool)
        ensures
            r == is_due_at(self@, now.second as int),
    {
        match self.last_run {
            None => true,
            Some(last) => (now.second as i128) - (last.second as i128)
                > SCRAPING_INTERVAL as i128,
        }
    }

    /// Whether the watchdog is due by the system clock.
    pub fn should_run_now(&self) -> (r: bool)
        ensures
            self.last_run is None ==> r,
            exists|t: int| EARLIEST_SECOND <= t <= LATEST_SECOND && r == is_due_at(self@, t),
    {
        let now = Timestamp::now();
        self.is_due(now)
    }

    pub fn next_run_at(&self, now: Timestamp) -> (r: Timestamp)
        ensures
            r.second == next_run_from(self@, now.second as int),
    {
        match self.last_run {
            None => now,
            Some(last) => last.saturating_add(SCRAPING_INTERVAL),
        }
    }

    /// When the watchdog should run next, by the system clock where it never ran.
    pub fn next_run(&self) -> (r: Timestamp)
        ensures
            exists|t: int|
                EARLIEST_SECOND <= t <= LATEST_SECOND && r.second == next_run_from(self@, t),
    {
        let now = Timestamp::now();
        self.next_run_at(now)
    }

    /// Where the observation of listing `id` stands, if there is one.
    fn find_sniff(&self, id: &String) -> (r: Option<usize>)
        ensures
            match r {
                Some(i) => i < self.sniffs@.len() && self.sniffs@[i as int].ad.cb_id@ == id@,
                None => !has_key(entries(self.sniffs@), id@),
            },
    {
        let mut i: usize = 0;
        while i < self.sniffs.len()
            invariant
                i <= self.sniffs@.len(),
                forall|j: int| 0 <= j < i ==> self.sniffs@[j].ad.cb_id@ != id@,
            decreases self.sniffs@.len() - i,
        {
            if self.sniffs[i].ad.cb_id == *id {
                return Some(i);
            }
            i = i + 1;
        }
        proof {
            if has_key(entries(self.sniffs@), id@) {
                let j = choose|j: int|
                    0 <= j < entries(self.sniffs@).len() && entries(self.sniffs@)[j].0 == id@;
                assert(self.sniffs@[j].ad.cb_id@ == id@);
            }
        }
        None
    }

    /// Whether the listing was observed before.
    pub fn seen_ad(&self, ad: &Ad) -> (r: bool)
        ensures
            r == self@.seen.contains_key(ad.cb_id@),
    {
        let found = self.find_sniff(&ad.cb_id);
        proof {
            lemma_keyed_domain(entries(self.sniffs@), ad.cb_id@);
            if let Some(i) = found {
                assert(entries(self.sniffs@)[i as int].0 == ad.cb_id@);
            }
        }
        found.is_some()
    }

    /// Records an observation, replacing any earlier one of the same listing.
    pub fn remember(&mut self, sniff: Sniff)
        requires
            old(self).wf(),
        ensures
            final(self).wf(),
            final(self)@ == (DoggoView {
                seen: old(self)@.seen.insert(sniff.ad.cb_id@, sniff@),
                ..old(self)@
            }),
    {
        let ghost e = (sniff.ad.cb_id@, sniff@);
        match self.find_sniff(&sniff.ad.cb_id) {
            Some(i) => {
                proof {
                    lemma_keyed_update(entries(self.sniffs@), i as int, sniff@);
                }
                self.sniffs.set(i, sniff);
                proof {
                    assert(entries(self.sniffs@) =~= entries(old(self).sniffs@).update(
                        i as int,
                        e,
                    ));
                }
            },
            None => {
                proof {
                    lemma_keyed_push(entries(self.sniffs@), e);
                    lemma_unique_push(entries(self.sniffs@), e);
                }
                self.sniffs.push(sniff);
                proof {
                    assert(entries(self.sniffs@) =~= entries(old(self).sniffs@).push(e));
                }
            },
        }
    }

    /// Records that the listing was observed at `now`.
    pub fn see_ad(&mut self, ad: Ad, now: Timestamp)
        requires
            old(self).wf(),
        ensures
            final(self).wf(),
            final(self)@ == (DoggoView {
                seen: old(self)@.seen.insert(ad.cb_id@, SniffView { ad: ad@, seen_at: now.second as int }),
                ..old(self)@
            }),
    {
        self.remember(Sniff { last_sniffed_at: now, ad });
    }

    /// The fetched listings that were not observed before, in their order.
    pub fn fresh_ads(&self, ads: &Vec<Ad>) -> (r: Vec<Ad>)
        ensures
            views(r@) == fresh_among(self@.seen, views(ads@)),
    {
        let mut r: Vec<Ad> = Vec::new();
        let mut i: usize = 0;
        while i < ads.len()
            invariant
                i <= ads@.len(),
                views(r@) == fresh_among(self@.seen, views(ads@).subrange(0, i as int)),
            decreases ads@.len() - i,
        {
            let ghost before = r@;
            proof {
                assert(views(ads@).subrange(0, i + 1).drop_last() =~= views(ads@).subrange(0, i as int));
            }
            if !self.seen_ad(&ads[i]) {
                r.push(ads[i].clone());
                proof {
                    assert(views(r@) =~= views(before).push(ads@[i as int]@));
                }
            }
            i = i + 1;
        }
        proof {
            assert(views(ads@).subrange(0, ads@.len() as int) =~= views(ads@));
        }
        r
    }

    /// Takes one fetched snapshot of the search: returns the listings not
    /// observed before, records each of them as seen at `now`, and records
    /// `now` as the time of the last run. The new listings count as seen from
    /// here on, whether or not their owner is then told of them: a failed
    /// notification is not repeated. A listing whose id was seen before is
    /// not new, even where its title has changed.
    pub fn run(&mut self, now: Timestamp, fetched: Vec<Ad>) -> (r: Vec<Ad>)
        requires
            old(self).wf(),
        ensures
            final(self).wf(),
            views(r@) == fresh_among(old(self)@.seen, views(fetched@)),
            final(self)@ == after_run(old(self)@, views(fetched@), now.second as int),
            forall|i: int| 0 <= i < r@.len() ==> final(self)@.seen.contains_key(#[trigger] r@[i].cb_id@),
            forall|k: Seq<char>| old(self)@.seen.contains_key(k) ==> final(self)@.seen.contains_key(k),
    {
        let fresh = self.fresh_ads(&fetched);
        let ghost seen0 = self@.seen;
        let mut j: usize = 0;
        while j < fresh.len()
            invariant
                j <= fresh@.len(),
                self.wf(),
                self@ == (DoggoView {
                    seen: insert_all(seen0, views(fresh@).subrange(0, j as int), now.second as int),
                    ..old(self)@
                }),
            decreases fresh@.len() - j,
        {
            proof {
                assert(views(fresh@).subrange(0, j + 1).drop_last() =~= views(fresh@).subrange(0, j as int));
            }
            self.see_ad(fresh[j].clone(), now);
            j = j + 1;
        }
        proof {
            assert(views(fresh@).subrange(0, fresh@.len() as int) =~= views(fresh@));
            assert forall|i: int| 0 <= i < fresh@.len() implies self@.seen.contains_key(#[trigger] fresh@[i].cb_id@) by {
                lemma_insert_all_keys(seen0, views(fresh@), now.second as int, fresh@[i].cb_id@);
                assert(views(fresh@)[i].id == fresh@[i].cb_id@);
            }
            assert forall|k: Seq<char>| old(self)@.seen.contains_key(k) implies self@.seen.contains_key(k) by {
                lemma_insert_all_keys(seen0, views(fresh@), now.second as int, k);
            }
        }
        self.last_run = Some(now);
        fresh
    }
}

/// A key of `insert_all` was a key before or is the id of an inserted listing.
pub proof fn lemma_insert_all_keys(
    seen: Map<Seq<char>, SniffView>,
    ads: Seq<AdView>,
    at: int,
    k: Seq<char>,
)
    ensures
        insert_all(seen, ads, at).contains_key(k) <==> (seen.contains_key(k) || exists|i: int|
            0 <= i < ads.len() && ads[i].id == k),
    decreases ads.len(),
{
    if ads.len() > 0 {
        let t = ads.drop_last();
        lemma_insert_all_keys(seen, t, at, k);
        if exists|i: int| 0 <= i < t.len() && t[i].id == k {
            let i = choose|i: int| 0 <= i < t.len() && t[i].id == k;
            assert(ads[i].id == k);
        }
        if (exists|i: int| 0 <= i < ads.len() && ads[i].id == k) && ads.last().id != k {
            let i = choose|i: int| 0 <= i < ads.len() && ads[i].id == k;
            assert(t[i].id == k);
        }
    }
}

/// Without a run in between, a watchdog that is due stays due, and one that is
/// not due has strictly less time left at the later of two instants.
pub proof fn lemma_due_monotonic(d: DoggoView, t1: int, t2: int)
    requires
        t1 < t2,
    ensures
        is_due_at(d, t1) ==> is_due_at(d, t2),
        !is_due_at(d, t1) ==> remaining(d, t2) < remaining(d, t1),
{
}

/// A listing that was not seen before is among the fresh ones.
proof fn lemma_fresh_has_unseen(seen: Map<Seq<char>, SniffView>, ads: Seq<AdView>, i: int)
    requires
        0 <= i < ads.len(),
        !seen.contains_key(ads[i].id),
    ensures
        exists|j: int| 0 <= j < fresh_among(seen, ads).len() && fresh_among(seen, ads)[j] == ads[i],
    decreases ads.len(),
{
    let t = ads.drop_last();
    let f = fresh_among(seen, ads);
    if i == ads.len() - 1 {
        assert(f[f.len() - 1] == ads[i]);
    } else {
        lemma_fresh_has_unseen(seen, t, i);
        let j = choose|j: int| 0 <= j < fresh_among(seen, t).len() && fresh_among(seen, t)[j] == t[i];
        assert(f[j] == ads[i]);
    }
}

/// Nothing is fresh when every listing was seen.
proof fn lemma_fresh_none(seen: Map<Seq<char>, SniffView>, ads: Seq<AdView>)
    requires
        forall|i: int| 0 <= i < ads.len() ==> seen.contains_key(#[trigger] ads[i].id),
    ensures
        fresh_among(seen, ads).len() == 0,
    decreases ads.len(),
{
    if ads.len() > 0 {
        let t = ads.drop_last();
        assert forall|i: int| 0 <= i < t.len() implies seen.contains_key(#[trigger] t[i].id) by {
            assert(t[i] == ads[i]);
        }
        lemma_fresh_none(seen, t);
        assert(seen.contains_key(ads[ads.len() - 1].id));
    }
}

/// Running twice on the same snapshot finds nothing new the second time.
pub proof fn lemma_run_twice(d: DoggoView, ads: Seq<AdView>, t1: int)
    ensures
        fresh_among(after_run(d, ads, t1).seen, ads) == Seq::<AdView>::empty(),
{
    let seen = after_run(d, ads, t1).seen;
    let f = fresh_among(d.seen, ads);
    assert forall|i: int| 0 <= i < ads.len() implies seen.contains_key(#[trigger] ads[i].id) by {
        lemma_insert_all_keys(d.seen, f, t1, ads[i].id);
        if !d.seen.contains_key(ads[i].id) {
            lemma_fresh_has_unseen(d.seen, ads, i);
        }
    }
    lemma_fresh_none(seen, ads);
    assert(fresh_among(seen, ads) =~= Seq::<AdView>::empty());
}

/// Relies on uuid::Uuid::new_v4 and Uuid::as_u128: a random identifier.
#[verifier::external_body]
fn random_id() -> (r: u128) {
    uuid::Uuid::new_v4().as_u128()
}

} // verus!
