//! The collection of all watchdogs: restoring it, seeding it, running the
//! due ones and deciding how long to sleep.
use vstd::prelude::*;

use crate::clock::Timestamp;
use crate::keyed::{
    has_key, keyed, lemma_keyed_domain, lemma_keyed_push, lemma_keyed_same_entries, lemma_keyed_update, lemma_keyed_value,
    lemma_unique_push, unique_keys,
};
use crate::model::{after_run, is_due_at, remaining, views, Ad, Doggo, DoggoView};

verus! {

/// The shortest sleep between two scheduling cycles, in seconds.
pub const MIN_SLEEP: u64 = 1;

/// All watchdogs, at most one per id.
pub struct Kennel {
    pub doggos: Vec<Doggo>,
}

/// What reading the persisted state produced.
pub enum LoadOutcome {
    /// There was nothing to read.
    Missing,
    /// The state could not be read or decoded.
    Corrupt,
    /// The watchdogs that were read.
    Loaded(Vec<Doggo>),
}

/// The key/value entries that a list of watchdogs stands for.
pub open spec fn doggo_entries(s: Seq<Doggo>) -> Seq<(u128, DoggoView)> {
    s.map_values(|d: Doggo| (d.id, d@))
}

/// Every watchdog of `s` is well formed.
pub open spec fn all_wf(s: Seq<Doggo>) -> bool {
    forall|i: int| 0 <= i < s.len() ==> (#[trigger] s[i]).wf()
}

/// The watchdogs that loading yields.
pub open spec fn loaded(o: LoadOutcome) -> Map<u128, DoggoView> {
    match o {
        LoadOutcome::Loaded(ds) => keyed(doggo_entries(ds@)),
        _ => Map::empty(),
    }
}

/// `m` seeded with the entries of `s` in order, each only where its id is absent.
pub open spec fn seeded(m: Map<u128, DoggoView>, s: Seq<(u128, DoggoView)>) -> Map<u128, DoggoView>
    decreases s.len(),
{
    if s.len() == 0 {
        m
    } else {
        let p = seeded(m, s.drop_last());
        if p.contains_key(s.last().0) {
            p
        } else {
            p.insert(s.last().0, s.last().1)
        }
    }
}

/// Seconds to wait for a watchdog at `now`, never below the minimum sleep.
pub open spec fn wait_for(d: DoggoView, now: int) -> int {
    if remaining(d, now) < MIN_SLEEP {
        MIN_SLEEP as int
    } else {
        remaining(d, now)
    }
}

impl View for Kennel {
    type V = Map<u128, DoggoView>;

    open spec fn view(&self) -> Map<u128, DoggoView> {
        keyed(doggo_entries(self.doggos@))
    }
}

impl Kennel {
    pub open spec fn wf(&self) -> bool {
        &&& unique_keys(doggo_entries(self.doggos@))
        &&& all_wf(self.doggos@)
    }

    pub fn empty() -> (r: Kennel)
        ensures
            r.wf(),
            r@ == Map::<u128, DoggoView>::empty(),
    {
        let r = Kennel { doggos: Vec::new() };
        assert(doggo_entries(r.doggos@) =~= Seq::empty());
        r
    }

    /// Where the watchdog with id `id` stands, if there is one.
    fn find(&self, id: u128) -> (r: Option<usize>)
        ensures
            match r {
                Some(i) => i < self.doggos@.len() && self.doggos@[i as int].id == id,
                None => !has_key(doggo_entries(self.doggos@), id),
            },
    {
        let mut i: usize = 0;
        while i < self.doggos.len()
            invariant
                i <= self.doggos@.len(),
                forall|j: int| 0 <= j < i ==> self.doggos@[j].id != id,
            decreases self.doggos@.len() - i,
        {
            if self.doggos[i].id == id {
                return Some(i);
            }
            i = i + 1;
        }
        proof {
            if has_key(doggo_entries(self.doggos@), id) {
                let j = choose|j: int|
                    0 <= j < doggo_entries(self.doggos@).len() && doggo_entries(self.doggos@)[j].0
                        == id;
                assert(self.doggos@[j].id == id);
            }
        }
        None
    }

    pub fn contains(&self, id: u128) -> (r: bool)
        ensures
            r == self@.contains_key(id),
    {
        let found = self.find(id);
        proof {
            lemma_keyed_domain(doggo_entries(self.doggos@), id);
            if let Some(i) = found {
                assert(doggo_entries(self.doggos@)[i as int].0 == id);
            }
        }
        found.is_some()
    }

    /// Stores the watchdog under its id, replacing one with the same id.
    pub fn insert(&mut self, doggo: Doggo)
        requires
            old(self).wf(),
            doggo.wf(),
        ensures
            final(self).wf(),
            final(self)@ == old(self)@.insert(doggo.id, doggo@),
    {
        let ghost e = (doggo.id, doggo@);
        match self.find(doggo.id) {
            Some(i) => {
                proof {
                    lemma_keyed_update(doggo_entries(self.doggos@), i as int, doggo@);
                }
                self.doggos.set(i, doggo);
                proof {
                    assert(doggo_entries(self.doggos@) =~= doggo_entries(old(self).doggos@).update(
                        i as int,
                        e,
                    ));
                }
            },
            None => {
                proof {
                    lemma_keyed_push(doggo_entries(self.doggos@), e);
                    lemma_unique_push(doggo_entries(self.doggos@), e);
                }
                self.doggos.push(doggo);
                proof {
                    assert(doggo_entries(self.doggos@) =~= doggo_entries(old(self).doggos@).push(e));
                }
            },
        }
    }

    /// The kennel holding the given watchdogs; of two with one id the later stays.
    pub fn from_doggos(doggos: Vec<Doggo>) -> (r: Kennel)
        requires
            all_wf(doggos@),
        ensures
            r.wf(),
            r@ == keyed(doggo_entries(doggos@)),
    {
        let mut r = Kennel::empty();
        let mut rest = doggos;
        let ghost all = rest@;
        let total: usize = rest.len();
        let mut n: usize = 0;
        while rest.len() > 0
            invariant
                r.wf(),
                n + rest@.len() == all.len(),
                all.len() == total,
                rest@ == all.subrange(n as int, all.len() as int),
                r@ == keyed(doggo_entries(all.subrange(0, n as int))),
                all_wf(all),
            decreases rest@.len(),
        {
            let d = rest.remove(0);
            proof {
                assert(d == all[n as int]);
                assert(doggo_entries(all.subrange(0, n + 1)) =~= doggo_entries(
                    all.subrange(0, n as int),
                ).push((d.id, d@)));
                lemma_keyed_push(doggo_entries(all.subrange(0, n as int)), (d.id, d@));
            }
            r.insert(d);
            n = n + 1;
        }
        proof {
            assert(all.subrange(0, n as int) =~= all);
        }
        r
    }

    /// Restores the kennel from what reading the persisted state produced:
    /// nothing to read and unreadable state both give an empty kennel.
    pub fn restore(outcome: LoadOutcome) -> (r: Kennel)
        requires
            outcome is Loaded ==> all_wf(outcome->Loaded_0@),
        ensures
            r.wf(),
            r@ == loaded(outcome),
    {
        match outcome {
            LoadOutcome::Loaded(doggos) => Kennel::from_doggos(doggos),
            _ => Kennel::empty(),
        }
    }
    /// Adds each given watchdog whose id is not present yet, keeping what
    /// the kennel already holds.
    pub fn merge(&mut self, defaults: Vec<Doggo>)
        requires
            old(self).wf(),
            all_wf(defaults@),
        ensures
            final(self).wf(),
            final(self)@ == seeded(old(self)@, doggo_entries(defaults@)),
            forall|k: u128| #[trigger] old(self)@.contains_key(k) ==> final(self)@.contains_key(k)
                && final(self)@[k] == old(self)@[k],
    {
        let mut rest = defaults;
        let ghost all = rest@;
        let total: usize = rest.len();
        let mut n: usize = 0;
        while rest.len() > 0
            invariant
                self.wf(),
                n + rest@.len() == all.len(),
                all.len() == total,
                rest@ == all.subrange(n as int, all.len() as int),
                self@ == seeded(old(self)@, doggo_entries(all.subrange(0, n as int))),
                all_wf(all),
            decreases rest@.len(),
        {
            let d = rest.remove(0);
            proof {
                assert(d == all[n as int]);
                assert(doggo_entries(all.subrange(0, n + 1)).drop_last() =~= doggo_entries(
                    all.subrange(0, n as int),
                ));
            }
            if !self.contains(d.id) {
                self.insert(d);
            }
            n = n + 1;
        }
        proof {
            assert(all.subrange(0, n as int) =~= all);
            assert forall|k: u128| #[trigger] old(self)@.contains_key(k) implies self@.contains_key(k)
                && self@[k] == old(self)@[k] by {
                lemma_seeded_keeps(old(self)@, doggo_entries(defaults@), k);
            }
        }
    }

    /// The positions of the watchdogs that are due at `now`, in order.
    pub fn pending(&self, now: Timestamp) -> (r: Vec<usize>)
        ensures
            forall|j: int| 0 <= j < r@.len() ==> r@[j] < self.doggos@.len(),
            forall|j: int, l: int| 0 <= j < l < r@.len() ==> r@[j] < r@[l],
            forall|i: int|
                0 <= i < self.doggos@.len() ==> (r@.contains(i as usize) <==> is_due_at(
                    #[trigger] self.doggos@[i]@,
                    now.second as int,
                )),
    {
        let mut r: Vec<usize> = Vec::new();
        let mut i: usize = 0;
        while i < self.doggos.len()
            invariant
                i <= self.doggos@.len(),
                forall|j: int| 0 <= j < r@.len() ==> r@[j] < i,
                forall|j: int, l: int| 0 <= j < l < r@.len() ==> r@[j] < r@[l],
                forall|m: int|
                    0 <= m < i ==> (r@.contains(m as usize) <==> is_due_at(
                        #[trigger] self.doggos@[m]@,
                        now.second as int,
                    )),
            decreases self.doggos@.len() - i,
        {
            let ghost before = r@;
            if self.doggos[i].is_due(now) {
                r.push(i);
            }
            proof {
                assert forall|m: int|
                    0 <= m <= i implies (r@.contains(m as usize) <==> is_due_at(
                    #[trigger] self.doggos@[m]@,
                    now.second as int,
                )) by {
                    if r@.contains(m as usize) {
                        let j = choose|j: int| 0 <= j < r@.len() && r@[j] == m as usize;
                        if j < before.len() {
                            assert(before[j] == m as usize);
                            assert(before.contains(m as usize));
                        }
                    }
                    if m < i && before.contains(m as usize) {
                        let j = choose|j: int| 0 <= j < before.len() && before[j] == m as usize;
                        assert(r@[j] == m as usize);
                    }
                    if m == i && is_due_at(self.doggos@[m]@, now.second as int) {
                        assert(r@[r@.len() - 1] == i);
                    }
                }
            }
            i = i + 1;
        }
        r
    }

    /// Runs the watchdog at position `i` on a fetched snapshot, at `now`, and
    /// returns the listings it had not seen before.
    pub fn run_doggo(&mut self, i: usize, now: Timestamp, fetched: Vec<Ad>) -> (r: Vec<Ad>)
        requires
            old(self).wf(),
            i < old(self).doggos@.len(),
        ensures
            final(self).wf(),
            final(self).doggos@.len() == old(self).doggos@.len(),
            ({
                let id = old(self).doggos@[i as int].id;
                &&& final(self)@ == old(self)@.insert(
                    id,
                    after_run(old(self)@[id], views(fetched@), now.second as int),
                )
                &&& views(r@) == crate::model::fresh_among(old(self)@[id].seen, views(fetched@))
            }),
    {
        let ghost id = self.doggos@[i as int].id;
        proof {
            lemma_keyed_value(doggo_entries(self.doggos@), i as int);
        }
        let mut d = self.doggos.remove(i);
        let r = d.run(now, fetched);
        self.doggos.insert(i, d);
        proof {
            assert(self.doggos@ =~= old(self).doggos@.update(i as int, d));
            lemma_keyed_update(doggo_entries(old(self).doggos@), i as int, d@);
            assert(doggo_entries(self.doggos@) =~= doggo_entries(old(self).doggos@).update(
                i as int,
                (id, d@),
            ));
            assert forall|j: int| 0 <= j < self.doggos@.len() implies (#[trigger] self.doggos@[j]).wf() by {
                if j != i {
                    assert(self.doggos@[j] == old(self).doggos@[j]);
                }
            }
        }
        r
    }

    /// Seconds until the closest next run, at least the minimum sleep; none
    /// without watchdogs.
    pub fn until_next_run(&self, now: Timestamp) -> (r: Option<u64>)
        requires
            self.wf(),
        ensures
            r is None <==> self@.dom().is_empty(),
            r matches Some(w) ==> {
                &&& forall|k: u128| #[trigger] self@.contains_key(k) ==> w <= wait_for(self@[k], now.second as int)
                &&& exists|k: u128| #[trigger] self@.contains_key(k) && w == wait_for(self@[k], now.second as int)
            },
    {
        let mut best: Option<u64> = None;
        let mut i: usize = 0;
        while i < self.doggos.len()
            invariant
                i <= self.doggos@.len(),
                best is None <==> i == 0,
                best matches Some(w) ==> {
                    &&& forall|j: int| 0 <= j < i ==> w <= wait_for(#[trigger] self.doggos@[j]@, now.second as int)
                    &&& exists|j: int| 0 <= j < i && w == wait_for(#[trigger] self.doggos@[j]@, now.second as int)
                },
            decreases self.doggos@.len() - i,
        {
            let w = wait_secs(&self.doggos[i], now);
            best = match best {
                None => Some(w),
                Some(b) => if w < b { Some(w) } else { Some(b) },
            };
            i = i + 1;
        }
        proof {
            let s = doggo_entries(self.doggos@);
            if self.doggos@.len() == 0 {
                assert(s =~= Seq::<(u128, DoggoView)>::empty());
                assert(self@.dom() =~= Set::<u128>::empty());
            } else {
                lemma_keyed_value(s, 0);
                assert(self@.dom().contains(self.doggos@[0].id));
            }
            if let Some(w) = best {
                assert forall|k: u128| #[trigger] self@.contains_key(k) implies w <= wait_for(self@[k], now.second as int) by {
                    lemma_keyed_domain(s, k);
                    let j = choose|j: int| 0 <= j < s.len() && s[j].0 == k;
                    lemma_keyed_value(s, j);
                    assert(w <= wait_for(self.doggos@[j]@, now.second as int));
                }
                let j = choose|j: int| 0 <= j < self.doggos@.len() && w == wait_for(#[trigger] self.doggos@[j]@, now.second as int);
                lemma_keyed_value(s, j);
                assert(self@.contains_key(s[j].0) && w == wait_for(self@[s[j].0], now.second as int));
            }
        }
        best
    }

    /// How long to sleep before the next scheduling cycle, in seconds.
    pub fn sleep_duration(&self, now: Timestamp) -> (r: u64)
        requires
            self.wf(),
        ensures
            r >= MIN_SLEEP,
            self@.dom().is_empty() ==> r == MIN_SLEEP,
            !self@.dom().is_empty() ==> {
                &&& forall|k: u128| #[trigger] self@.contains_key(k) ==> r <= wait_for(self@[k], now.second as int)
                &&& exists|k: u128| #[trigger] self@.contains_key(k) && r == wait_for(self@[k], now.second as int)
            },
    {
        match self.until_next_run(now) {
            Some(w) => w,
            None => MIN_SLEEP,
        }
    }
}

/// Restoring a kennel from records of its watchdogs, in any order, gives back
/// the same watchdogs under the same ids, with the same observed listings.
pub proof fn lemma_store_round_trip(k: Kennel, records: Vec<Doggo>)
    requires
        k.wf(),
        unique_keys(doggo_entries(records@)),
        doggo_entries(records@).to_set() == doggo_entries(k.doggos@).to_set(),
    ensures
        loaded(LoadOutcome::Loaded(records)) == k@,
        loaded(LoadOutcome::Loaded(records)).dom() == k@.dom(),
        forall|id: u128| #[trigger] k@.contains_key(id) ==> loaded(LoadOutcome::Loaded(records))[id].seen.dom() == k@[id].seen.dom(),
{
    lemma_keyed_same_entries(doggo_entries(records@), doggo_entries(k.doggos@));
}

/// Seeding never changes or drops a watchdog that was already there.
pub proof fn lemma_seeded_keeps(m: Map<u128, DoggoView>, s: Seq<(u128, DoggoView)>, k: u128)
    requires
        m.contains_key(k),
    ensures
        seeded(m, s).contains_key(k),
        seeded(m, s)[k] == m[k],
    decreases s.len(),
{
    if s.len() > 0 {
        lemma_seeded_keeps(m, s.drop_last(), k);
    }
}

/// After seeding, every seeded id is present.
proof fn lemma_seeded_has_all(m: Map<u128, DoggoView>, s: Seq<(u128, DoggoView)>, i: int)
    requires
        0 <= i < s.len(),
    ensures
        seeded(m, s).contains_key(s[i].0),
    decreases s.len(),
{
    if i < s.len() - 1 {
        lemma_seeded_has_all(m, s.drop_last(), i);
    }
}

/// Seeding a map that holds every seeded id changes nothing.
proof fn lemma_seeded_present(m: Map<u128, DoggoView>, s: Seq<(u128, DoggoView)>)
    requires
        forall|i: int| 0 <= i < s.len() ==> m.contains_key(#[trigger] s[i].0),
    ensures
        seeded(m, s) == m,
    decreases s.len(),
{
    if s.len() > 0 {
        let t = s.drop_last();
        assert forall|i: int| 0 <= i < t.len() implies m.contains_key(#[trigger] t[i].0) by {
            assert(t[i] == s[i]);
        }
        lemma_seeded_present(m, t);
        assert(m.contains_key(s[s.len() - 1].0));
    }
}

/// Seeding twice with the same watchdogs is the same as seeding once.
pub proof fn lemma_seeding_idempotent(m: Map<u128, DoggoView>, s: Seq<(u128, DoggoView)>)
    ensures
        seeded(seeded(m, s), s) == seeded(m, s),
{
    assert forall|i: int| 0 <= i < s.len() implies seeded(m, s).contains_key(#[trigger] s[i].0) by {
        lemma_seeded_has_all(m, s, i);
    }
    lemma_seeded_present(seeded(m, s), s);
}

/// Seconds to wait for one watchdog at `now`.
fn wait_secs(d: &Doggo, now: Timestamp) -> (r: u64)
    ensures
        r == wait_for(d@, now.second as int),
{
    let next = d.next_run_at(now);
    let rem: i128 = next.second as i128 - now.second as i128;
    if rem < MIN_SLEEP as i128 {
        MIN_SLEEP
    } else {
        rem as u64
    }
}

} // verus!
