//! Turning the offers found on a search page into listings.
use vstd::prelude::*;

use crate::model::{views, Ad, AdView};

verus! {

/// `s[p..q]` follows `/inzerat/` at `p` and is ended by the `/` at `q`: at
/// least one character, none of them a line feed.
pub open spec fn id_match(s: Seq<char>, p: int, q: int) -> bool {
    &&& 0 <= p
    &&& p + 9 < q < s.len()
    &&& s.subrange(p, p + 9) == "/inzerat/"@
    &&& s[q] == '/'
    &&& forall|m: int| p + 9 <= m < q ==> s[m] != '\n'
}

/// The match that a search for `/inzerat/(.+?)/` reports: the one that starts
/// first, and of those the shortest.
pub open spec fn first_id_match(s: Seq<char>, p: int, q: int) -> bool {
    &&& id_match(s, p, q)
    &&& forall|p2: int, q2: int| p2 < p ==> !id_match(s, p2, q2)
    &&& forall|q2: int| q2 < q ==> !id_match(s, p, q2)
}

/// The listing id that a link holds: the text between `/inzerat/` and the
/// next `/`, in the first place where there is one.
pub open spec fn listing_id(href: Seq<char>) -> Option<Seq<char>> {
    if exists|p: int, q: int| first_id_match(href, p, q) {
        let (p, q) = choose|p: int, q: int| first_id_match(href, p, q);
        Some(href.subrange(p + 9, q))
    } else {
        None
    }
}

/// Relies on regex::Regex::new, Regex::captures and Captures::name: the
/// pattern is a valid one, and the capture group of the leftmost-first match of
/// `/inzerat/(?P<id>.+?)/`, where `.` is any character but a line feed.
#[verifier::external_body]
fn capture_listing_id(href: &str) -> (r: Option<String>)
    ensures
        match r {
            Some(id) => listing_id(href@) == Some(id@),
            None => listing_id(href@) is None,
        },
{
    let re = regex::Regex::new(r"/inzerat/(?P<id>.+?)/").ok()?;
    re.captures(href)?.name("id").map(|m| m.as_str().to_string())
}

/// The listing id in a link to a listing.
pub fn parse_id(href: &str) -> (r: Option<String>)
    ensures
        match r {
            Some(id) => listing_id(href@) == Some(id@),
            None => listing_id(href@) is None,
        },
{
    capture_listing_id(href)
}

/// The parts joined, with a space between two neighbours.
pub open spec fn joined(parts: Seq<Seq<char>>) -> Seq<char>
    decreases parts.len(),
{
    if parts.len() == 0 {
        Seq::empty()
    } else if parts.len() == 1 {
        parts[0]
    } else {
        joined(parts.drop_last()) + " "@ + parts.last()
    }
}

/// The views of a list of strings.
pub open spec fn texts(parts: Seq<String>) -> Seq<Seq<char>> {
    parts.map_values(|p: String| p@)
}

/// A listing's title from the text pieces of its heading.
pub fn parse_title(parts: &Vec<String>) -> (r: String)
    ensures
        r@ == joined(texts(parts@)),
{
    let mut r = String::new();
    let mut i: usize = 0;
    while i < parts.len()
        invariant
            i <= parts@.len(),
            r@ == joined(texts(parts@).subrange(0, i as int)),
        decreases parts@.len() - i,
    {
        proof {
            let pre = texts(parts@).subrange(0, i + 1);
            assert(pre.drop_last() =~= texts(parts@).subrange(0, i as int));
        }
        if i > 0 {
            r.append(" ");
        }
        r.append(parts[i].as_str());
        proof {
            let pre = texts(parts@).subrange(0, i + 1);
            if i == 0 {
                assert(r@ =~= pre[0]);
            } else {
                assert(r@ =~= joined(pre.drop_last()) + " "@ + pre.last());
            }
        }
        i = i + 1;
    }
    proof {
        assert(texts(parts@).subrange(0, parts@.len() as int) =~= texts(parts@));
    }
    r
}

/// What a search page shows of one offer: the target of its link and the
/// text pieces of its heading, where it has them.
#[derive(Debug)]
pub struct Offer {
    pub href: Option<String>,
    pub heading: Option<Vec<String>>,
}

/// The listing an offer stands for, if its link holds an id and it has a heading.
pub open spec fn offer_ad(o: Offer) -> Option<AdView> {
    match (o.href, o.heading) {
        (Some(h), Some(parts)) => match listing_id(h@) {
            Some(id) => Some(AdView { id, title: joined(texts(parts@)) }),
            None => None,
        },
        _ => None,
    }
}

/// The listings of the offers that stand for one, in order.
pub open spec fn offers_ads(offers: Seq<Offer>) -> Seq<AdView>
    decreases offers.len(),
{
    if offers.len() == 0 {
        Seq::empty()
    } else {
        let rest = offers_ads(offers.drop_last());
        match offer_ad(offers.last()) {
            Some(a) => rest.push(a),
            None => rest,
        }
    }
}

/// The listing an offer stands for.
pub fn offer_to_ad(offer: &Offer) -> (r: Option<Ad>)
    ensures
        match r {
            Some(a) => offer_ad(*offer) == Some(a@),
            None => offer_ad(*offer) is None,
        },
{
    match (&offer.href, &offer.heading) {
        (Some(h), Some(parts)) => match parse_id(h.as_str()) {
            Some(id) => Some(Ad { cb_id: id, title: parse_title(parts) }),
            None => None,
        },
        _ => None,
    }
}

/// The listings that the offers on a search page stand for, in page order.
pub fn ads_from_offers(offers: &Vec<Offer>) -> (r: Vec<Ad>)
    ensures
        views(r@) == offers_ads(offers@),
{
    let mut r: Vec<Ad> = Vec::new();
    let mut i: usize = 0;
    while i < offers.len()
        invariant
            i <= offers@.len(),
            views(r@) == offers_ads(offers@.subrange(0, i as int)),
        decreases offers@.len() - i,
    {
        let ghost before = r@;
        proof {
            assert(offers@.subrange(0, i + 1).drop_last() =~= offers@.subrange(0, i as int));
        }
        match offer_to_ad(&offers[i]) {
            Some(a) => {
                r.push(a);
                proof {
                    assert(views(r@) =~= views(before).push(r@.last()@));
                }
            },
            None => {},
        }
        i = i + 1;
    }
    proof {
        assert(offers@.subrange(0, offers@.len() as int) =~= offers@);
    }
    r
}

} // verus!
