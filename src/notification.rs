//! What a notification about new listings says, to whom it goes, and which
//! mail exchange takes it.
use vstd::prelude::*;

use crate::model::{ad_url, views, Ad, AdView, Doggo};

verus! {

/// Why no mail exchange could be found for an address.
#[derive(Clone, Copy, Debug, PartialEq, Eq, Structural)]
pub enum ResolveError {
    /// The address has no domain part.
    InvalidAddress,
    /// The domain has no mail exchange records.
    NoMailExchange,
}

/// Position of the first `@` of `s` at or after `from`, or the length of `s`.
pub open spec fn first_at(s: Seq<char>, from: int) -> int
    decreases s.len() - from,
{
    if from < 0 || from >= s.len() {
        s.len() as int
    } else if s[from] == '@' {
        from
    } else {
        first_at(s, from + 1)
    }
}

/// The domain part of an address: what follows its first `@`, up to the next
/// `@` or the end; none without an `@`.
pub open spec fn email_domain(s: Seq<char>) -> Option<Seq<char>> {
    let p = first_at(s, 0);
    if p >= s.len() {
        None
    } else {
        Some(s.subrange(p + 1, first_at(s, p + 1)))
    }
}

proof fn lemma_first_at_bounds(s: Seq<char>, from: int)
    requires
        0 <= from <= s.len(),
    ensures
        from <= first_at(s, from) <= s.len(),
        first_at(s, from) < s.len() ==> s[first_at(s, from)] == '@',
    decreases s.len() - from,
{
    if from < s.len() && s[from] != '@' {
        lemma_first_at_bounds(s, from + 1);
    }
}

/// Position of the first `@` of `s` at or after `from`.
fn find_at(s: &str, from: usize, len: usize) -> (r: usize)
    requires
        len == s@.len(),
        from <= len,
    ensures
        r == first_at(s@, from as int),
{
    let mut i: usize = from;
    while i < len
        invariant
            from <= i <= len,
            len == s@.len(),
            first_at(s@, from as int) == first_at(s@, i as int),
        decreases len - i,
    {
        if s.get_char(i) == '@' {
            return i;
        }
        i = i + 1;
    }
    i
}

/// The domain part of an email address.
pub fn get_email_domain(email: &str) -> (r: Result<&str, ResolveError>)
    ensures
        match r {
            Ok(d) => email_domain(email@) == Some(d@),
            Err(e) => e == ResolveError::InvalidAddress && email_domain(email@) is None,
        },
{
    let len = email.unicode_len();
    let p = find_at(email, 0, len);
    proof {
        lemma_first_at_bounds(email@, 0);
    }
    if p == len {
        return Err(ResolveError::InvalidAddress);
    }
    let q = find_at(email, p + 1, len);
    proof {
        lemma_first_at_bounds(email@, p + 1);
    }
    Ok(email.substring_char(p + 1, q))
}

/// The mail exchange to deliver to: the first of the records that the lookup
/// returned.
pub fn pick_mail_exchange(records: Vec<String>) -> (r: Result<String, ResolveError>)
    ensures
        match r {
            Ok(host) => records@.len() > 0 && host@ == records@[0]@,
            Err(e) => e == ResolveError::NoMailExchange && records@.len() == 0,
        },
{
    if records.len() == 0 {
        Err(ResolveError::NoMailExchange)
    } else {
        Ok(records[0].clone())
    }
}

/// The line that presents one listing.
pub open spec fn ad_line(a: AdView) -> Seq<char> {
    "- "@ + a.title + ": "@ + ad_url(a.id) + "\r\n"@
}

/// The lines that present the listings, in order.
pub open spec fn ad_lines(ads: Seq<AdView>) -> Seq<char>
    decreases ads.len(),
{
    if ads.len() == 0 {
        Seq::empty()
    } else {
        ad_lines(ads.drop_last()) + ad_line(ads.last())
    }
}

/// The heading of every notification.
pub open spec fn message_heading() -> Seq<char> {
    "=== NOVÉ INZERÁTY ===\n\n"@
}

/// The plain-text body that presents the listings.
pub open spec fn message_body(ads: Seq<AdView>) -> Seq<char> {
    message_heading() + ad_lines(ads)
}

pub fn build_message(ads: &[Ad]) -> (r: String)
    ensures
        r@ == message_body(views(ads@)),
{
    let mut res = String::from_str("=== NOVÉ INZERÁTY ===\n\n");
    let mut i: usize = 0;
    while i < ads.len()
        invariant
            i <= ads@.len(),
            res@ == message_heading() + ad_lines(views(ads@).subrange(0, i as int)),
        decreases ads@.len() - i,
    {
        let ad = &ads[i];
        let url = ad.url();
        res.append("- ");
        res.append(ad.title.as_str());
        res.append(": ");
        res.append(url.as_str());
        res.append("\r\n");
        proof {
            let pre = views(ads@).subrange(0, i + 1);
            assert(pre.drop_last() =~= views(ads@).subrange(0, i as int));
            assert(pre.last() == ad@);
            assert(res@ =~= message_heading() + ad_lines(pre));
        }
        i = i + 1;
    }
    proof {
        assert(views(ads@).subrange(0, ads@.len() as int) =~= views(ads@));
    }
    res
}

/// A plain-text email, ready to be signed and delivered.
#[derive(Debug)]
pub struct Email {
    pub from_name: String,
    pub from_address: String,
    pub to: String,
    pub subject: String,
    pub body: String,
}

/// The address notifications are sent from.
pub open spec fn sender_address() -> Seq<char> {
    "doggo@zilvar.jentak.co"@
}

/// The subject of every notification.
pub open spec fn notification_subject() -> Seq<char> {
    "Vyčmuchal jsem nové inzeráty!"@
}

/// The notification to send about a watchdog's new listings; none when there
/// are none.
pub fn compose_notification(doggo: &Doggo, new_ads: &[Ad]) -> (r: Option<Email>)
    ensures
        r is None <==> new_ads@.len() == 0,
        r matches Some(m) ==> {
            &&& m.from_name@ == doggo.name@
            &&& m.from_address@ == sender_address()
            &&& m.to@ == doggo.email@
            &&& m.subject@ == notification_subject()
            &&& m.body@ == message_body(views(new_ads@))
        },
{
    if new_ads.len() == 0 {
        return None;
    }
    Some(
        Email {
            from_name: doggo.name.clone(),
            from_address: String::from_str("doggo@zilvar.jentak.co"),
            to: doggo.email.clone(),
            subject: String::from_str("Vyčmuchal jsem nové inzeráty!"),
            body: build_message(new_ads),
        },
    )
}

} // verus!
