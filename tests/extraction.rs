use zilvar::extraction::{ads_from_offers, parse_id, parse_title, Offer};

fn offer(href: Option<&str>, heading: Option<&[&str]>) -> Offer {
    Offer {
        href: href.map(|h| h.to_string()),
        heading: heading.map(|parts| parts.iter().map(|p| p.to_string()).collect()),
    }
}

#[test]
fn id_is_taken_from_the_listing_link() {
    assert_eq!(parse_id("/inzerat/123-kolo/nazev"), Some("123-kolo".to_string()));
    assert_eq!(
        parse_id("https://www.cyklobazar.cz/inzerat/987/sedlo-x"),
        Some("987".to_string())
    );
}

#[test]
fn id_is_the_shortest_from_the_first_occurrence() {
    assert_eq!(parse_id("/a/inzerat/x/y/inzerat/z/"), Some("x".to_string()));
    assert_eq!(parse_id("/inzerat//a/"), Some("/a".to_string()));
}

#[test]
fn link_without_an_id_gives_none() {
    assert_eq!(parse_id("/inzerat/123"), None);
    assert_eq!(parse_id("/inzerat//"), None);
    assert_eq!(parse_id("/inzerat/a\nb/"), None);
    assert_eq!(parse_id(""), None);
}

#[test]
fn title_joins_heading_pieces() {
    assert_eq!(parse_title(&vec![]), "");
    assert_eq!(parse_title(&vec!["Sedlo".to_string()]), "Sedlo");
    assert_eq!(
        parse_title(&vec!["Sedlo".to_string(), "Selle".to_string(), "Italia".to_string()]),
        "Sedlo Selle Italia"
    );
}

#[test]
fn offers_without_id_or_heading_are_skipped() {
    let offers = vec![
        offer(Some("/inzerat/1/a"), Some(&["Bike"])),
        offer(None, Some(&["No link"])),
        offer(Some("/inzerat/2/b"), None),
        offer(Some("/jine/3/c"), Some(&["Elsewhere"])),
        offer(Some("/inzerat/4/d"), Some(&["Frame", "56"])),
    ];
    let ads = ads_from_offers(&offers);
    assert_eq!(ads.len(), 2);
    assert_eq!(ads[0].cb_id, "1");
    assert_eq!(ads[0].title, "Bike");
    assert_eq!(ads[1].cb_id, "4");
    assert_eq!(ads[1].title, "Frame 56");
}
