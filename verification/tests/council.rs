use bridge_scrims::council::{
    council_embed, council_listing, get_council, update_councils, CouncilInfo, CouncilMember,
};

fn member(id: u64, name: &str, roles: Vec<u64>) -> CouncilMember {
    CouncilMember { id, display_name: name.to_string(), roles }
}

#[test]
fn council_heads_come_first() {
    let ms = vec![
        member(1, "ann", vec![10]),
        member(2, "bob", vec![11]),
        member(3, "cid", vec![10]),
        member(4, "dan", vec![]),
    ];
    assert_eq!(
        council_listing(&ms, 10, 11),
        Some(String::from("<@2> (bob) - Council Head\n\n<@1> (ann)\n<@3> (cid)"))
    );
    assert_eq!(council_listing(&ms, 12, 13), None);
}

#[test]
fn councils_are_listed_and_found() {
    let ms = vec![member(1, "ann", vec![10])];
    let councils = vec![
        CouncilInfo { name: "Bridge".to_string(), role: 10, head: 11 },
        CouncilInfo { name: "Empty".to_string(), role: 20, head: 21 },
    ];
    let listings = update_councils(&ms, &councils);
    assert_eq!(listings.len(), 1);
    assert_eq!(listings[0].name, "Bridge");
    assert_eq!(listings[0].text, "\n<@1> (ann)");
    assert_eq!(get_council(&listings, "Bridge"), Some(0));
    assert_eq!(get_council(&listings, "Empty"), None);
    let e = council_embed("Bridge", Some(&listings[0]));
    assert_eq!(e.title.as_deref(), Some("Bridge Council"));
    assert_eq!(e.color, Some(0xbb77fc));
    let none = council_embed("Empty", None);
    assert_eq!(none.title.as_deref(), Some("Invalid Council"));
    assert_eq!(none.description.as_deref(), Some("The councils are not yet loaded!"));
}
