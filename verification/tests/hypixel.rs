use bridge_scrims::hypixel::{ApiError, MojangPlayer, Player, PlayerDataRequest, UUID};

#[test]
fn uuid_parse_display() {
    let byte_array = [
        74, 223, 226, 126, 99, 211, 69, 185, 130, 56, 98, 182, 237, 111, 219, 94,
    ];
    let uuid = "4adfe27e-63d3-45b9-8238-62b6ed6fdb5e";
    let simple_uuid = "4adfe27e63d345b9823862b6ed6fdb5e";
    let parsed_uuid = UUID::from_str(uuid).unwrap();

    assert_eq!(parsed_uuid, UUID(byte_array));
    assert_eq!(parsed_uuid.display(), simple_uuid);
    assert_eq!(parsed_uuid.display_alternate(), uuid);
}

#[test]
fn uuid_without_hyphens_reads_the_same() {
    let a = UUID::from_str("4adfe27e63d345b9823862b6ed6fdb5e").unwrap();
    let b = UUID::from_str("4adfe27e-63d3-45b9-8238-62b6ed6fdb5e").unwrap();
    assert_eq!(a, b);
}

#[test]
fn uuid_upper_case_digits() {
    let a = UUID::from_str("4ADFE27E63D345B9823862B6ED6FDB5E").unwrap();
    assert_eq!(a.display(), "4adfe27e63d345b9823862b6ed6fdb5e");
}

#[test]
fn uuid_too_short_is_invalid() {
    assert!(matches!(UUID::from_str("4adfe27e"), Err(ApiError::InvalidUUID)));
}

#[test]
fn uuid_bad_digit_is_invalid() {
    assert!(matches!(
        UUID::from_str("4adfe27e63d345b9823862b6ed6fdb5g"),
        Err(ApiError::InvalidUUID)
    ));
}

#[test]
fn uuid_shown_then_read_gives_it_back() {
    let u = UUID([0, 1, 2, 3, 4, 5, 6, 7, 8, 9, 10, 11, 12, 13, 14, 255]);
    let shown = u.display_alternate();
    assert_eq!(shown, "00010203-0405-0607-0809-0a0b0c0d0eff");
    assert_eq!(UUID::from_str(&shown).unwrap(), u);
    assert_eq!(UUID::from_str(&u.display()).unwrap(), u);
}

#[test]
fn player_from_mojang_reads_the_id() {
    let json = MojangPlayer { id: String::from("069a79f444e94726a5befca90e38aaf5") };
    let player = Player::from_mojang(&json).unwrap();
    assert_eq!(player.0.display(), "069a79f444e94726a5befca90e38aaf5");
}

#[test]
fn player_profile_url() {
    assert_eq!(
        Player::profile_url("Notch"),
        "https://api.mojang.com/users/profiles/minecraft/Notch"
    );
}

#[test]
fn player_data_request_parts() {
    let key = UUID([1; 16]);
    let player = Player(UUID([2; 16]));
    let req = PlayerDataRequest(key, player);
    assert_eq!(req.api_key(), "01010101010101010101010101010101");
    assert_eq!(req.url(), "https://api.hypixel.net/player");
    assert_eq!(req.uuid_query(), "02020202020202020202020202020202");
}

#[test]
fn uuid_non_ascii_digits_are_invalid() {
    // sixteen two-byte characters make 32 bytes of digits that are not hexadecimal
    let s: String = std::iter::repeat('é').take(16).collect();
    assert_eq!(s.len(), 32);
    assert!(matches!(UUID::from_str(&s), Err(ApiError::InvalidUUID)));
    let player = bridge_scrims::hypixel::MojangPlayer { id: s };
    assert!(matches!(bridge_scrims::hypixel::Player::from_mojang(&player), Err(ApiError::InvalidUUID)));
}
