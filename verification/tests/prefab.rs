use bridge_scrims::prefab::Prefab;

#[test]
fn prefab_decoding() {
    assert_eq!(Prefab::decode("eyJtZXNzYWdlcyI6W119"), Some(String::from("{\"messages\":[]}")));
    assert_eq!(Prefab::decode("not base64!"), None);
    // valid base64 of bytes that are no UTF-8
    assert_eq!(Prefab::decode("/w=="), None);
    // an overlong encoding of NUL and an encoded surrogate are refused too
    assert_eq!(Prefab::decode("wIA="), None);
    assert_eq!(Prefab::decode("7aCA"), None);
    // multi-byte characters are read whole
    assert_eq!(Prefab::decode("w6k="), Some(String::from("\u{e9}")));
    assert_eq!(Prefab.name(), "prefab");
    let e = Prefab::sent_embed("rules");
    assert_eq!(e.description.as_deref(), Some("The prefab `rules` has been sent."));
    assert_eq!(e.color, Some(0x1abc9c));
}
