use bridge_scrims::parse_durations::Duration;

#[test]
fn parse() {
    assert_eq!("30sec 1y".parse::<Duration>().unwrap().0, (30 + 60 * 60 * 24 * 365));
    assert_eq!(
        "3sec 1hour 1day 2months".parse::<Duration>().unwrap().0,
        (3 + 60 * 60 + 60 * 60 * 24 + 60 * 60 * 24 * 30 * 2)
    );
    assert_eq!(
        "1s 1h 1d 1month".parse::<Duration>().unwrap().0,
        (1 + 60 * 60 + 60 * 60 * 24 + 60 * 60 * 24 * 30)
    );
    assert_eq!("1 m1sec 1minn789ad -5h".parse::<Duration>().unwrap().0, (60 * 2));

    assert!("Invalid Duration".parse::<Duration>().is_err());
    assert!("-5h 0sec 34asjda   40others".parse::<Duration>().is_err());

    // u64 overflow on multiplication & addition
    assert!("9999999999999999y".parse::<Duration>().is_err());
    assert!("999999999999y 999999999999y".parse::<Duration>().is_err());
}

#[test]
fn parse_each_unit() {
    assert_eq!(Duration::parse("1s"), Ok(Duration(1)));
    assert_eq!(Duration::parse("1m"), Ok(Duration(60)));
    assert_eq!(Duration::parse("1h"), Ok(Duration(3600)));
    assert_eq!(Duration::parse("1d"), Ok(Duration(86400)));
    assert_eq!(Duration::parse("1w"), Ok(Duration(604800)));
    assert_eq!(Duration::parse("1month"), Ok(Duration(2592000)));
    assert_eq!(Duration::parse("2months"), Ok(Duration(5184000)));
    assert_eq!(Duration::parse("1y"), Ok(Duration(31536000)));
    assert_eq!(Duration::parse("10 m"), Ok(Duration(600)));
}

#[test]
fn parse_zero_and_empty_fail() {
    assert!(Duration::parse("").is_err());
    assert!(Duration::parse("0s").is_err());
    assert!(Duration::parse("0s 0m").is_err());
}

#[test]
fn parse_needs_separator() {
    // "5m" glued to a word is not a match; only the second amount counts.
    assert_eq!(Duration::parse("a5m 2s"), Ok(Duration(2)));
}

#[test]
fn parse_exact_u64_limit() {
    assert_eq!(Duration::parse("18446744073709551615s"), Ok(Duration(u64::MAX)));
    assert!(Duration::parse("18446744073709551616s").is_err());
    assert!(Duration::parse("18446744073709551615s 1s").is_err());
}

#[test]
fn durations_of_joined_texts_add_up() {
    let a = "30s".parse::<Duration>().unwrap();
    let b = "1h 2m".parse::<Duration>().unwrap();
    assert_eq!("30s 1h 2m".parse::<Duration>(), Ok(Duration(a.0 + b.0)));
    let caps = |n: &str, u: &str| vec![None, Some(n.to_string()), Some(u.to_string())];
    let first = vec![caps("30", "s")];
    let second = vec![caps("1", "h"), caps("2", "m")];
    let mut both = first.clone();
    both.extend(second.clone());
    assert_eq!(
        Duration::from_captures(&both),
        Ok(Duration(Duration::from_captures(&first).unwrap().0 + Duration::from_captures(&second).unwrap().0))
    );
}
