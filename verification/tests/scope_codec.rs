use deribit::{Access, Scope, IP};

#[test]
fn dump_default_is_bare_session() {
    assert_eq!(Scope::default().dump(), "session:default");
}

#[test]
fn parse_empty_gives_default() {
    assert_eq!(Scope::parse(""), Scope::default());
}

#[test]
fn named_sets_only_the_session() {
    let s = Scope::named("mine");
    assert_eq!(s.dump(), "session:mine");
}

#[test]
fn round_trip_default() {
    let s = Scope::default();
    assert_eq!(Scope::parse(&s.dump()), s);
}

#[test]
fn round_trip_named() {
    let s = Scope::named("alpha");
    assert_eq!(Scope::parse(&s.dump()), s);
}

#[test]
fn round_trip_full_scope() {
    let text = "mainaccount,connection,session:mine,account:read,trade:write,wallet:read,expires_in:100,ip:10.0.0.1,block_trade:read,block_rfq:write";
    let s = Scope::parse(text);
    assert_eq!(s.dump(), text);
    assert_eq!(Scope::parse(&s.dump()), s);
}

#[test]
fn round_trip_ip_wildcard() {
    let s = Scope::parse("session:s,ip:*");
    assert_eq!(s.dump(), "session:s,ip:*");
    assert_eq!(Scope::parse(&s.dump()), s);
}

#[test]
fn round_trip_write_levels() {
    let s = Scope::parse("account:write,trade:read,wallet:write,block_trade:write,block_rfq:read");
    assert_eq!(
        s.dump(),
        "session:default,account:write,trade:read,wallet:write,block_trade:write,block_rfq:read"
    );
    assert_eq!(Scope::parse(&s.dump()), s);
}

#[test]
fn unknown_tokens_are_ignored() {
    assert_eq!(Scope::parse("bogus,wat:42,session:abc"), Scope::named("abc"));
}

#[test]
fn expires_in_bad_number_is_ignored() {
    assert_eq!(Scope::parse("expires_in:abc"), Scope::default());
    assert_eq!(Scope::parse("expires_in:"), Scope::default());
    assert_eq!(
        Scope::parse("expires_in:99999999999999999999999"),
        Scope::default()
    );
}

#[test]
fn expires_in_plus_sign_is_accepted() {
    let s = Scope::parse("expires_in:+7");
    assert_eq!(s.dump(), "session:default,expires_in:7");
}

#[test]
fn expires_in_round_trips_exactly() {
    let s = Scope::parse("expires_in:18446744073709551615");
    assert_eq!(s.dump(), "session:default,expires_in:18446744073709551615");
    assert_eq!(Scope::parse(&s.dump()), s);
}

#[test]
fn ip_value_stops_at_second_colon() {
    let s = Scope::parse("ip:1:2");
    assert_eq!(s.dump(), "session:default,ip:1");
}

#[test]
fn enums_compare_by_variant() {
    assert_eq!(Access::ReadOnly, Access::ReadOnly);
    assert_ne!(Access::ReadOnly, Access::ReadWrite);
    assert_eq!(IP::Any, IP::Any);
    assert_ne!(IP::Any, IP::Unspecified);
}
