use cookie_buf::Cookie;

#[test]
fn test_fields() {
    let mut c = Cookie::new("foo", "bar");
    assert_eq!(c.name(), "foo");
    assert_eq!(c.value(), "bar");
    assert_eq!(c.cookie_pair(), ("foo", "bar"));
    assert_eq!(c.as_str(), "foo=bar");

    c.set_name("quux".into());
    assert_eq!(c.name(), "quux");
    assert_eq!(c.value(), "bar");
    assert_eq!(c.cookie_pair(), ("quux", "bar"));
    assert_eq!(c.as_str(), "quux=bar");
    c.set_name("  foo  ".into());
    assert_eq!(c.name(), "foo");
    assert_eq!(c.value(), "bar");
    assert_eq!(c.cookie_pair(), ("foo", "bar"));
    assert_eq!(c.as_str(), "foo=bar");

    c.set_domain("www.example.com");
    c.set_secure(true);

    c.set_value("booz");
    assert_eq!(c.value(), "booz");
    assert_eq!(c.cookie_pair(), ("foo", "booz"));
    assert_eq!(c.as_str(), "foo=booz; Domain=www.example.com; Secure");
    c.set_value("  bar  ");
    assert_eq!(c.value(), "bar");
    assert_eq!(c.cookie_pair(), ("foo", "bar"));
    assert_eq!(c.as_str(), "foo=bar; Domain=www.example.com; Secure");

    c.set_domain("");
    c.set_secure(false);

    assert_eq!(c.domain(), None);
    c.set_domain("www.example.com");
    assert_eq!(c.domain(), Some("www.example.com"));
    assert_eq!(c.as_str(), "foo=bar; Domain=www.example.com");
    c.set_domain(" foo.example.com ");
    assert_eq!(c.domain(), Some("foo.example.com"));
    assert_eq!(c.as_str(), "foo=bar; Domain=foo.example.com");
    c.set_domain("");
    assert_eq!(c.domain(), None);
    assert_eq!(c.as_str(), "foo=bar");
    c.set_domain(" foo.example.com ");
    assert_eq!(c.domain(), Some("foo.example.com"));
    c.set_domain("  ");
    assert_eq!(c.domain(), None);
    assert_eq!(c.as_str(), "foo=bar");

    assert_eq!(c.path(), None);
    c.set_path("/foo/bus/bar");
    assert_eq!(c.path(), Some("/foo/bus/bar"));
    assert_eq!(c.as_str(), "foo=bar; Path=/foo/bus/bar");
    c.set_path(" /moo/buz/baz ");
    assert_eq!(c.path(), Some("/moo/buz/baz"));
    assert_eq!(c.as_str(), "foo=bar; Path=/moo/buz/baz");
    c.set_path("");
    assert_eq!(c.path(), None);
    assert_eq!(c.as_str(), "foo=bar");
    c.set_path(" /moo/buz/baz ");
    assert_eq!(c.path(), Some("/moo/buz/baz"));
    c.set_path("  ");
    assert_eq!(c.path(), None);
    assert_eq!(c.as_str(), "foo=bar");

    assert_eq!(c.max_age(), None);
    c.set_max_age(1234);
    assert_eq!(c.max_age(), Some(1234));
    assert_eq!(c.max_age_str(), Some("1234"));
    assert_eq!(c.as_str(), "foo=bar; Max-Age=1234");
    c.set_max_age(0);
    assert_eq!(c.max_age(), None);
    assert_eq!(c.max_age_str(), None);
    assert_eq!(c.as_str(), "foo=bar");
    c.set_secure(true);
    c.set_max_age(1234);
    assert_eq!(c.max_age(), Some(1234));
    assert_eq!(c.max_age_str(), Some("1234"));
    assert_eq!(c.as_str(), "foo=bar; Max-Age=1234; Secure");
    c.set_max_age(0);
    assert_eq!(c.max_age(), None);
    assert_eq!(c.max_age_str(), None);
    assert_eq!(c.as_str(), "foo=bar; Secure");
    c.set_secure(false);

    c.set_domain("www.example.com");
    assert_eq!(c.domain(), Some("www.example.com"));
    assert_eq!(c.path(), None);
    assert_eq!(c.as_str(), "foo=bar; Domain=www.example.com");
    c.set_path("/foo/bus/bar");
    assert_eq!(c.domain(), Some("www.example.com"));
    assert_eq!(c.path(), Some("/foo/bus/bar"));
    assert_eq!(c.as_str(), "foo=bar; Domain=www.example.com; Path=/foo/bus/bar");
    c.set_domain("");
    assert_eq!(c.domain(), None);
    assert_eq!(c.path(), Some("/foo/bus/bar"));
    assert_eq!(c.as_str(), "foo=bar; Path=/foo/bus/bar");
    c.set_domain("www.example.com");
    assert_eq!(c.domain(), Some("www.example.com"));
    assert_eq!(c.path(), Some("/foo/bus/bar"));
    assert_eq!(c.as_str(), "foo=bar; Domain=www.example.com; Path=/foo/bus/bar");

    c.set_domain("");
    assert_eq!(c.domain(), None);
    c.set_domain("www.example.com");
    c.set_domain("  ");
    assert_eq!(c.domain(), None);
    c.set_path("");
    assert_eq!(c.path(), None);
    c.set_path("/foo/bus/bar");
    c.set_path("  ");
    assert_eq!(c.path(), None);

    assert_eq!(c.secure(), false);
    c.set_secure(true);
    assert_eq!(c.secure(), true);
    assert_eq!(c.as_str(), "foo=bar; Secure");
    c.set_secure(false);
    assert_eq!(c.secure(), false);
    assert_eq!(c.as_str(), "foo=bar");

    assert_eq!(c.httponly(), false);
    c.set_httponly(true);
    assert_eq!(c.httponly(), true);
    assert_eq!(c.as_str(), "foo=bar; HttpOnly");
    c.set_httponly(false);
    assert_eq!(c.httponly(), false);
    assert_eq!(c.as_str(), "foo=bar");

    c.set_secure(true);
    c.set_httponly(true);
    assert_eq!(c.as_str(), "foo=bar; Secure; HttpOnly");
    c.set_secure(false);
    assert_eq!(c.as_str(), "foo=bar; HttpOnly");
    c.set_secure(true);
    c.set_httponly(false);
    assert_eq!(c.as_str(), "foo=bar; Secure");
    c.set_secure(false);
    assert_eq!(c.as_str(), "foo=bar");
}

#[test]
fn test_ws_trim() {
    let c = Cookie::new("  foo", "  bar");
    assert_eq!(c.name(), "foo");
    assert_eq!(c.value(), "bar");
    let c = Cookie::new("foo  ", "bar  ");
    assert_eq!(c.name(), "foo");
    assert_eq!(c.value(), "bar");
    let c = Cookie::new("  foo  ", "  bar  ");
    assert_eq!(c.name(), "foo");
    assert_eq!(c.value(), "bar");
}

#[test]
fn test_construction_trims() {
    let c = Cookie::new(" foo ", " bar ");
    assert_eq!(c.as_str(), "foo=bar");
    assert_eq!(c.name(), "foo");
    assert_eq!(c.value(), "bar");
}

#[test]
fn test_setter_order_does_not_change_attribute_order() {
    // drive the setters in roughly reverse attribute order; the text must
    // still list Domain, Path, Max-Age, Secure, HttpOnly
    let mut c = Cookie::new("k", "v");
    c.set_httponly(true);
    c.set_secure(true);
    c.set_max_age(77);
    c.set_path("/p");
    c.set_domain("d.example.com");
    assert_eq!(
        c.as_str(),
        "k=v; Domain=d.example.com; Path=/p; Max-Age=77; Secure; HttpOnly"
    );
}

#[test]
fn test_interleaving() {
    let mut c = Cookie::new("foo", "bar");
    c.set_domain("www.example.com");
    c.set_secure(true);
    c.set_value("booz");
    c.set_value("  bar  ");
    assert_eq!(c.as_str(), "foo=bar; Domain=www.example.com; Secure");
}

#[test]
fn test_round_trip_restores_serialization() {
    let mut c = Cookie::new("foo", "bar");
    c.set_path("/keep");
    let before = c.as_str().to_owned();
    c.set_domain("gone.example.com");
    c.set_domain("");
    assert_eq!(c.as_str(), before);
    c.set_max_age(321);
    c.set_max_age(0);
    assert_eq!(c.as_str(), before);
    c.set_secure(true);
    c.set_secure(false);
    assert_eq!(c.as_str(), before);
    c.set_httponly(true);
    c.set_httponly(false);
    assert_eq!(c.as_str(), before);
}

#[test]
fn test_setters_idempotent() {
    let mut c = Cookie::new("foo", "bar");
    c.set_domain("d.example.com");
    let once = c.as_str().to_owned();
    c.set_domain(" d.example.com ");
    assert_eq!(c.as_str(), once);
    c.set_path("/p");
    let once = c.as_str().to_owned();
    c.set_path("/p");
    assert_eq!(c.as_str(), once);
    c.set_max_age(9);
    let once = c.as_str().to_owned();
    c.set_max_age(9);
    assert_eq!(c.as_str(), once);
    c.set_secure(true);
    let once = c.as_str().to_owned();
    c.set_secure(true);
    assert_eq!(c.as_str(), once);
    c.set_name(" foo ");
    assert_eq!(c.as_str(), once);
    c.set_value("bar ");
    assert_eq!(c.as_str(), once);
}

#[test]
fn test_max_age_removed_entirely() {
    let mut c = Cookie::new("foo", "bar");
    let before = c.as_str().to_owned();
    c.set_max_age(1234);
    assert_eq!(c.as_str(), "foo=bar; Max-Age=1234");
    c.set_max_age(0);
    assert_eq!(c.as_str(), before);
    assert_eq!(c.max_age(), None);
    assert_eq!(c.max_age_str(), None);
}

#[test]
fn test_max_age_largest() {
    let mut c = Cookie::new("a", "b");
    c.set_max_age(u64::MAX);
    assert_eq!(c.max_age_str(), Some("18446744073709551615"));
    assert_eq!(c.as_str(), "a=b; Max-Age=18446744073709551615");
}

#[test]
fn test_flag_interaction() {
    let mut c = Cookie::new("foo", "bar");
    c.set_secure(true);
    assert_eq!(c.as_str(), "foo=bar; Secure");
    c.set_httponly(true);
    assert_eq!(c.as_str(), "foo=bar; Secure; HttpOnly");
    c.set_secure(false);
    assert_eq!(c.as_str(), "foo=bar; HttpOnly");
}

#[test]
fn test_into_string() {
    let mut c = Cookie::new("foo", "bar");
    c.set_domain("d.example.com");
    assert_eq!(c.into_string(), "foo=bar; Domain=d.example.com");
}

#[test]
fn test_empty_name_and_value() {
    let c = Cookie::new("", "");
    assert_eq!(c.as_str(), "=");
    assert_eq!(c.name(), "");
    assert_eq!(c.value(), "");
}

#[test]
fn test_adjust() {
    let mut i: usize = 10;
    cookie_buf::adjust(&mut i, 4, 7);
    assert_eq!(i, 13);
    cookie_buf::adjust(&mut i, 13, 2);
    assert_eq!(i, 2);
}

#[test]
fn test_chaining() {
    let mut c = Cookie::new("a", "b");
    c.set_domain("d.example.com").set_path("/p").set_secure(true);
    assert_eq!(c.as_str(), "a=b; Domain=d.example.com; Path=/p; Secure");
}
