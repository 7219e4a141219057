use cookie_buf::Cookie;
use cookie_buf::Timestamp;

fn to_ts(tm: &time::Tm) -> Timestamp {
    Timestamp {
        sec: tm.tm_sec,
        min: tm.tm_min,
        hour: tm.tm_hour,
        mday: tm.tm_mday,
        mon: tm.tm_mon,
        year: tm.tm_year,
        wday: tm.tm_wday,
        yday: tm.tm_yday,
        isdst: tm.tm_isdst,
        utcoff: tm.tm_utcoff,
        nsec: tm.tm_nsec,
    }
}

#[test]
fn test_expires() {
    let expires = "Thu, 22 Mar 2012 14:53:18 GMT";
    let tm = to_ts(&time::strptime(expires, "%a, %d %b %Y %T GMT").unwrap());
    let mut c = Cookie::new("foo", "bar");
    assert_eq!(c.as_str(), "foo=bar");
    assert_eq!(c.expires(), None);
    c.set_expires(Some(tm));
    assert_eq!(c.as_str(), "foo=bar; Expires=Thu, 22 Mar 2012 14:53:18 GMT");
    assert_eq!(c.expires(), Some(tm));
    assert_eq!(c.expires_str(), Some(expires));
    c.set_expires(None);
    assert_eq!(c.as_str(), "foo=bar");
    assert_eq!(c.expires(), None);
    c.set_expires(Some(tm));
    c.set_domain("www.example.com");
    assert_eq!(
        c.as_str(),
        "foo=bar; Domain=www.example.com; Expires=Thu, 22 Mar 2012 14:53:18 GMT"
    );
    c.set_expires(None);
    assert_eq!(c.as_str(), "foo=bar; Domain=www.example.com");
    c.expire();
    assert_eq!(
        c.as_str(),
        "foo=bar; Domain=www.example.com; Expires=Sun, 01 Jan 1900 00:00:00 GMT"
    );
}

#[test]
fn test_expire_after_path() {
    let mut c = Cookie::new("foo", "bar");
    c.set_domain("d.example.com");
    c.set_path("/p");
    c.expire();
    assert_eq!(
        c.as_str(),
        "foo=bar; Domain=d.example.com; Path=/p; Expires=Sun, 01 Jan 1900 00:00:00 GMT"
    );
    assert_eq!(c.expires(), Some(Timestamp::earliest()));
    assert_eq!(c.expires_str(), Some("Sun, 01 Jan 1900 00:00:00 GMT"));
}

#[test]
fn test_expires_round_trip() {
    let expires = "Thu, 22 Mar 2012 14:53:18 GMT";
    let tm = to_ts(&time::strptime(expires, "%a, %d %b %Y %T GMT").unwrap());
    let mut c = Cookie::new("foo", "bar");
    c.set_secure(true);
    let before = c.as_str().to_owned();
    c.set_expires(Some(tm));
    assert_eq!(c.as_str(), "foo=bar; Secure; Expires=Thu, 22 Mar 2012 14:53:18 GMT");
    c.set_expires(None);
    assert_eq!(c.as_str(), before);
}

#[test]
fn test_expires_replaced_in_place() {
    let first = "Thu, 22 Mar 2012 14:53:18 GMT";
    let second = "Fri, 23 Mar 2012 09:00:00 GMT";
    let tm1 = to_ts(&time::strptime(first, "%a, %d %b %Y %T GMT").unwrap());
    let tm2 = to_ts(&time::strptime(second, "%a, %d %b %Y %T GMT").unwrap());
    let mut c = Cookie::new("foo", "bar");
    c.set_expires(Some(tm1));
    c.set_expires(Some(tm2));
    assert_eq!(c.as_str(), "foo=bar; Expires=Fri, 23 Mar 2012 09:00:00 GMT");
    assert_eq!(c.expires(), Some(tm2));
    // setting the same instant again is a no-op
    c.set_expires(Some(tm2));
    assert_eq!(c.as_str(), "foo=bar; Expires=Fri, 23 Mar 2012 09:00:00 GMT");
}
