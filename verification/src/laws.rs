//! The general laws of the cookie buffer, stated over the abstract view
//! and the transforms that the setters are specified with.

use vstd::prelude::*;

use crate::cookie::seg_domain;
use crate::cookie::seg_expires;
use crate::cookie::seg_httponly;
use crate::cookie::seg_max_age;
use crate::cookie::seg_pair;
use crate::cookie::seg_path;
use crate::cookie::seg_secure;
use crate::cookie::spec_serialize;
use crate::cookie::with_domain;
use crate::cookie::with_expires;
use crate::cookie::with_httponly;
use crate::cookie::with_max_age;
use crate::cookie::with_name;
use crate::cookie::with_path;
use crate::cookie::with_value;
use crate::cookie::with_secure;
use crate::cookie::CookieView;
use crate::text::trim_spec;
use crate::tstamp::Timestamp;

verus! {

/// Whatever order the setters ran in, the rendering lists the present
/// attributes in the one fixed order: Domain, Path, Max-Age, Secure,
/// HttpOnly, Expires.
pub proof fn lemma_serialize_order(m: CookieView)
    ensures
        spec_serialize(m) == seg_pair(m) + seg_domain(m) + seg_path(m) + seg_max_age(m)
            + seg_secure(m) + seg_httponly(m) + seg_expires(m),
{
    assert(spec_serialize(m) =~= seg_pair(m) + seg_domain(m) + seg_path(m) + seg_max_age(m)
        + seg_secure(m) + seg_httponly(m) + seg_expires(m));
}

/// Setting `Domain` on a cookie that had none and then clearing it (with
/// any text that trims to nothing) restores the state, and with it the
/// serialization, exactly.
pub proof fn lemma_domain_round_trip(m: CookieView, raw: Seq<char>, blank: Seq<char>)
    requires
        m.domain is None,
        trim_spec(blank).len() == 0,
    ensures
        with_domain(with_domain(m, raw), blank) == m,
        spec_serialize(with_domain(with_domain(m, raw), blank)) == spec_serialize(m),
{
    assert(with_domain(with_domain(m, raw), blank) =~= m);
}

/// Setting `Path` on a cookie that had none and then clearing it restores
/// the state, and with it the serialization, exactly.
pub proof fn lemma_path_round_trip(m: CookieView, raw: Seq<char>, blank: Seq<char>)
    requires
        m.path is None,
        trim_spec(blank).len() == 0,
    ensures
        with_path(with_path(m, raw), blank) == m,
        spec_serialize(with_path(with_path(m, raw), blank)) == spec_serialize(m),
{
    assert(with_path(with_path(m, raw), blank) =~= m);
}

/// Setting `Max-Age` on a cookie that had none and then setting it to zero
/// removes the attribute entirely: the state and the serialization return
/// to what they were.
pub proof fn lemma_max_age_round_trip(m: CookieView, n: u64)
    requires
        m.max_age is None,
    ensures
        with_max_age(with_max_age(m, n), 0) == m,
        spec_serialize(with_max_age(with_max_age(m, n), 0)) == spec_serialize(m),
{
    assert(with_max_age(with_max_age(m, n), 0) =~= m);
}

/// Toggling `Secure` on a cookie that did not have it and then off again
/// restores the state, and with it the serialization, exactly.
pub proof fn lemma_secure_round_trip(m: CookieView, b: bool)
    requires
        !m.secure,
    ensures
        with_secure(with_secure(m, b), false) == m,
        spec_serialize(with_secure(with_secure(m, b), false)) == spec_serialize(m),
{
    assert(with_secure(with_secure(m, b), false) =~= m);
}

/// Toggling `HttpOnly` on a cookie that did not have it and then off again
/// restores the state, and with it the serialization, exactly.
pub proof fn lemma_httponly_round_trip(m: CookieView, b: bool)
    requires
        !m.httponly,
    ensures
        with_httponly(with_httponly(m, b), false) == m,
        spec_serialize(with_httponly(with_httponly(m, b), false)) == spec_serialize(m),
{
    assert(with_httponly(with_httponly(m, b), false) =~= m);
}

/// Setting `Expires` on a cookie that had none and then clearing it
/// restores the state, and with it the serialization, exactly.
pub proof fn lemma_expires_round_trip(m: CookieView, e: Option<Timestamp>)
    requires
        m.expires is None,
    ensures
        with_expires(with_expires(m, e), None) == m,
        spec_serialize(with_expires(with_expires(m, e), None)) == spec_serialize(m),
{
    assert(with_expires(with_expires(m, e), None) =~= m);
}

/// Setting the name twice with texts that trim to the same thing leaves
/// the state, and the serialization, of the first call unchanged.
pub proof fn lemma_set_name_idempotent(m: CookieView, raw1: Seq<char>, raw2: Seq<char>)
    requires
        trim_spec(raw1) == trim_spec(raw2),
    ensures
        with_name(with_name(m, raw1), raw2) == with_name(m, raw1),
        spec_serialize(with_name(with_name(m, raw1), raw2)) == spec_serialize(with_name(m, raw1)),
{
    assert(with_name(with_name(m, raw1), raw2) =~= with_name(m, raw1));
}

/// Setting the value twice with texts that trim to the same thing leaves
/// the state, and the serialization, of the first call unchanged.
pub proof fn lemma_set_value_idempotent(m: CookieView, raw1: Seq<char>, raw2: Seq<char>)
    requires
        trim_spec(raw1) == trim_spec(raw2),
    ensures
        with_value(with_value(m, raw1), raw2) == with_value(m, raw1),
        spec_serialize(with_value(with_value(m, raw1), raw2)) == spec_serialize(
            with_value(m, raw1),
        ),
{
    assert(with_value(with_value(m, raw1), raw2) =~= with_value(m, raw1));
}

/// Setting `Domain` twice with texts that trim to the same thing leaves
/// the state, and the serialization, of the first call unchanged.
pub proof fn lemma_set_domain_idempotent(m: CookieView, raw1: Seq<char>, raw2: Seq<char>)
    requires
        trim_spec(raw1) == trim_spec(raw2),
    ensures
        with_domain(with_domain(m, raw1), raw2) == with_domain(m, raw1),
        spec_serialize(with_domain(with_domain(m, raw1), raw2)) == spec_serialize(
            with_domain(m, raw1),
        ),
{
    assert(with_domain(with_domain(m, raw1), raw2) =~= with_domain(m, raw1));
}

/// Setting `Path` twice with texts that trim to the same thing leaves the
/// state, and the serialization, of the first call unchanged.
pub proof fn lemma_set_path_idempotent(m: CookieView, raw1: Seq<char>, raw2: Seq<char>)
    requires
        trim_spec(raw1) == trim_spec(raw2),
    ensures
        with_path(with_path(m, raw1), raw2) == with_path(m, raw1),
        spec_serialize(with_path(with_path(m, raw1), raw2)) == spec_serialize(with_path(m, raw1)),
{
    assert(with_path(with_path(m, raw1), raw2) =~= with_path(m, raw1));
}

/// Setting `Max-Age` twice with the same number leaves the state, and the
/// serialization, of the first call unchanged.
pub proof fn lemma_set_max_age_idempotent(m: CookieView, n: u64)
    ensures
        with_max_age(with_max_age(m, n), n) == with_max_age(m, n),
        spec_serialize(with_max_age(with_max_age(m, n), n)) == spec_serialize(with_max_age(m, n)),
{
    assert(with_max_age(with_max_age(m, n), n) =~= with_max_age(m, n));
}

/// Setting `Secure` twice to the same state leaves the state, and the
/// serialization, of the first call unchanged.
pub proof fn lemma_set_secure_idempotent(m: CookieView, b: bool)
    ensures
        with_secure(with_secure(m, b), b) == with_secure(m, b),
        spec_serialize(with_secure(with_secure(m, b), b)) == spec_serialize(with_secure(m, b)),
{
    assert(with_secure(with_secure(m, b), b) =~= with_secure(m, b));
}

/// Setting `HttpOnly` twice to the same state leaves the state, and the
/// serialization, of the first call unchanged.
pub proof fn lemma_set_httponly_idempotent(m: CookieView, b: bool)
    ensures
        with_httponly(with_httponly(m, b), b) == with_httponly(m, b),
        spec_serialize(with_httponly(with_httponly(m, b), b)) == spec_serialize(
            with_httponly(m, b),
        ),
{
    assert(with_httponly(with_httponly(m, b), b) =~= with_httponly(m, b));
}

/// Setting `Expires` twice with the same normalized instant leaves the
/// state, and the serialization, of the first call unchanged.
pub proof fn lemma_set_expires_idempotent(m: CookieView, e: Option<Timestamp>)
    ensures
        with_expires(with_expires(m, e), e) == with_expires(m, e),
        spec_serialize(with_expires(with_expires(m, e), e)) == spec_serialize(with_expires(m, e)),
{
    assert(with_expires(with_expires(m, e), e) =~= with_expires(m, e));
}

} // verus!
