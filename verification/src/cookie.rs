//! The cookie buffer: one packed string, kept in step with cached segment
//! offsets, under the fixed attribute order Domain, Path, Max-Age, Secure,
//! HttpOnly, Expires.

use vstd::prelude::*;

use crate::digits::dec_rep;
use crate::digits::u64_to_string;
use crate::text::trim;
use crate::text::trim_spec;
use crate::tstamp::rfc822_gmt;
use crate::tstamp::rfc822_gmt_of;
use crate::tstamp::to_utc_norm;
use crate::tstamp::Timestamp;

verus! {

/// The abstract state of a cookie: the decoded fields, free of offsets.
#[verifier::ext_equal]
pub ghost struct CookieView {
    pub name: Seq<char>,
    pub value: Seq<char>,
    pub domain: Option<Seq<char>>,
    pub path: Option<Seq<char>>,
    pub max_age: Option<u64>,
    pub secure: bool,
    pub httponly: bool,
    pub expires: Option<Timestamp>,
}

/// The mandatory leading segment, `name=value`.
pub open spec fn seg_pair(m: CookieView) -> Seq<char> {
    m.name + "="@ + m.value
}

/// The `; Domain=..` segment, empty when the attribute is absent.
pub open spec fn seg_domain(m: CookieView) -> Seq<char> {
    match m.domain {
        Some(d) => "; Domain="@ + d,
        None => Seq::empty(),
    }
}

/// The `; Path=..` segment, empty when the attribute is absent.
pub open spec fn seg_path(m: CookieView) -> Seq<char> {
    match m.path {
        Some(p) => "; Path="@ + p,
        None => Seq::empty(),
    }
}

/// The `; Max-Age=..` segment, empty when the attribute is absent.
pub open spec fn seg_max_age(m: CookieView) -> Seq<char> {
    match m.max_age {
        Some(n) => "; Max-Age="@ + dec_rep(n as nat),
        None => Seq::empty(),
    }
}

/// The `; Secure` token, empty when the flag is off.
pub open spec fn seg_secure(m: CookieView) -> Seq<char> {
    if m.secure {
        "; Secure"@
    } else {
        Seq::empty()
    }
}

/// The `; HttpOnly` token, empty when the flag is off.
pub open spec fn seg_httponly(m: CookieView) -> Seq<char> {
    if m.httponly {
        "; HttpOnly"@
    } else {
        Seq::empty()
    }
}

/// The `; Expires=..` segment, empty when the attribute is absent.
pub open spec fn seg_expires(m: CookieView) -> Seq<char> {
    match m.expires {
        Some(t) => "; Expires="@ + rfc822_gmt_of(t),
        None => Seq::empty(),
    }
}

/// Everything from the end of `name=value` on.
pub open spec fn tail_domain(m: CookieView) -> Seq<char> {
    seg_domain(m) + tail_path(m)
}

/// Everything after the `Domain` segment (or its fallback position).
pub open spec fn tail_path(m: CookieView) -> Seq<char> {
    seg_path(m) + tail_max_age(m)
}

/// Everything after the `Path` segment (or its fallback position).
pub open spec fn tail_max_age(m: CookieView) -> Seq<char> {
    seg_max_age(m) + tail_secure(m)
}

/// Everything after the `Max-Age` segment (or its fallback position).
pub open spec fn tail_secure(m: CookieView) -> Seq<char> {
    seg_secure(m) + tail_httponly(m)
}

/// Everything after the `Secure` token (or its fallback position).
pub open spec fn tail_httponly(m: CookieView) -> Seq<char> {
    seg_httponly(m) + seg_expires(m)
}

/// The whole header value determined by `m`: the segments in their one
/// fixed order.
pub open spec fn spec_serialize(m: CookieView) -> Seq<char> {
    seg_pair(m) + tail_domain(m)
}

/// The position just past the `value` text.
pub open spec fn pair_end(m: CookieView) -> int {
    m.name.len() as int + 1 + m.value.len() as int
}

/// The end of the `Domain` segment, or of the nearest preceding one.
pub open spec fn domain_eop(m: CookieView) -> int {
    pair_end(m) + seg_domain(m).len()
}

/// The end of the `Path` segment, or of the nearest preceding one.
pub open spec fn path_eop(m: CookieView) -> int {
    domain_eop(m) + seg_path(m).len()
}

/// The end of the `Max-Age` digits, or of the nearest preceding segment.
pub open spec fn max_age_eop(m: CookieView) -> int {
    path_eop(m) + seg_max_age(m).len()
}

/// The end of the `Secure` token, or of the nearest preceding segment.
pub open spec fn secure_eop(m: CookieView) -> int {
    max_age_eop(m) + seg_secure(m).len()
}

/// The end of the `HttpOnly` token, or of the nearest preceding segment.
pub open spec fn httponly_eop(m: CookieView) -> int {
    secure_eop(m) + seg_httponly(m).len()
}

/// `m` after a name setter call with the raw text `raw`.
pub open spec fn with_name(m: CookieView, raw: Seq<char>) -> CookieView {
    CookieView { name: trim_spec(raw), ..m }
}

/// `m` after a value setter call with the raw text `raw`.
pub open spec fn with_value(m: CookieView, raw: Seq<char>) -> CookieView {
    CookieView { value: trim_spec(raw), ..m }
}

/// `m` after a domain setter call with the raw text `raw`: trimmed, and
/// removed entirely when nothing but whitespace was passed.
pub open spec fn with_domain(m: CookieView, raw: Seq<char>) -> CookieView {
    CookieView {
        domain: if trim_spec(raw).len() == 0 {
            None
        } else {
            Some(trim_spec(raw))
        },
        ..m
    }
}

/// `m` after a path setter call with the raw text `raw`: trimmed, and
/// removed entirely when nothing but whitespace was passed.
pub open spec fn with_path(m: CookieView, raw: Seq<char>) -> CookieView {
    CookieView {
        path: if trim_spec(raw).len() == 0 {
            None
        } else {
            Some(trim_spec(raw))
        },
        ..m
    }
}

/// `m` after a max-age setter call: zero removes the attribute.
pub open spec fn with_max_age(m: CookieView, n: u64) -> CookieView {
    CookieView {
        max_age: if n == 0 {
            None
        } else {
            Some(n)
        },
        ..m
    }
}

/// `m` after a secure-flag setter call.
pub open spec fn with_secure(m: CookieView, b: bool) -> CookieView {
    CookieView { secure: b, ..m }
}

/// `m` after an httponly-flag setter call.
pub open spec fn with_httponly(m: CookieView, b: bool) -> CookieView {
    CookieView { httponly: b, ..m }
}

/// `m` after an expires setter call with the already-normalized instant.
pub open spec fn with_expires(m: CookieView, e: Option<Timestamp>) -> CookieView {
    CookieView { expires: e, ..m }
}

/// Shift the cached offset `index`, an absolute position in the buffer,
/// after the text before it grew or shrank so that the position `old_pos`
/// became `new_pos`.
pub fn adjust(index: &mut usize, old_pos: usize, new_pos: usize)
    requires
        old_pos <= *old(index),
        *old(index) - old_pos + new_pos <= usize::MAX,
    ensures
        *final(index) == *old(index) - old_pos + new_pos,
{
    *index = *index - old_pos;
    *index = *index + new_pos;
}

proof fn lens()
    ensures
        "="@.len() == 1,
        "; Domain="@.len() == 9,
        "; Path="@.len() == 7,
        "; Max-Age="@.len() == 10,
        "; Secure"@.len() == 8,
        "; HttpOnly"@.len() == 10,
        "; Expires="@.len() == 10,
{
    reveal_strlit("=");
    reveal_strlit("; Domain=");
    reveal_strlit("; Path=");
    reveal_strlit("; Max-Age=");
    reveal_strlit("; Secure");
    reveal_strlit("; HttpOnly");
    reveal_strlit("; Expires=");
}

proof fn lemma_seg_lens(m: CookieView)
    ensures
        seg_pair(m).len() == m.name.len() as int + 1 + m.value.len() as int,
        seg_domain(m).len() == (match m.domain {
            Some(d) => 9 + d.len(),
            None => 0,
        }),
        seg_path(m).len() == (match m.path {
            Some(p) => 7 + p.len(),
            None => 0,
        }),
        seg_max_age(m).len() == (match m.max_age {
            Some(n) => 10 + dec_rep(n as nat).len(),
            None => 0,
        }),
        seg_secure(m).len() == (if m.secure {
            8int
        } else {
            0int
        }),
        seg_httponly(m).len() == (if m.httponly {
            10int
        } else {
            0int
        }),
        seg_expires(m).len() == (match m.expires {
            Some(t) => 10 + rfc822_gmt_of(t).len(),
            None => 0,
        }),
{
    lens();
}

proof fn lemma_cat_split(a: Seq<char>, b: Seq<char>)
    ensures
        (a + b).len() == a.len() + b.len(),
        (a + b).subrange(0, a.len() as int) == a,
        (a + b).subrange(a.len() as int, (a + b).len() as int) == b,
{
    assert((a + b).subrange(0, a.len() as int) =~= a);
    assert((a + b).subrange(a.len() as int, (a + b).len() as int) =~= b);
}

proof fn lemma_sub_sub(s: Seq<char>, i: int, j: int, k: int, l: int)
    requires
        0 <= i <= j <= s.len(),
        0 <= k <= l <= j - i,
    ensures
        s.subrange(i, j).subrange(k, l) == s.subrange(i + k, i + l),
{
    assert(s.subrange(i, j).subrange(k, l) =~= s.subrange(i + k, i + l));
}

proof fn lemma_assoc(a: Seq<char>, b: Seq<char>, c: Seq<char>)
    ensures
        a + b + c == a + (b + c),
{
    assert(a + b + c =~= a + (b + c));
}

proof fn lemma_tail_step(s: Seq<char>, c: int, seg: Seq<char>, rest: Seq<char>)
    requires
        0 <= c <= s.len(),
        s.subrange(c, s.len() as int) == seg + rest,
    ensures
        c + seg.len() + rest.len() == s.len(),
        s.subrange(c, c + seg.len()) == seg,
        s.subrange(c + seg.len(), s.len() as int) == rest,
{
    lemma_cat_split(seg, rest);
    lemma_sub_sub(s, c, s.len() as int, 0, seg.len() as int);
    lemma_sub_sub(s, c, s.len() as int, seg.len() as int, s.len() - c);
}

proof fn lemma_prefix_extend(s: Seq<char>, c: int, seg: Seq<char>, p: Seq<char>)
    requires
        0 <= c,
        c + seg.len() <= s.len(),
        s.subrange(0, c) == p,
        s.subrange(c, c + seg.len()) == seg,
    ensures
        s.subrange(0, c + seg.len()) == p + seg,
{
    assert(s.subrange(0, c + seg.len()) =~= p + seg) by {
        assert(p.len() == c);
        assert(forall|i: int|
            0 <= i < c ==> s.subrange(0, c + seg.len())[i] == #[trigger] (p + seg)[i]);
        assert(forall|i: int|
            c <= i < c + seg.len() ==> s.subrange(0, c + seg.len())[i] == #[trigger] (p + seg)[i]);
    }
}

#[verifier::rlimit(100)]
#[verifier::spinoff_prover]
proof fn lemma_layout(m: CookieView)
    ensures
        ({
            let s = spec_serialize(m);
            &&& s.len() == httponly_eop(m) + seg_expires(m).len()
            &&& m.name.len() as int + 1 <= pair_end(m) <= domain_eop(m) <= path_eop(m)
                <= max_age_eop(m) <= secure_eop(m) <= httponly_eop(m) <= s.len()
            &&& s.subrange(0, m.name.len() as int) == m.name
            &&& s.subrange(m.name.len() as int, s.len() as int) == "="@ + (m.value + tail_domain(
                m,
            ))
            &&& s.subrange(0, m.name.len() as int + 1) == m.name + "="@
            &&& s.subrange(m.name.len() as int + 1, pair_end(m)) == m.value
            &&& s.subrange(0, pair_end(m)) == seg_pair(m)
            &&& s.subrange(pair_end(m), s.len() as int) == tail_domain(m)
            &&& s.subrange(0, domain_eop(m)) == seg_pair(m) + seg_domain(m)
            &&& s.subrange(domain_eop(m), s.len() as int) == tail_path(m)
            &&& s.subrange(0, path_eop(m)) == seg_pair(m) + seg_domain(m) + seg_path(m)
            &&& s.subrange(path_eop(m), s.len() as int) == tail_max_age(m)
            &&& s.subrange(0, max_age_eop(m)) == seg_pair(m) + seg_domain(m) + seg_path(m)
                + seg_max_age(m)
            &&& s.subrange(max_age_eop(m), s.len() as int) == tail_secure(m)
            &&& s.subrange(0, secure_eop(m)) == seg_pair(m) + seg_domain(m) + seg_path(m)
                + seg_max_age(m) + seg_secure(m)
            &&& s.subrange(secure_eop(m), s.len() as int) == tail_httponly(m)
            &&& s.subrange(0, httponly_eop(m)) == seg_pair(m) + seg_domain(m) + seg_path(m)
                + seg_max_age(m) + seg_secure(m) + seg_httponly(m)
            &&& s.subrange(httponly_eop(m), s.len() as int) == seg_expires(m)
            &&& (m.domain matches Some(d) ==> s.subrange(0, pair_end(m) + 9) == seg_pair(m)
                + "; Domain="@ && s.subrange(pair_end(m) + 9, domain_eop(m)) == d)
            &&& (m.path matches Some(p) ==> s.subrange(0, domain_eop(m) + 7) == seg_pair(m)
                + seg_domain(m) + "; Path="@ && s.subrange(domain_eop(m) + 7, path_eop(m)) == p)
            &&& (m.max_age matches Some(n) ==> s.subrange(0, path_eop(m) + 10) == seg_pair(m)
                + seg_domain(m) + seg_path(m) + "; Max-Age="@ && s.subrange(
                path_eop(m) + 10,
                max_age_eop(m),
            ) == dec_rep(n as nat))
            &&& (m.expires matches Some(t) ==> s.subrange(0, httponly_eop(m) + 10) == seg_pair(m)
                + seg_domain(m) + seg_path(m) + seg_max_age(m) + seg_secure(m) + seg_httponly(m)
                + "; Expires="@ && s.subrange(httponly_eop(m) + 10, s.len() as int)
                == rfc822_gmt_of(t))
        }),
{
    lens();
    lemma_seg_lens(m);
    let s = spec_serialize(m);
    // peel the tails off, one segment at a time
    lemma_cat_split(seg_pair(m), tail_domain(m));
    lemma_tail_step(s, pair_end(m), seg_domain(m), tail_path(m));
    lemma_tail_step(s, domain_eop(m), seg_path(m), tail_max_age(m));
    lemma_tail_step(s, path_eop(m), seg_max_age(m), tail_secure(m));
    lemma_tail_step(s, max_age_eop(m), seg_secure(m), tail_httponly(m));
    lemma_tail_step(s, secure_eop(m), seg_httponly(m), seg_expires(m));
    // grow the prefixes by the same segments
    lemma_prefix_extend(s, pair_end(m), seg_domain(m), seg_pair(m));
    lemma_prefix_extend(s, domain_eop(m), seg_path(m), seg_pair(m) + seg_domain(m));
    lemma_prefix_extend(s, path_eop(m), seg_max_age(m), seg_pair(m) + seg_domain(m) + seg_path(m));
    lemma_prefix_extend(
        s,
        max_age_eop(m),
        seg_secure(m),
        seg_pair(m) + seg_domain(m) + seg_path(m) + seg_max_age(m),
    );
    lemma_prefix_extend(
        s,
        secure_eop(m),
        seg_httponly(m),
        seg_pair(m) + seg_domain(m) + seg_path(m) + seg_max_age(m) + seg_secure(m),
    );
    // name, separator, value inside the leading segment
    let nl = m.name.len() as int;
    lemma_cat_split(m.name + "="@, m.value);
    lemma_cat_split(m.name, "="@);
    lemma_sub_sub(s, 0, pair_end(m), 0, nl + 1);
    lemma_sub_sub(seg_pair(m), 0, nl + 1, 0, nl);
    lemma_sub_sub(s, 0, pair_end(m), 0, nl);
    lemma_sub_sub(s, 0, pair_end(m), nl + 1, pair_end(m));
    lemma_assoc(m.name + "="@, m.value, tail_domain(m));
    lemma_assoc(m.name, "="@, m.value + tail_domain(m));
    lemma_cat_split(m.name, "="@ + (m.value + tail_domain(m)));
    lemma_cat_split("="@, m.value + tail_domain(m));
    // the value text of each optional attribute
    if m.domain is Some {
        let d = m.domain->0;
        lemma_cat_split("; Domain="@, d);
        lemma_sub_sub(s, pair_end(m), domain_eop(m), 9, seg_domain(m).len() as int);
        lemma_sub_sub(s, pair_end(m), domain_eop(m), 0, 9);
        lemma_prefix_extend(s, pair_end(m), "; Domain="@, seg_pair(m));
    }
    if m.path is Some {
        let p = m.path->0;
        lemma_cat_split("; Path="@, p);
        lemma_sub_sub(s, domain_eop(m), path_eop(m), 7, seg_path(m).len() as int);
        lemma_sub_sub(s, domain_eop(m), path_eop(m), 0, 7);
        lemma_prefix_extend(s, domain_eop(m), "; Path="@, seg_pair(m) + seg_domain(m));
    }
    if m.max_age is Some {
        let n = m.max_age->0;
        lemma_cat_split("; Max-Age="@, dec_rep(n as nat));
        lemma_sub_sub(s, path_eop(m), max_age_eop(m), 10, seg_max_age(m).len() as int);
        lemma_sub_sub(s, path_eop(m), max_age_eop(m), 0, 10);
        lemma_prefix_extend(
            s,
            path_eop(m),
            "; Max-Age="@,
            seg_pair(m) + seg_domain(m) + seg_path(m),
        );
    }
    if m.expires is Some {
        let t = m.expires->0;
        lemma_cat_split("; Expires="@, rfc822_gmt_of(t));
        lemma_sub_sub(s, httponly_eop(m), s.len() as int, 10, seg_expires(m).len() as int);
        lemma_sub_sub(s, httponly_eop(m), s.len() as int, 0, 10);
        lemma_prefix_extend(
            s,
            httponly_eop(m),
            "; Expires="@,
            seg_pair(m) + seg_domain(m) + seg_path(m) + seg_max_age(m) + seg_secure(m)
                + seg_httponly(m),
        );
    }
}


proof fn lemma_regroup(m: CookieView)
    ensures
        spec_serialize(m) == seg_pair(m) + tail_domain(m),
        spec_serialize(m) == seg_pair(m) + seg_domain(m) + tail_path(m),
        spec_serialize(m) == seg_pair(m) + seg_domain(m) + seg_path(m) + tail_max_age(m),
        spec_serialize(m) == seg_pair(m) + seg_domain(m) + seg_path(m) + seg_max_age(m)
            + tail_secure(m),
        spec_serialize(m) == seg_pair(m) + seg_domain(m) + seg_path(m) + seg_max_age(m)
            + seg_secure(m) + tail_httponly(m),
        spec_serialize(m) == seg_pair(m) + seg_domain(m) + seg_path(m) + seg_max_age(m)
            + seg_secure(m) + seg_httponly(m) + seg_expires(m),
{
    lemma_assoc(seg_pair(m), seg_domain(m), tail_path(m));
    lemma_assoc(seg_pair(m) + seg_domain(m), seg_path(m), tail_max_age(m));
    lemma_assoc(seg_pair(m) + seg_domain(m) + seg_path(m), seg_max_age(m), tail_secure(m));
    lemma_assoc(
        seg_pair(m) + seg_domain(m) + seg_path(m) + seg_max_age(m),
        seg_secure(m),
        tail_httponly(m),
    );
    lemma_assoc(
        seg_pair(m) + seg_domain(m) + seg_path(m) + seg_max_age(m) + seg_secure(m),
        seg_httponly(m),
        seg_expires(m),
    );
}

/// Truncate `s` to its first `to` characters.
fn truncate_to(s: &mut String, to: usize)
    requires
        to <= old(s)@.len(),
    ensures
        final(s)@ == old(s)@.subrange(0, to as int),
{
    let head = s.as_str().substring_char(0, to).to_owned();
    *s = head;
}

/// Capture the tail of `s` from `take_from` on, as an owned suffix, and
/// truncate `s` to `truncate_from`: the first two steps of every splice.
fn truncate_and_take(s: &mut String, truncate_from: usize, take_from: usize) -> (r: String)
    requires
        truncate_from <= take_from <= old(s)@.len(),
    ensures
        final(s)@ == old(s)@.subrange(0, truncate_from as int),
        r@ == old(s)@.subrange(take_from as int, old(s)@.len() as int),
{
    let l = s.as_str().unicode_len();
    let tail = s.as_str().substring_char(take_from, l).to_owned();
    let head = s.as_str().substring_char(0, truncate_from).to_owned();
    *s = head;
    tail
}

/// Add or remove one fixed flag token at `preceding_end`, keeping whatever
/// followed it: capture the suffix, truncate, conditionally write the
/// token, reattach the suffix.
fn set_flag_str(s: &mut String, preceding_end: usize, flag: &str, old_value: bool, new_value: bool)
    requires
        preceding_end + (if old_value {
            flag@.len() as int
        } else {
            0int
        }) <= old(s)@.len(),
    ensures
        final(s)@ == old(s)@.subrange(0, preceding_end as int) + (if new_value {
            flag@
        } else {
            Seq::<char>::empty()
        }) + old(s)@.subrange(
            preceding_end + (if old_value {
                flag@.len() as int
            } else {
                0int
            }),
            old(s)@.len() as int,
        ),
{
    let _l = s.as_str().unicode_len();
    let flag_len = flag.unicode_len();
    let slice_from = if old_value {
        preceding_end + flag_len
    } else {
        preceding_end
    };
    let suffix = truncate_and_take(s, preceding_end, slice_from);
    if new_value {
        s.append(flag);
    } else {
        proof {
            assert(old(s)@.subrange(0, preceding_end as int) + Seq::<char>::empty() =~= old(
                s,
            )@.subrange(0, preceding_end as int));
        }
    }
    s.append(suffix.as_str());
}

/// The generic attribute splice: put the trimmed `new_value` (or nothing,
/// when it is empty) where the attribute belongs, write the prefix if the
/// attribute was absent, and hand back the captured suffix for the caller
/// to reattach.  Returns the new end offset of the value text, or `None`
/// when the attribute is now absent.
fn set_attr_value(
    s: &mut String,
    attr_prefix: &str,
    new_value: &str,
    old_value_start: Option<usize>,
    old_value_end: Option<usize>,
    preceding_end: usize,
) -> (r: (Option<usize>, String))
    requires
        match (old_value_start, old_value_end) {
            (Some(vs), Some(ve)) => preceding_end <= vs <= ve <= old(s)@.len(),
            (None, None) => preceding_end <= old(s)@.len(),
            _ => false,
        },
    ensures
        r.1@ == (match old_value_end {
            Some(ve) => old(s)@.subrange(ve as int, old(s)@.len() as int),
            None => old(s)@.subrange(preceding_end as int, old(s)@.len() as int),
        }),
        new_value@.len() == 0 ==> final(s)@ == old(s)@.subrange(0, preceding_end as int) && r.0
            is None,
        (match old_value_start {
            Some(vs) => new_value@.len() > 0 ==> final(s)@ == old(s)@.subrange(0, vs as int)
                + new_value@ && (r.0 matches Some(e) && e == vs + new_value@.len()),
            None => new_value@.len() > 0 ==> final(s)@ == old(s)@.subrange(0, preceding_end as int)
                + attr_prefix@ + new_value@ && (r.0 matches Some(e) && e == preceding_end
                + attr_prefix@.len() + new_value@.len()),
        }),
{
    let nv_len = new_value.unicode_len();
    match (old_value_start, old_value_end) {
        (Some(vs), Some(ve)) => {
            if nv_len == 0 {
                let suffix = truncate_and_take(s, preceding_end, ve);
                (None, suffix)
            } else {
                let suffix = truncate_and_take(s, vs, ve);
                s.append(new_value);
                (Some(s.as_str().unicode_len()), suffix)
            }
        },
        _ => {
            if nv_len == 0 {
                let suffix = truncate_and_take(s, preceding_end, preceding_end);
                (None, suffix)
            } else {
                let suffix = truncate_and_take(s, preceding_end, preceding_end);
                s.append(attr_prefix);
                s.append(new_value);
                (Some(s.as_str().unicode_len()), suffix)
            }
        },
    }
}

/// A single `Set-Cookie` header value, editable attribute by attribute.
/// The packed text and the cached offsets always agree with the abstract
/// view `self@`.
pub struct Cookie {
    serialization: String,
    name_end: usize,
    value_end: usize,
    domain_end: Option<usize>,
    path_end: Option<usize>,
    max_age: Option<(u64, usize)>,
    secure: bool,
    httponly: bool,
    expires: Option<Timestamp>,
    model: Ghost<CookieView>,
}

impl View for Cookie {
    type V = CookieView;

    closed spec fn view(&self) -> CookieView {
        self.model@
    }
}

impl Cookie {
    /// The buffer equals the fixed-order rendering of the view, and every
    /// cached offset is the exact end position of its segment.
    pub closed spec fn wf(self) -> bool {
        &&& self.serialization@ == spec_serialize(self@)
        &&& self.name_end == self@.name.len()
        &&& self.value_end == pair_end(self@)
        &&& (match self@.domain {
            Some(_) => self.domain_end matches Some(e) && e == domain_eop(self@),
            None => self.domain_end is None,
        })
        &&& (match self@.path {
            Some(_) => self.path_end matches Some(e) && e == path_eop(self@),
            None => self.path_end is None,
        })
        &&& (match self@.max_age {
            Some(n) => n > 0 && (self.max_age matches Some((v, e)) && v == n && e == max_age_eop(
                self@,
            )),
            None => self.max_age is None,
        })
        &&& self.secure == self@.secure
        &&& self.httponly == self@.httponly
        &&& self.expires == self@.expires
        &&& (self@.expires matches Some(t) ==> t.fmt_ready())
    }

    /// A fresh cookie `name=value`, both trimmed; no attribute is present.
    pub fn new(name: &str, value: &str) -> (c: Cookie)
        ensures
            c.wf(),
            c@ == (CookieView {
                name: trim_spec(name@),
                value: trim_spec(value@),
                domain: None,
                path: None,
                max_age: None,
                secure: false,
                httponly: false,
                expires: None,
            }),
    {
        let tn = trim(name);
        let tv = trim(value);
        let name_end = tn.unicode_len();
        let mut s = tn.to_owned();
        s.append("=");
        s.append(tv);
        let value_end = s.as_str().unicode_len();
        let ghost m = CookieView {
            name: trim_spec(name@),
            value: trim_spec(value@),
            domain: None,
            path: None,
            max_age: None,
            secure: false,
            httponly: false,
            expires: None,
        };
        proof {
            lens();
            assert(spec_serialize(m) =~= s@);
        }
        Cookie {
            serialization: s,
            name_end,
            value_end,
            domain_end: None,
            path_end: None,
            max_age: None,
            secure: false,
            httponly: false,
            expires: None,
            model: Ghost(m),
        }
    }

    /// The whole serialized header value.
    pub fn as_str(&self) -> (r: &str)
        requires
            self.wf(),
        ensures
            r@ == spec_serialize(self@),
    {
        self.serialization.as_str()
    }

    /// The cookie's name.
    pub fn name(&self) -> (r: &str)
        requires
            self.wf(),
        ensures
            r@ == self@.name,
    {
        proof {
            lemma_layout(self@);
        }
        self.serialization.as_str().substring_char(0, self.name_end)
    }

    /// The cookie's value.
    pub fn value(&self) -> (r: &str)
        requires
            self.wf(),
        ensures
            r@ == self@.value,
    {
        proof {
            lemma_layout(self@);
        }
        self.serialization.as_str().substring_char(self.name_end + 1, self.value_end)
    }

    /// The name and the value, as one pair.
    pub fn cookie_pair(&self) -> (r: (&str, &str))
        requires
            self.wf(),
        ensures
            r.0@ == self@.name,
            r.1@ == self@.value,
    {
        proof {
            lemma_layout(self@);
        }
        (
            self.serialization.as_str().substring_char(0, self.name_end),
            self.serialization.as_str().substring_char(self.name_end + 1, self.value_end),
        )
    }

    /// The length of the packed text, in characters.
    fn buf_len(&self) -> (l: usize)
        requires
            self.wf(),
        ensures
            l == spec_serialize(self@).len(),
    {
        self.serialization.as_str().unicode_len()
    }

    /// The end of the `Domain` value if present, else the end of
    /// `name=value`: the cascading default boundary.
    fn domain_end_or_prior(&self) -> (r: usize)
        requires
            self.wf(),
        ensures
            r == domain_eop(self@),
    {
        proof {
            lemma_seg_lens(self@);
        }
        match self.domain_end {
            Some(e) => e,
            None => self.value_end,
        }
    }

    /// The end of the `Path` value if present, else the prior boundary.
    fn path_end_or_prior(&self) -> (r: usize)
        requires
            self.wf(),
        ensures
            r == path_eop(self@),
    {
        proof {
            lemma_seg_lens(self@);
        }
        match self.path_end {
            Some(e) => e,
            None => self.domain_end_or_prior(),
        }
    }

    /// The end of the `Max-Age` digits if present, else the prior boundary.
    fn max_age_end_or_prior(&self) -> (r: usize)
        requires
            self.wf(),
        ensures
            r == max_age_eop(self@),
    {
        proof {
            lemma_seg_lens(self@);
        }
        match self.max_age {
            Some((_, e)) => e,
            None => self.path_end_or_prior(),
        }
    }

    /// The end of the `Secure` token if present, else the prior boundary.
    fn secure_end_or_prior(&self) -> (r: usize)
        requires
            self.wf(),
        ensures
            r == secure_eop(self@),
    {
        proof {
            lemma_layout(self@);
            lemma_seg_lens(self@);
        }
        let _l = self.buf_len();
        self.max_age_end_or_prior() + (if self.secure {
            8
        } else {
            0
        })
    }

    /// The end of the `HttpOnly` token if present, else the prior boundary.
    fn httponly_end_or_prior(&self) -> (r: usize)
        requires
            self.wf(),
        ensures
            r == httponly_eop(self@),
    {
        proof {
            lemma_layout(self@);
            lemma_seg_lens(self@);
        }
        let _l = self.buf_len();
        self.secure_end_or_prior() + (if self.httponly {
            10
        } else {
            0
        })
    }

    /// The `Domain` attribute's value, if the attribute is present.
    pub fn domain(&self) -> (r: Option<&str>)
        requires
            self.wf(),
        ensures
            match self@.domain {
                Some(d) => r matches Some(x) && x@ == d,
                None => r is None,
            },
    {
        match self.domain_end {
            Some(e) => {
                proof {
                    lemma_layout(self@);
                    lemma_seg_lens(self@);
                }
                Some(self.serialization.as_str().substring_char(self.value_end + 9, e))
            },
            None => None,
        }
    }

    /// The `Path` attribute's value, if the attribute is present.
    pub fn path(&self) -> (r: Option<&str>)
        requires
            self.wf(),
        ensures
            match self@.path {
                Some(p) => r matches Some(x) && x@ == p,
                None => r is None,
            },
    {
        match self.path_end {
            Some(e) => {
                proof {
                    lemma_layout(self@);
                    lemma_seg_lens(self@);
                }
                let vs = self.domain_end_or_prior() + 7;
                Some(self.serialization.as_str().substring_char(vs, e))
            },
            None => None,
        }
    }

    /// The `Max-Age` attribute's number, if the attribute is present.
    pub fn max_age(&self) -> (r: Option<u64>)
        requires
            self.wf(),
        ensures
            r == self@.max_age,
    {
        match self.max_age {
            Some((v, _)) => Some(v),
            None => None,
        }
    }

    /// The `Max-Age` attribute's digit text, if the attribute is present.
    pub fn max_age_str(&self) -> (r: Option<&str>)
        requires
            self.wf(),
        ensures
            match self@.max_age {
                Some(n) => r matches Some(x) && x@ == dec_rep(n as nat),
                None => r is None,
            },
    {
        match self.max_age {
            Some((_, e)) => {
                proof {
                    lemma_layout(self@);
                    lemma_seg_lens(self@);
                }
                let vs = self.path_end_or_prior() + 10;
                Some(self.serialization.as_str().substring_char(vs, e))
            },
            None => None,
        }
    }

    /// Whether the `Secure` flag is present.
    pub fn secure(&self) -> (r: bool)
        requires
            self.wf(),
        ensures
            r == self@.secure,
    {
        self.secure
    }

    /// Whether the `HttpOnly` flag is present.
    pub fn httponly(&self) -> (r: bool)
        requires
            self.wf(),
        ensures
            r == self@.httponly,
    {
        self.httponly
    }

    /// The `Expires` instant, if the attribute is present.
    pub fn expires(&self) -> (r: Option<Timestamp>)
        requires
            self.wf(),
        ensures
            r == self@.expires,
    {
        self.expires
    }

    /// The `Expires` attribute's wire text, if the attribute is present.
    pub fn expires_str(&self) -> (r: Option<&str>)
        requires
            self.wf(),
        ensures
            match self@.expires {
                Some(t) => r matches Some(x) && x@ == rfc822_gmt_of(t),
                None => r is None,
            },
    {
        match self.expires {
            Some(_) => {
                proof {
                    lemma_layout(self@);
                    lemma_seg_lens(self@);
                }
                let l = self.buf_len();
                let vs = self.httponly_end_or_prior() + 10;
                Some(self.serialization.as_str().substring_char(vs, l))
            },
            None => None,
        }
    }


    /// Replace the cookie's name with `name`, trimmed.
    pub fn set_name(&mut self, name: &str) -> (r: &mut Cookie)
        requires
            old(self).wf(),
        ensures
            r.wf(),
            r@ == with_name(old(self)@, name@),
            *final(self) == *final(r),
    {
        let ghost m0 = self@;
        proof {
            lens();
            lemma_layout(m0);
            lemma_seg_lens(m0);
        }
        let t = trim(name);
        let old_name_end = self.name_end;
        let new_name_end = t.unicode_len();
        let l = self.buf_len();
        let mut ns = t.to_owned();
        ns.append(self.serialization.as_str().substring_char(old_name_end, l));
        let nl = ns.as_str().unicode_len();
        self.serialization = ns;
        self.name_end = new_name_end;
        self.model = Ghost(with_name(m0, name@));
        proof {
            let m2 = self@;
            lemma_seg_lens(m2);
            lemma_assoc(m2.name + "="@, m2.value, tail_domain(m2));
            lemma_assoc(m2.name, "="@, m2.value + tail_domain(m2));
            assert(self.serialization@ == spec_serialize(m2));
            lemma_layout(m2);
            assert(nl == spec_serialize(m2).len());
        }
        adjust(&mut self.value_end, old_name_end, new_name_end);
        match &mut self.domain_end {
            Some(e) => adjust(e, old_name_end, new_name_end),
            None => {},
        }
        match &mut self.path_end {
            Some(e) => adjust(e, old_name_end, new_name_end),
            None => {},
        }
        match &mut self.max_age {
            Some((_, e)) => adjust(e, old_name_end, new_name_end),
            None => {},
        }
        self
    }

    /// Replace the cookie's value with `value`, trimmed.
    pub fn set_value(&mut self, value: &str) -> (r: &mut Cookie)
        requires
            old(self).wf(),
        ensures
            r.wf(),
            r@ == with_value(old(self)@, value@),
            *final(self) == *final(r),
    {
        let ghost m0 = self@;
        proof {
            lens();
            lemma_layout(m0);
            lemma_seg_lens(m0);
        }
        let t = trim(value);
        let old_value_end = self.value_end;
        let value_start = self.name_end + 1;
        let suffix = truncate_and_take(&mut self.serialization, value_start, old_value_end);
        self.serialization.append(t);
        let new_value_end = self.serialization.as_str().unicode_len();
        self.serialization.append(suffix.as_str());
        let fl = self.serialization.as_str().unicode_len();
        self.value_end = new_value_end;
        self.model = Ghost(with_value(m0, value@));
        proof {
            let m2 = self@;
            lemma_seg_lens(m2);
            assert(self.serialization@ == spec_serialize(m2));
            lemma_layout(m2);
            assert(fl == spec_serialize(m2).len());
        }
        match &mut self.domain_end {
            Some(e) => adjust(e, old_value_end, new_value_end),
            None => {},
        }
        match &mut self.path_end {
            Some(e) => adjust(e, old_value_end, new_value_end),
            None => {},
        }
        match &mut self.max_age {
            Some((_, e)) => adjust(e, old_value_end, new_value_end),
            None => {},
        }
        self
    }

    /// Set, replace or remove the `Domain` attribute; the text is trimmed
    /// first, and a value that trims to nothing removes the attribute.
    #[verifier::rlimit(100)]
    #[verifier::spinoff_prover]
    pub fn set_domain(&mut self, domain: &str) -> (r: &mut Cookie)
        requires
            old(self).wf(),
        ensures
            r.wf(),
            r@ == with_domain(old(self)@, domain@),
            *final(self) == *final(r),
    {
        let ghost m0 = self@;
        proof {
            lens();
            lemma_layout(m0);
            lemma_seg_lens(m0);
            lemma_regroup(m0);
        }
        let t = trim(domain);
        let old_dom_end = self.domain_end_or_prior();
        let old_value_start = match self.domain_end {
            Some(_) => Some(self.value_end + 9),
            None => None,
        };
        let preceding_end = self.value_end;
        let (new_end, suffix) = set_attr_value(
            &mut self.serialization,
            "; Domain=",
            t,
            old_value_start,
            self.domain_end,
            preceding_end,
        );
        self.serialization.append(suffix.as_str());
        let fl = self.serialization.as_str().unicode_len();
        self.domain_end = new_end;
        self.model = Ghost(with_domain(m0, domain@));
        proof {
            let m2 = self@;
            lemma_seg_lens(m2);
            lemma_regroup(m2);
            if m0.domain is Some {
                if trim_spec(domain@).len() == 0 {
                    assert(seg_domain(m2) + tail_path(m2) =~= tail_path(m0));
                } else {
                    lemma_assoc(seg_pair(m0), "; Domain="@, trim_spec(domain@));
                    lemma_assoc(seg_pair(m0), "; Domain="@ + trim_spec(domain@), tail_path(m0));
                }
            } else {
                assert(tail_domain(m0) =~= tail_path(m0));
                if trim_spec(domain@).len() == 0 {
                    assert(with_domain(m0, domain@) =~= m0);
                } else {
                    lemma_assoc(seg_pair(m0), "; Domain="@, trim_spec(domain@));
                    lemma_assoc(seg_pair(m0), "; Domain="@ + trim_spec(domain@), tail_path(m0));
                }
            }
            assert(self.serialization@ == spec_serialize(m2));
            lemma_layout(m2);
            assert(fl == spec_serialize(m2).len());
        }
        let new_dom_end = match self.domain_end {
            Some(e) => e,
            None => self.value_end,
        };
        match &mut self.path_end {
            Some(e) => adjust(e, old_dom_end, new_dom_end),
            None => {},
        }
        match &mut self.max_age {
            Some((_, e)) => adjust(e, old_dom_end, new_dom_end),
            None => {},
        }
        self
    }

    /// Set, replace or remove the `Path` attribute; the text is trimmed
    /// first, and a value that trims to nothing removes the attribute.
    #[verifier::rlimit(100)]
    #[verifier::spinoff_prover]
    pub fn set_path(&mut self, path: &str) -> (r: &mut Cookie)
        requires
            old(self).wf(),
        ensures
            r.wf(),
            r@ == with_path(old(self)@, path@),
            *final(self) == *final(r),
    {
        let ghost m0 = self@;
        proof {
            lens();
            lemma_layout(m0);
            lemma_seg_lens(m0);
            lemma_regroup(m0);
        }
        let t = trim(path);
        let old_path_end = self.path_end_or_prior();
        let preceding_end = self.domain_end_or_prior();
        let old_value_start = match self.path_end {
            Some(_) => Some(preceding_end + 7),
            None => None,
        };
        let (new_end, suffix) = set_attr_value(
            &mut self.serialization,
            "; Path=",
            t,
            old_value_start,
            self.path_end,
            preceding_end,
        );
        self.serialization.append(suffix.as_str());
        let fl = self.serialization.as_str().unicode_len();
        self.path_end = new_end;
        self.model = Ghost(with_path(m0, path@));
        proof {
            let m2 = self@;
            let pfx = seg_pair(m0) + seg_domain(m0);
            lemma_seg_lens(m2);
            lemma_regroup(m2);
            if m0.path is Some {
                if trim_spec(path@).len() == 0 {
                    assert(seg_path(m2) + tail_max_age(m2) =~= tail_max_age(m0));
                } else {
                    lemma_assoc(pfx, "; Path="@, trim_spec(path@));
                    lemma_assoc(pfx, "; Path="@ + trim_spec(path@), tail_max_age(m0));
                }
            } else {
                assert(tail_path(m0) =~= tail_max_age(m0));
                if trim_spec(path@).len() == 0 {
                    assert(with_path(m0, path@) =~= m0);
                } else {
                    lemma_assoc(pfx, "; Path="@, trim_spec(path@));
                    lemma_assoc(pfx, "; Path="@ + trim_spec(path@), tail_max_age(m0));
                }
            }
            assert(self.serialization@ == spec_serialize(m2));
            lemma_layout(m2);
            assert(fl == spec_serialize(m2).len());
        }
        let new_path_end = match self.path_end {
            Some(e) => e,
            None => preceding_end,
        };
        match &mut self.max_age {
            Some((_, e)) => adjust(e, old_path_end, new_path_end),
            None => {},
        }
        self
    }

    /// Set, replace or remove the `Max-Age` attribute: zero removes it,
    /// any other number is written as plain decimal digits.
    pub fn set_max_age(&mut self, max_age: u64) -> (r: &mut Cookie)
        requires
            old(self).wf(),
        ensures
            r.wf(),
            r@ == with_max_age(old(self)@, max_age),
            *final(self) == *final(r),
    {
        let ghost m0 = self@;
        proof {
            lens();
            lemma_layout(m0);
            lemma_seg_lens(m0);
            lemma_regroup(m0);
        }
        let cur: u64 = match self.max_age {
            Some((v, _)) => v,
            None => 0,
        };
        if cur == max_age {
            proof {
                assert(with_max_age(m0, max_age) =~= m0);
            }
        } else if max_age == 0 {
            // a Max-Age segment is present, since the current number is not 0
            let s_off = self.path_end_or_prior();
            let e = match self.max_age {
                Some((_, e)) => e,
                None => 0,
            };
            let suffix = truncate_and_take(&mut self.serialization, s_off, e);
            self.serialization.append(suffix.as_str());
            self.max_age = None;
            self.model = Ghost(with_max_age(m0, max_age));
            proof {
                let m2 = self@;
                lemma_seg_lens(m2);
                lemma_regroup(m2);
                assert(seg_max_age(m2) + tail_secure(m2) =~= tail_secure(m0));
                assert(self.serialization@ == spec_serialize(m2));
            }
        } else {
            let suffix = match self.max_age {
                Some((_, e)) => {
                    let vs = self.path_end_or_prior() + 10;
                    truncate_and_take(&mut self.serialization, vs, e)
                },
                None => {
                    let e = self.path_end_or_prior();
                    let sfx = truncate_and_take(&mut self.serialization, e, e);
                    self.serialization.append("; Max-Age=");
                    sfx
                },
            };
            let digits = u64_to_string(max_age);
            self.serialization.append(digits.as_str());
            let new_end = self.serialization.as_str().unicode_len();
            self.serialization.append(suffix.as_str());
            self.max_age = Some((max_age, new_end));
            self.model = Ghost(with_max_age(m0, max_age));
            proof {
                let m2 = self@;
                let pfx = seg_pair(m0) + seg_domain(m0) + seg_path(m0);
                lemma_seg_lens(m2);
                lemma_regroup(m2);
                if m0.max_age is None {
                    assert(tail_max_age(m0) =~= tail_secure(m0));
                }
                lemma_assoc(pfx, "; Max-Age="@, dec_rep(max_age as nat));
                lemma_assoc(pfx, "; Max-Age="@ + dec_rep(max_age as nat), tail_secure(m0));
                assert(self.serialization@ == spec_serialize(m2));
            }
        }
        self
    }

    /// Set or clear the `Secure` flag.
    pub fn set_secure(&mut self, secure: bool) -> (r: &mut Cookie)
        requires
            old(self).wf(),
        ensures
            r.wf(),
            r@ == with_secure(old(self)@, secure),
            *final(self) == *final(r),
    {
        let ghost m0 = self@;
        proof {
            lens();
            lemma_layout(m0);
            lemma_seg_lens(m0);
            lemma_regroup(m0);
        }
        if self.secure != secure {
            let preceding_end = self.max_age_end_or_prior();
            let old_secure = self.secure;
            set_flag_str(&mut self.serialization, preceding_end, "; Secure", old_secure, secure);
            self.secure = secure;
            self.model = Ghost(with_secure(m0, secure));
            proof {
                let m2 = self@;
                let pfx = seg_pair(m0) + seg_domain(m0) + seg_path(m0) + seg_max_age(m0);
                lemma_seg_lens(m2);
                lemma_regroup(m2);
                lemma_assoc(pfx, seg_secure(m2), tail_httponly(m0));
                assert(self.serialization@ == spec_serialize(m2));
            }
        } else {
            proof {
                assert(with_secure(m0, secure) =~= m0);
            }
        }
        self
    }

    /// Set or clear the `HttpOnly` flag.
    pub fn set_httponly(&mut self, httponly: bool) -> (r: &mut Cookie)
        requires
            old(self).wf(),
        ensures
            r.wf(),
            r@ == with_httponly(old(self)@, httponly),
            *final(self) == *final(r),
    {
        let ghost m0 = self@;
        proof {
            lens();
            lemma_layout(m0);
            lemma_seg_lens(m0);
            lemma_regroup(m0);
        }
        if self.httponly != httponly {
            let preceding_end = self.secure_end_or_prior();
            let old_httponly = self.httponly;
            set_flag_str(
                &mut self.serialization,
                preceding_end,
                "; HttpOnly",
                old_httponly,
                httponly,
            );
            self.httponly = httponly;
            self.model = Ghost(with_httponly(m0, httponly));
            proof {
                let m2 = self@;
                let pfx = seg_pair(m0) + seg_domain(m0) + seg_path(m0) + seg_max_age(m0)
                    + seg_secure(m0);
                lemma_seg_lens(m2);
                lemma_regroup(m2);
                lemma_assoc(pfx, seg_httponly(m2), seg_expires(m0));
                assert(self.serialization@ == spec_serialize(m2));
            }
        } else {
            proof {
                assert(with_httponly(m0, httponly) =~= m0);
            }
        }
        self
    }

    /// Set, replace or remove the `Expires` attribute.  The instant is
    /// normalized to UTC first; on a UTC instant (as the timestamp codec
    /// itself produces) the stored value is exactly the one passed.
    pub fn set_expires(&mut self, expires: Option<Timestamp>) -> (r: &mut Cookie)
        requires
            old(self).wf(),
            expires matches Some(t) ==> t.wf(),
        ensures
            r.wf(),
            expires is None ==> r@ == with_expires(old(self)@, None),
            (match expires {
                Some(t) => t.utcoff == 0 ==> r@ == with_expires(old(self)@, Some(t)),
                None => true,
            }),
            expires is Some ==> exists|u: Timestamp|
                #[trigger] u.fmt_ready() && r@ == with_expires(old(self)@, Some(u)),
            *final(self) == *final(r),
    {
        let ghost m0 = self@;
        proof {
            lens();
            lemma_layout(m0);
            lemma_seg_lens(m0);
            lemma_regroup(m0);
        }
        match expires {
            None => {
                match self.expires {
                    Some(_) => {
                        let trunc_from = self.httponly_end_or_prior();
                        truncate_to(&mut self.serialization, trunc_from);
                        self.expires = None;
                        self.model = Ghost(with_expires(m0, None));
                        proof {
                            let m2 = self@;
                            lemma_seg_lens(m2);
                            lemma_regroup(m2);
                            let pfx = seg_pair(m0) + seg_domain(m0) + seg_path(m0) + seg_max_age(
                                m0,
                            ) + seg_secure(m0) + seg_httponly(m0);
                            assert(pfx + seg_expires(m2) =~= pfx);
                            assert(self.serialization@ == spec_serialize(m2));
                        }
                    },
                    None => {
                        proof {
                            assert(with_expires(m0, None) =~= m0);
                        }
                    },
                }
            },
            Some(t) => {
                let u = to_utc_norm(&t);
                let is_same = match self.expires {
                    Some(old_t) => old_t == u,
                    None => false,
                };
                if is_same {
                    proof {
                        assert(with_expires(m0, Some(u)) =~= m0);
                        assert(u.fmt_ready() && self@ == with_expires(m0, Some(u)));
                    }
                } else {
                    match self.expires {
                        None => {
                            self.serialization.append("; Expires=");
                        },
                        Some(_) => {
                            let _l = self.buf_len();
                            let trunc_from = self.httponly_end_or_prior() + 10;
                            truncate_to(&mut self.serialization, trunc_from);
                        },
                    }
                    let txt = rfc822_gmt(&u);
                    self.serialization.append(txt.as_str());
                    self.expires = Some(u);
                    self.model = Ghost(with_expires(m0, Some(u)));
                    proof {
                        let m2 = self@;
                        let pfx = seg_pair(m0) + seg_domain(m0) + seg_path(m0) + seg_max_age(m0)
                            + seg_secure(m0) + seg_httponly(m0);
                        lemma_seg_lens(m2);
                        lemma_regroup(m2);
                        if m0.expires is None {
                            assert(spec_serialize(m0) =~= pfx);
                        }
                        lemma_assoc(pfx, "; Expires="@, rfc822_gmt_of(u));
                        assert(self.serialization@ == spec_serialize(m2));
                        assert(u.fmt_ready() && self@ == with_expires(m0, Some(u)));
                    }
                }
            },
        }
        self
    }

    /// Force immediate expiry: set `Expires` to the earliest representable
    /// instant, 1900-01-01T00:00:00 UTC.
    pub fn expire(&mut self) -> (r: &mut Cookie)
        requires
            old(self).wf(),
        ensures
            r.wf(),
            r@ == with_expires(old(self)@, Some(Timestamp::spec_earliest())),
            *final(self) == *final(r),
    {
        let e = Timestamp::earliest();
        self.set_expires(Some(e))
    }


    /// Consume the cookie, handing its packed text to the caller.
    pub fn into_string(self) -> (r: String)
        requires
            self.wf(),
        ensures
            r@ == spec_serialize(self@),
    {
        self.serialization
    }
}

} // verus!
