//! Request metadata: header lookup, the client address, and the country chain.

use vstd::prelude::*;
use crate::text::{trim, trimmed};
use crate::validate::{is_private_or_local_ip, private_or_local};

verus! {

/// One request header: a lower-case name and its text value.
pub struct Header {
    pub name: String,
    pub value: String,
}

/// The headers of a request, in arrival order. Names are lower case.
pub struct RequestHeaders {
    pub entries: Vec<Header>,
}

/// The value of the first header named `name`.
pub open spec fn header_value(es: Seq<Header>, name: Seq<char>) -> Option<Seq<char>>
    decreases es.len(),
{
    if es.len() == 0 {
        None
    } else if es[0].name@ == name {
        Some(es[0].value@)
    } else {
        header_value(es.drop_first(), name)
    }
}

/// Skipping headers with other names does not change the lookup.
proof fn lemma_header_value_skip(es: Seq<Header>, name: Seq<char>, i: int)
    requires
        0 <= i <= es.len(),
        forall|j: int| 0 <= j < i ==> es[j].name@ != name,
    ensures
        header_value(es, name) == header_value(es.subrange(i, es.len() as int), name),
    decreases i,
{
    if i > 0 {
        assert(es.drop_first().subrange(i - 1, es.drop_first().len() as int) =~= es.subrange(
            i,
            es.len() as int,
        ));
        lemma_header_value_skip(es.drop_first(), name, i - 1);
    } else {
        assert(es.subrange(0, es.len() as int) =~= es);
    }
}

impl RequestHeaders {
    /// The view of the headers.
    pub open spec fn spec_get(&self, name: Seq<char>) -> Option<Seq<char>> {
        header_value(self.entries@, name)
    }

    /// No headers.
    pub fn new() -> (r: Self)
        ensures
            r.entries@.len() == 0,
    {
        RequestHeaders { entries: Vec::new() }
    }

    /// Appends a header.
    pub fn insert(&mut self, name: &str, value: &str)
        ensures
            final(self).entries@.len() == old(self).entries@.len() + 1,
            final(self).entries@.last().name@ == name@,
            final(self).entries@.last().value@ == value@,
            final(self).entries@.drop_last() == old(self).entries@,
    {
        self.entries.push(Header { name: name.to_owned(), value: value.to_owned() });
        assert(self.entries@.drop_last() =~= old(self).entries@);
    }

    /// The value of the first header named `name`.
    pub fn get(&self, name: &str) -> (r: Option<&str>)
        ensures
            r is Some <==> self.spec_get(name@) is Some,
            r is Some ==> r->0@ == self.spec_get(name@)->0,
    {
        let n = self.entries.len();
        let mut i: usize = 0;
        while i < n
            invariant
                n == self.entries@.len(),
                i <= n,
                forall|j: int| 0 <= j < i ==> self.entries@[j].name@ != name@,
            decreases n - i,
        {
            if crate::text::same_text(self.entries[i].name.as_str(), name) {
                proof {
                    lemma_header_value_skip(self.entries@, name@, i as int);
                }
                return Some(self.entries[i].value.as_str());
            }
            i = i + 1;
        }
        proof {
            lemma_header_value_skip(self.entries@, name@, i as int);
        }
        None
    }
}

/// Index of the first comma of `s`, or its length when it has none.
pub open spec fn comma_at(s: Seq<char>) -> int
    decreases s.len(),
{
    if s.len() == 0 || s[0] == ',' {
        0
    } else {
        1 + comma_at(s.drop_first())
    }
}

/// The first non-empty entry, trimmed, of a comma-separated list.
pub open spec fn first_entry(s: Seq<char>) -> Option<Seq<char>>
    decreases s.len(),
{
    let k = comma_at(s);
    if 0 <= k <= s.len() && trimmed(s.subrange(0, k)).len() > 0 {
        Some(trimmed(s.subrange(0, k)))
    } else if 0 <= k < s.len() {
        first_entry(s.subrange(k + 1, s.len() as int))
    } else {
        None
    }
}

/// `comma_at` is the first comma, or the end.
proof fn lemma_comma_at(s: Seq<char>)
    ensures
        0 <= comma_at(s) <= s.len(),
        forall|j: int| 0 <= j < comma_at(s) ==> s[j] != ',',
        comma_at(s) < s.len() ==> s[comma_at(s)] == ',',
    decreases s.len(),
{
    if s.len() > 0 && s[0] != ',' {
        lemma_comma_at(s.drop_first());
        assert forall|j: int| 0 <= j < comma_at(s) implies s[j] != ',' by {
            if j > 0 {
                assert(s[j] == s.drop_first()[j - 1]);
            }
        }
    }
}

/// The first comma found by scanning from the front is `comma_at`.
proof fn lemma_comma_at_is(s: Seq<char>, k: int)
    requires
        0 <= k <= s.len(),
        forall|j: int| 0 <= j < k ==> s[j] != ',',
        k < s.len() ==> s[k] == ',',
    ensures
        comma_at(s) == k,
{
    lemma_comma_at(s);
}

/// The client address: the first non-empty entry of `x-forwarded-for`.
pub open spec fn client_ip(h: RequestHeaders) -> Option<Seq<char>> {
    match h.spec_get("x-forwarded-for"@) {
        None => None,
        Some(v) => first_entry(v),
    }
}

/// The first non-empty entry, trimmed, of the comma-separated list `v`.
pub fn first_list_entry(v: &str) -> (r: Option<String>)
    ensures
        r is Some <==> first_entry(v@) is Some,
        r is Some ==> r->0@ == first_entry(v@)->0,
{
    let n = v.unicode_len();
    let mut start: usize = 0;
    let mut i: usize = 0;
    assert(v@.subrange(0, n as int) =~= v@);
    while i <= n
        invariant
            n == v@.len(),
            start <= i,
            i <= n,
            start <= n,
            forall|j: int| start <= j < i && j < n ==> v@[j] != ',',
            first_entry(v@) == first_entry(v@.subrange(start as int, n as int)),
        decreases n + 1 - i,
    {
        if i == n || v.get_char(i) == ',' {
            let ghost rest = v@.subrange(start as int, n as int);
            proof {
                lemma_comma_at_is(rest, i - start);
                assert(rest.subrange(0, i - start) =~= v@.subrange(start as int, i as int));
            }
            let entry = trim(v.substring_char(start, i));
            if entry.unicode_len() > 0 {
                return Some(entry.to_owned());
            }
            if i == n {
                return None;
            }
            proof {
                assert(rest.subrange(i - start + 1, rest.len() as int) =~= v@.subrange(
                    i + 1,
                    n as int,
                ));
            }
            start = i + 1;
        }
        i = i + 1;
    }
    None
}

/// The client address of a request, from `x-forwarded-for`.
pub fn client_ip_from_headers(headers: &RequestHeaders) -> (r: Option<String>)
    ensures
        r is Some <==> client_ip(*headers) is Some,
        r is Some ==> r->0@ == client_ip(*headers)->0,
{
    match headers.get("x-forwarded-for") {
        None => None,
        Some(v) => first_list_entry(v),
    }
}

/// A header value that names a country: the trimmed text, when not empty.
pub open spec fn hint(v: Option<Seq<char>>) -> Option<Seq<char>> {
    match v {
        Some(t) if trimmed(t).len() > 0 => Some(trimmed(t)),
        _ => None,
    }
}

/// The country that trusted proxy headers give, in order of priority.
pub open spec fn header_country(h: RequestHeaders) -> Option<Seq<char>> {
    if hint(h.spec_get("cf-ipcountry"@)) is Some {
        hint(h.spec_get("cf-ipcountry"@))
    } else if hint(h.spec_get("x-geo-country"@)) is Some {
        hint(h.spec_get("x-geo-country"@))
    } else {
        hint(h.spec_get("x-country"@))
    }
}

/// The trimmed value of header `name`, when present and not empty.
fn header_hint(headers: &RequestHeaders, name: &str) -> (r: Option<String>)
    ensures
        r is Some <==> hint(headers.spec_get(name@)) is Some,
        r is Some ==> r->0@ == hint(headers.spec_get(name@))->0,
{
    match headers.get(name) {
        None => None,
        Some(v) => {
            let t = trim(v);
            if t.unicode_len() > 0 {
                Some(t.to_owned())
            } else {
                None
            }
        },
    }
}

/// The country named by the first of `cf-ipcountry`, `x-geo-country` and
/// `x-country` that is present and not blank.
pub fn country_from_headers(headers: &RequestHeaders) -> (r: Option<String>)
    ensures
        r is Some <==> header_country(*headers) is Some,
        r is Some ==> r->0@ == header_country(*headers)->0,
{
    let a = header_hint(headers, "cf-ipcountry");
    if a.is_some() {
        return a;
    }
    let b = header_hint(headers, "x-geo-country");
    if b.is_some() {
        return b;
    }
    header_hint(headers, "x-country")
}

/// The address whose country is looked up over the network: only when no
/// header names a country, the client address is known, and it is public.
pub open spec fn lookup_target(h: RequestHeaders) -> Option<Seq<char>> {
    if header_country(h) is None && client_ip(h) is Some && !private_or_local(client_ip(h)->0) {
        client_ip(h)
    } else {
        None
    }
}

/// The address to look up, if the country chain reaches the network step.
pub fn geo_lookup_target(headers: &RequestHeaders) -> (r: Option<String>)
    ensures
        r is Some <==> lookup_target(*headers) is Some,
        r is Some ==> r->0@ == lookup_target(*headers)->0,
{
    if country_from_headers(headers).is_some() {
        return None;
    }
    match client_ip_from_headers(headers) {
        None => None,
        Some(ip) => {
            if is_private_or_local_ip(ip.as_str()) {
                None
            } else {
                Some(ip)
            }
        },
    }
}

/// Whether `c` is an ASCII letter.
pub open spec fn ascii_letter(c: char) -> bool {
    ('a' <= c <= 'z') || ('A' <= c <= 'Z')
}

/// A lookup reply names a country when, trimmed, it is two ASCII letters.
pub open spec fn reply_country(reply: Seq<char>) -> Option<Seq<char>> {
    let t = trimmed(reply);
    if t.len() == 2 && ascii_letter(t[0]) && ascii_letter(t[1]) {
        Some(t)
    } else {
        None
    }
}

/// The country code in the body of a lookup reply, if it is well formed.
pub fn country_from_lookup_reply(reply: &str) -> (r: Option<String>)
    ensures
        r is Some <==> reply_country(reply@) is Some,
        r is Some ==> r->0@ == reply_country(reply@)->0,
{
    let t = trim(reply);
    if t.unicode_len() != 2 {
        return None;
    }
    let a = t.get_char(0);
    let b = t.get_char(1);
    let a_ok = ('a' <= a && a <= 'z') || ('A' <= a && a <= 'Z');
    let b_ok = ('a' <= b && b <= 'z') || ('A' <= b && b <= 'Z');
    if a_ok && b_ok {
        Some(t.to_owned())
    } else {
        None
    }
}

/// The country of a click: a trusted header first; otherwise, when the chain
/// reaches the network step, what the reply names.
pub open spec fn click_country(h: RequestHeaders, reply: Option<Seq<char>>) -> Option<Seq<char>> {
    if header_country(h) is Some {
        header_country(h)
    } else if lookup_target(h) is Some && reply is Some {
        reply_country(reply->0)
    } else {
        None
    }
}

/// The view of an optional string.
pub open spec fn opt_string(o: Option<String>) -> Option<Seq<char>> {
    match o {
        None => None,
        Some(s) => Some(s@),
    }
}

/// Resolves the country of a click from the headers and, where the network
/// step was taken, the reply to the lookup of `geo_lookup_target`.
pub fn country_from_headers_or_ip(headers: &RequestHeaders, reply: Option<&str>) -> (r: Option<
    String,
>)
    ensures
        opt_string(r) == click_country(*headers, crate::clock::opt_view(reply)),
{
    let c = country_from_headers(headers);
    if c.is_some() {
        return c;
    }
    if geo_lookup_target(headers).is_none() {
        return None;
    }
    match reply {
        None => None,
        Some(text) => country_from_lookup_reply(text),
    }
}

} // verus!
