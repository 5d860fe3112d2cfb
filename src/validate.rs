//! Validation of the inputs of link creation, and the address ranges that
//! are never looked up.

use vstd::prelude::*;
use vstd::utf8::encode_utf8;
use crate::text::{has_prefix, same_text, starts_with, trim, trimmed};

verus! {

/// Whether `s` begins with one of the two web schemes.
pub open spec fn has_web_scheme(s: Seq<char>) -> bool {
    has_prefix(s, "http://"@) || has_prefix(s, "https://"@)
}

/// The target that a submitted URL stands for: the trimmed text when it
/// begins with `http://` or `https://` (case-sensitive), otherwise nothing.
pub open spec fn normalized_url(input: Seq<char>) -> Option<Seq<char>> {
    if has_web_scheme(trimmed(input)) {
        Some(trimmed(input))
    } else {
        None
    }
}

/// Trims `input` and accepts it when it begins with `http://` or `https://`.
pub fn normalize_url(input: &str) -> (r: Option<String>)
    ensures
        r is Some <==> normalized_url(input@) is Some,
        r is Some ==> r->0@ == normalized_url(input@)->0,
{
    let t = trim(input);
    if starts_with(t, "http://") || starts_with(t, "https://") {
        Some(t.to_owned())
    } else {
        None
    }
}

/// Characters allowed in a custom code.
pub open spec fn code_char_ok(c: char) -> bool {
    ||| 'a' <= c <= 'z'
    ||| 'A' <= c <= 'Z'
    ||| '0' <= c <= '9'
    ||| c == '-'
    ||| c == '_'
}

/// The shortest and longest custom code, in bytes.
pub const MIN_CUSTOM_LEN: usize = 3;

pub const MAX_CUSTOM_LEN: usize = 32;

/// Message for a custom code of the wrong length.
pub open spec fn code_length_message() -> Seq<char> {
    "custom_code must be 3-32 characters"@
}

/// Message for a custom code with a character outside `[A-Za-z0-9_-]`.
pub open spec fn code_charset_message() -> Seq<char> {
    "custom_code must be alphanumeric (plus - and _)"@
}

/// Whether the UTF-8 length of `code` lies within the allowed range.
pub open spec fn code_length_ok(code: Seq<char>) -> bool {
    MIN_CUSTOM_LEN <= encode_utf8(code).len() <= MAX_CUSTOM_LEN
}

/// Whether every character of `s` is allowed in a custom code.
pub open spec fn code_chars_ok(s: Seq<char>) -> bool {
    forall|i: int| 0 <= i < s.len() ==> code_char_ok(#[trigger] s[i])
}

/// Checks a caller-supplied code: 3 to 32 bytes, drawn from `[A-Za-z0-9_-]`.
/// The length is checked first.
pub fn validate_custom_code(code: &str) -> (r: Result<(), String>)
    ensures
        r is Ok <==> code_length_ok(code@) && code_chars_ok(code@),
        !code_length_ok(code@) ==> r is Err && r->Err_0@ == code_length_message(),
        code_length_ok(code@) && !code_chars_ok(code@) ==> r is Err && r->Err_0@
            == code_charset_message(),
{
    let len = code.as_bytes().len();
    if len < MIN_CUSTOM_LEN || len > MAX_CUSTOM_LEN {
        return Err("custom_code must be 3-32 characters".to_owned());
    }
    assert(code_length_ok(code@));
    let n = code.unicode_len();
    let mut i: usize = 0;
    while i < n
        invariant
            n == code@.len(),
            i <= n,
            code_length_ok(code@),
            forall|j: int| 0 <= j < i ==> code_char_ok(#[trigger] code@[j]),
        decreases n - i,
    {
        let c = code.get_char(i);
        let ok = ('a' <= c && c <= 'z') || ('A' <= c && c <= 'Z') || ('0' <= c && c <= '9')
            || c == '-' || c == '_';
        if !ok {
            assert(!code_char_ok(code@[i as int]));
            return Err("custom_code must be alphanumeric (plus - and _)".to_owned());
        }
        i = i + 1;
    }
    Ok(())
}

/// Whether the first group of an IPv6 text has four digits and begins with
/// `p`.
pub open spec fn first_group_starts(ip: Seq<char>, p: Seq<char>) -> bool {
    has_prefix(ip, p) && ip.len() > 4 && ip[2] != ':' && ip[3] != ':' && ip[4] == ':'
}

/// IPv6 unique-local (fc00::/7) and link-local (fe80::/10) addresses, with
/// their first group written in full, in lower or upper case.
pub open spec fn ipv6_private(ip: Seq<char>) -> bool {
    ||| first_group_starts(ip, "fc"@)
    ||| first_group_starts(ip, "fd"@)
    ||| first_group_starts(ip, "fe8"@)
    ||| first_group_starts(ip, "fe9"@)
    ||| first_group_starts(ip, "fea"@)
    ||| first_group_starts(ip, "feb"@)
    ||| first_group_starts(ip, "FC"@)
    ||| first_group_starts(ip, "FD"@)
    ||| first_group_starts(ip, "FE8"@)
    ||| first_group_starts(ip, "FE9"@)
    ||| first_group_starts(ip, "FEA"@)
    ||| first_group_starts(ip, "FEB"@)
}

/// Loopback (127/8) and the private IPv4 ranges 10/8, 172.16/12 and
/// 192.168/16, in dotted form.
pub open spec fn private_v4(ip: Seq<char>) -> bool {
    ||| has_prefix(ip, "127."@)
    ||| has_prefix(ip, "10."@)
    ||| has_prefix(ip, "192.168."@)
    ||| has_prefix(ip, "172.16."@)
    ||| has_prefix(ip, "172.17."@)
    ||| has_prefix(ip, "172.18."@)
    ||| has_prefix(ip, "172.19."@)
    ||| has_prefix(ip, "172.20."@)
    ||| has_prefix(ip, "172.21."@)
    ||| has_prefix(ip, "172.22."@)
    ||| has_prefix(ip, "172.23."@)
    ||| has_prefix(ip, "172.24."@)
    ||| has_prefix(ip, "172.25."@)
    ||| has_prefix(ip, "172.26."@)
    ||| has_prefix(ip, "172.27."@)
    ||| has_prefix(ip, "172.28."@)
    ||| has_prefix(ip, "172.29."@)
    ||| has_prefix(ip, "172.30."@)
    ||| has_prefix(ip, "172.31."@)
}

/// An IPv4 address mapped into IPv6 (`::ffff:a.b.c.d`) whose IPv4 part is
/// loopback or private.
pub open spec fn mapped_private_v4(ip: Seq<char>) -> bool {
    (has_prefix(ip, "::ffff:"@) || has_prefix(ip, "::FFFF:"@)) && private_v4(
        ip.subrange(7, ip.len() as int),
    )
}

/// The addresses for which no country lookup is made: IPv4 loopback and
/// private ranges (`private_v4`), also when mapped into IPv6; IPv6 loopback
/// in its short and full forms; and the private IPv6 ranges of
/// `ipv6_private`.
pub open spec fn private_or_local(ip: Seq<char>) -> bool {
    ||| private_v4(ip)
    ||| ip == "::1"@
    ||| ip == "0:0:0:0:0:0:0:1"@
    ||| mapped_private_v4(ip)
    ||| ipv6_private(ip)
}

/// Whether the first group of the IPv6 text `ip` has four digits and begins
/// with `p`.
fn first_group_is(ip: &str, p: &str) -> (r: bool)
    ensures
        r == first_group_starts(ip@, p@),
{
    starts_with(ip, p) && ip.unicode_len() > 4 && ip.get_char(2) != ':' && ip.get_char(3) != ':'
        && ip.get_char(4) == ':'
}

/// Whether `ip` is a private IPv6 address.
fn is_ipv6_private(ip: &str) -> (r: bool)
    ensures
        r == ipv6_private(ip@),
{
    first_group_is(ip, "fc") || first_group_is(ip, "fd") || first_group_is(ip, "fe8")
        || first_group_is(ip, "fe9") || first_group_is(ip, "fea") || first_group_is(ip, "feb")
        || first_group_is(ip, "FC") || first_group_is(ip, "FD") || first_group_is(ip, "FE8")
        || first_group_is(ip, "FE9") || first_group_is(ip, "FEA") || first_group_is(ip, "FEB")
}

/// Whether `ip` is IPv4 loopback or private, in dotted form.
fn is_private_v4(ip: &str) -> (r: bool)
    ensures
        r == private_v4(ip@),
{
    starts_with(ip, "127.") || starts_with(ip, "10.") || starts_with(ip, "192.168.")
        || starts_with(ip, "172.16.") || starts_with(ip, "172.17.") || starts_with(ip, "172.18.")
        || starts_with(ip, "172.19.") || starts_with(ip, "172.20.") || starts_with(ip, "172.21.")
        || starts_with(ip, "172.22.") || starts_with(ip, "172.23.") || starts_with(ip, "172.24.")
        || starts_with(ip, "172.25.") || starts_with(ip, "172.26.") || starts_with(ip, "172.27.")
        || starts_with(ip, "172.28.") || starts_with(ip, "172.29.") || starts_with(ip, "172.30.")
        || starts_with(ip, "172.31.")
}

/// Whether `ip` is a loopback or private address.
pub fn is_private_or_local_ip(ip: &str) -> (r: bool)
    ensures
        r == private_or_local(ip@),
{
    if is_private_v4(ip) || same_text(ip, "::1") || same_text(ip, "0:0:0:0:0:0:0:1")
        || is_ipv6_private(ip) {
        return true;
    }
    if starts_with(ip, "::ffff:") || starts_with(ip, "::FFFF:") {
        proof {
            reveal_strlit("::ffff:");
            reveal_strlit("::FFFF:");
        }
        is_private_v4(ip.substring_char(7, ip.unicode_len()))
    } else {
        false
    }
}

} // verus!
