//! Properties of the request-target model that [`crate::parse`] follows.
use vstd::prelude::*;
use vstd::string::StringSliceAdditionalSpecFns;
use vstd::utf8::{decode_utf8, encode_utf8, group_utf8_lib};

use crate::target::{
    absolute_of, delimiter_index, has_delimiter, http_scheme, https_scheme, is_delimiter,
    scheme_separator, target_of, TargetBytes, SLASH, STAR,
};

verus! {

broadcast use group_utf8_lib;

/// The first delimiter at or after `from` lies between `from` and the end,
/// and no delimiter comes before it.
pub proof fn lemma_delimiter_index(b: Seq<u8>, from: int)
    requires
        0 <= from <= b.len(),
    ensures
        from <= delimiter_index(b, from) <= b.len(),
        delimiter_index(b, from) < b.len() ==> is_delimiter(b[delimiter_index(b, from)]),
        forall|i: int| from <= i < delimiter_index(b, from) ==> !is_delimiter(#[trigger] b[i]),
    decreases b.len() - from,
{
    if from < b.len() && !is_delimiter(b[from]) {
        lemma_delimiter_index(b, from + 1);
    }
}

/// A token that starts with `/` is an origin path: the whole token, whatever
/// follows the slash.
pub proof fn lemma_slash_is_origin(b: Seq<u8>)
    requires
        b.len() > 0,
        b[0] == SLASH,
    ensures
        target_of(b) == Some(TargetBytes::Origin(b)),
{
}

/// The asterisk form is the token `*` and no other.
pub proof fn lemma_asterisk_exactly_star(b: Seq<u8>)
    ensures
        target_of(b) == Some(TargetBytes::Asterisk) <==> b == seq![STAR],
{
    if target_of(b) == Some(TargetBytes::Asterisk) {
        let http = http_scheme() + scheme_separator();
        let https = https_scheme() + scheme_separator();
        assert(b.len() > 0 && b[0] != SLASH);
        assert(!http.is_prefix_of(b));
        assert(!https.is_prefix_of(b));
    }
    if b == seq![STAR] {
        let http = http_scheme() + scheme_separator();
        let https = https_scheme() + scheme_separator();
        assert(!http.is_prefix_of(b));
        assert(!https.is_prefix_of(b));
    }
}

/// A token with scheme `https` splits into authority and path exactly as the
/// same token with scheme `http` does; only the scheme differs.
pub proof fn lemma_https_like_http(rest: Seq<u8>)
    ensures
        target_of(http_scheme() + scheme_separator() + rest) == Some(
            absolute_of(http_scheme(), rest),
        ),
        target_of(https_scheme() + scheme_separator() + rest) == Some(
            absolute_of(https_scheme(), rest),
        ),
{
    let http = http_scheme() + scheme_separator();
    let https = https_scheme() + scheme_separator();
    let a = http + rest;
    let b = https + rest;
    assert(http.is_prefix_of(a));
    assert(a.subrange(7, a.len() as int) =~= rest);
    assert(a[0] == http[0]);
    assert(b[0] == https[0]);
    assert(b[4] == https[4]);
    assert(!http.is_prefix_of(b)) by {
        if http.is_prefix_of(b) {
            assert(http[4] == b[4]);
        }
    }
    assert(https.is_prefix_of(b));
    assert(b.subrange(8, b.len() as int) =~= rest);
}

/// A non-empty token other than `*` that holds none of `/`, `?`, `#` and
/// `@` is an authority: the whole token.
pub proof fn lemma_bare_token_is_authority(b: Seq<u8>)
    requires
        b.len() > 0,
        b != seq![STAR],
        !has_delimiter(b),
    ensures
        target_of(b) == Some(TargetBytes::Authority(b)),
{
    let http = http_scheme() + scheme_separator();
    let https = https_scheme() + scheme_separator();
    assert(!is_delimiter(b[0]));
    assert(!http.is_prefix_of(b)) by {
        if http.is_prefix_of(b) {
            assert(b[5] == http[5]);
            assert(is_delimiter(b[5]));
        }
    }
    assert(!https.is_prefix_of(b)) by {
        if https.is_prefix_of(b) {
            assert(b[6] == https[6]);
            assert(is_delimiter(b[6]));
        }
    }
}

/// A token that holds one of `/`, `?`, `#` and `@`, does not start with `/`
/// and has no `http://` or `https://` prefix is no request-target.
pub proof fn lemma_delimited_token_fails(b: Seq<u8>)
    requires
        has_delimiter(b),
        b[0] != SLASH,
        !(http_scheme() + scheme_separator()).is_prefix_of(b),
        !(https_scheme() + scheme_separator()).is_prefix_of(b),
    ensures
        target_of(b) is None,
{
    if b == seq![STAR] {
        let i = choose|i: int| 0 <= i < b.len() && #[trigger] is_delimiter(b[i]);
        assert(i == 0);
    }
}

/// The parts of an absolute target, joined with `://` after the scheme, give
/// back the token; the authority holds no delimiter, and the path is empty
/// or starts with one.
pub proof fn lemma_absolute_round_trip(b: Seq<u8>, scheme: Seq<u8>, authority: Seq<u8>, path: Seq<u8>)
    requires
        target_of(b) == Some(TargetBytes::Absolute { scheme, authority, path }),
    ensures
        scheme + scheme_separator() + authority + path == b,
        !has_delimiter(authority),
        path.len() == 0 || is_delimiter(path[0]),
{
    let http = http_scheme() + scheme_separator();
    let https = https_scheme() + scheme_separator();
    let p = if http.is_prefix_of(b) { http } else { https };
    let rest = b.subrange(p.len() as int, b.len() as int);
    lemma_delimiter_index(rest, 0);
    let end = delimiter_index(rest, 0);
    assert(b =~= p + rest);
    assert(rest =~= authority + path);
    assert(scheme + scheme_separator() =~= p);
    assert forall|i: int| 0 <= i < authority.len() implies !is_delimiter(#[trigger] authority[i]) by {
        assert(authority[i] == rest[i]);
    }
    if path.len() > 0 {
        assert(path[0] == rest[end]);
    }
    assert(scheme + scheme_separator() + authority + path =~= b);
}

/// An authority target holds none of `/`, `?`, `#` and `@`.
pub proof fn lemma_authority_has_no_delimiter(b: Seq<u8>, value: Seq<u8>)
    requires
        target_of(b) == Some(TargetBytes::Authority(value)),
    ensures
        value == b,
        !has_delimiter(value),
{
}

/// The UTF-8 encoding of two texts one after the other is the encoding of
/// the first followed by that of the second.
proof fn lemma_encode_utf8_concat(a: Seq<char>, b: Seq<char>)
    ensures
        encode_utf8(a + b) == encode_utf8(a) + encode_utf8(b),
    decreases a.len(),
{
    if a.len() == 0 {
        assert(a + b =~= b);
        assert(encode_utf8(a) + encode_utf8(b) =~= encode_utf8(b));
    } else {
        assert((a + b).drop_first() =~= a.drop_first() + b);
        lemma_encode_utf8_concat(a.drop_first(), b);
        assert(encode_utf8(a + b) =~= encode_utf8(a) + encode_utf8(b));
    }
}

/// The text of an absolute target: its scheme, `://`, its authority and its
/// path, one after the other, are the text of the token.
pub proof fn lemma_absolute_text(s: &str, scheme: &str, authority: &str, path: &str)
    requires
        target_of(s.spec_bytes()) == Some(
            TargetBytes::Absolute {
                scheme: scheme.spec_bytes(),
                authority: authority.spec_bytes(),
                path: path.spec_bytes(),
            },
        ),
    ensures
        scheme@ + seq![':', '/', '/'] + authority@ + path@ == s@,
{
    let sep = seq![':', '/', '/'];
    assert(encode_utf8(sep) == scheme_separator()) by {
        assert(0x3au32 & 0x7f == 0x3a && 0x2fu32 & 0x7f == 0x2f) by (bit_vector);
        reveal_with_fuel(encode_utf8, 4);
        assert(sep.drop_first() =~= seq!['/', '/']);
        assert(sep.drop_first().drop_first() =~= seq!['/']);
        assert(sep.drop_first().drop_first().drop_first() =~= Seq::<char>::empty());
        assert(encode_utf8(sep) =~= scheme_separator());
    }
    lemma_absolute_round_trip(s.spec_bytes(), scheme.spec_bytes(), authority.spec_bytes(), path.spec_bytes());
    lemma_encode_utf8_concat(scheme@, sep);
    lemma_encode_utf8_concat(scheme@ + sep, authority@);
    lemma_encode_utf8_concat(scheme@ + sep + authority@, path@);
    let t = scheme@ + sep + authority@ + path@;
    assert(encode_utf8(t) == encode_utf8(s@));
    assert(decode_utf8(encode_utf8(t)) == t);
    assert(decode_utf8(encode_utf8(s@)) == s@);
}

} // verus!
