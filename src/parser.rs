use vstd::prelude::*;
use vstd::string::StringSliceAdditionalSpecFns;
use vstd::utf8::*;

use crate::laws::{lemma_absolute_text, lemma_delimiter_index};
use crate::target::{
    absolute_of, delimiter_index, http_scheme, https_scheme, is_delimiter, scheme_separator,
    target_of, RequestTarget, AT, COLON, HASH, LOWER_H, LOWER_P, LOWER_S, LOWER_T, QUESTION,
    SLASH, STAR,
};

verus! {

broadcast use group_utf8_lib;

// Authority can't contain `/` or `?` or `#`, user and password
// is not supported in HTTP either (so no `@` but otherwise we accept
// anything as rules are quite complex)
fn authority_end_char(x: &u8) -> (r: bool)
    ensures
        r == is_delimiter(*x),
{
    *x == SLASH || *x == QUESTION || *x == HASH || *x == AT
}

/// Finds the first delimiter of `b` at or after `from`.
fn find_delimiter(b: &[u8], from: usize) -> (r: usize)
    requires
        from <= b@.len(),
    ensures
        r == delimiter_index(b@, from as int),
{
    let mut i = from;
    while i < b.len()
        invariant
            from <= i <= b@.len(),
            delimiter_index(b@, i as int) == delimiter_index(b@, from as int),
        decreases b@.len() - i,
    {
        if authority_end_char(&b[i]) {
            return i;
        }
        i = i + 1;
    }
    i
}

/// Whether `b` begins with `http://`.
fn starts_with_http(b: &[u8]) -> (r: bool)
    ensures
        r == (http_scheme() + scheme_separator()).is_prefix_of(b@),
        r ==> forall|i: int| 0 <= i < 7 ==> b@[i] <= 0x7f,
{
    let r = b.len() >= 7 && b[0] == LOWER_H && b[1] == LOWER_T && b[2] == LOWER_T && b[3]
        == LOWER_P && b[4] == COLON && b[5] == SLASH && b[6] == SLASH;
    proof {
        let p = http_scheme() + scheme_separator();
        if r {
            assert(p =~= b@.subrange(0, 7));
        }
        if p.is_prefix_of(b@) {
            assert(b@[0] == p[0] && b@[1] == p[1] && b@[2] == p[2] && b@[3] == p[3]);
            assert(b@[4] == p[4] && b@[5] == p[5] && b@[6] == p[6]);
        }
    }
    r
}

/// Whether `b` begins with `https://`.
fn starts_with_https(b: &[u8]) -> (r: bool)
    ensures
        r == (https_scheme() + scheme_separator()).is_prefix_of(b@),
        r ==> forall|i: int| 0 <= i < 8 ==> b@[i] <= 0x7f,
{
    let r = b.len() >= 8 && b[0] == LOWER_H && b[1] == LOWER_T && b[2] == LOWER_T && b[3]
        == LOWER_P && b[4] == LOWER_S && b[5] == COLON && b[6] == SLASH && b[7] == SLASH;
    proof {
        let p = https_scheme() + scheme_separator();
        if r {
            assert(p =~= b@.subrange(0, 8));
        }
        if p.is_prefix_of(b@) {
            assert(b@[0] == p[0] && b@[1] == p[1] && b@[2] == p[2] && b@[3] == p[3]);
            assert(b@[4] == p[4] && b@[5] == p[5] && b@[6] == p[6] && b@[7] == p[7]);
        }
    }
    r
}

/// An index of valid UTF-8 bytes that only single-byte characters precede
/// is the start of a character.
proof fn lemma_ascii_prefix_boundary(bytes: Seq<u8>, k: int)
    requires
        valid_utf8(bytes),
        0 <= k <= bytes.len(),
        forall|i: int| 0 <= i < k ==> bytes[i] <= 0x7f,
    ensures
        is_char_boundary(bytes, k),
    decreases k,
{
    if k > 0 {
        let tail = pop_first_scalar(bytes);
        assert(length_of_first_scalar(bytes) == 1);
        assert forall|i: int| 0 <= i < k - 1 implies tail[i] <= 0x7f by {
            assert(tail[i] == bytes[i + 1]);
        }
        lemma_ascii_prefix_boundary(tail, k - 1);
    }
}

/// An index of valid UTF-8 bytes that holds a single-byte character, or
/// that is the end, is the start of a character.
proof fn lemma_ascii_boundary(bytes: Seq<u8>, k: int)
    requires
        valid_utf8(bytes),
        0 <= k <= bytes.len(),
        k < bytes.len() ==> bytes[k] <= 0x7f,
    ensures
        is_char_boundary(bytes, k),
{
    if k < bytes.len() {
        is_char_boundary_iff_not_is_continuation_byte(bytes, k);
    } else {
        is_char_boundary_start_end_of_seq(bytes);
    }
}

/// Splits an input that begins with a scheme of `scheme_len` bytes and
/// `://` into an absolute target.
fn split_absolute<'a>(s: &'a str, scheme_len: usize) -> (r: RequestTarget<'a>)
    requires
        scheme_len <= 5,
        scheme_len + 3 <= s.spec_bytes().len(),
        forall|i: int| 0 <= i < scheme_len + 3 ==> s.spec_bytes()[i] <= 0x7f,
    ensures
        r@ == absolute_of(
            s.spec_bytes().subrange(0, scheme_len as int),
            s.spec_bytes().subrange(scheme_len + 3, s.spec_bytes().len() as int),
        ),
{
    let ghost b = s.spec_bytes();
    proof {
        lemma_ascii_prefix_boundary(b, scheme_len + 3);
    }
    let (prefix, rest) = s.split_at(scheme_len + 3);
    proof {
        lemma_ascii_prefix_boundary(prefix.spec_bytes(), scheme_len as int);
    }
    let (scheme, _) = prefix.split_at(scheme_len);
    let rb = rest.as_bytes();
    let end = find_delimiter(rb, 0);
    proof {
        lemma_delimiter_index(rb@, 0);
        lemma_ascii_boundary(rb@, end as int);
    }
    let (authority, path) = rest.split_at(end);
    proof {
        assert(scheme.spec_bytes() =~= b.subrange(0, scheme_len as int));
    }
    RequestTarget::Absolute { scheme, authority, path }
}

/// Classifies a request-target token, one that is already cut out of the
/// request line and trimmed of whitespace.
///
/// The forms are tried in order: a path that starts with `/`; an absolute
/// url with scheme `http` or `https`; the asterisk `*`; a bare authority,
/// which holds none of `/`, `?`, `#` and `@`. Any other token, the empty
/// one included, is not a request-target.
pub fn parse(s: &str) -> (r: Option<RequestTarget<'_>>)
    ensures
        r matches Some(t) ==> target_of(s.spec_bytes()) == Some(t@),
        r is None <==> target_of(s.spec_bytes()) is None,
        r matches Some(RequestTarget::Origin(p)) ==> p@ == s@,
        r matches Some(RequestTarget::Authority(a)) ==> a@ == s@,
        r matches Some(RequestTarget::Absolute { scheme, authority, path })
            ==> scheme@ + seq![':', '/', '/'] + authority@ + path@ == s@,
{
    let b = s.as_bytes();
    if b.len() == 0 {
        return None;
    }
    if b[0] == SLASH {
        return Some(RequestTarget::Origin(s));
    }
    if starts_with_http(b) {
        let r = split_absolute(s, 4);
        proof {
            assert(b@.subrange(0, 4) =~= http_scheme());
            if let RequestTarget::Absolute { scheme, authority, path } = r {
                lemma_absolute_text(s, scheme, authority, path);
            }
        }
        return Some(r);
    }
    if starts_with_https(b) {
        let r = split_absolute(s, 5);
        proof {
            assert(b@.subrange(0, 5) =~= https_scheme());
            if let RequestTarget::Absolute { scheme, authority, path } = r {
                lemma_absolute_text(s, scheme, authority, path);
            }
        }
        return Some(r);
    }
    if b.len() == 1 && b[0] == STAR {
        proof {
            assert(b@ =~= seq![STAR]);
        }
        return Some(RequestTarget::Asterisk);
    }
    let end = find_delimiter(b, 0);
    proof {
        lemma_delimiter_index(b@, 0);
        if end < b.len() {
            assert(is_delimiter(b@[end as int]));
        }
    }
    if end == b.len() {
        return Some(RequestTarget::Authority(s));
    }
    None
}

} // verus!
