use vstd::prelude::*;
use vstd::string::StringSliceAdditionalSpecFns;

verus! {

/// `/`
pub const SLASH: u8 = 0x2f;

/// `?`
pub const QUESTION: u8 = 0x3f;

/// `#`
pub const HASH: u8 = 0x23;

/// `@`
pub const AT: u8 = 0x40;

/// `*`
pub const STAR: u8 = 0x2a;

/// `:`
pub const COLON: u8 = 0x3a;

/// `h`
pub const LOWER_H: u8 = 0x68;

/// `t`
pub const LOWER_T: u8 = 0x74;

/// `p`
pub const LOWER_P: u8 = 0x70;

/// `s`
pub const LOWER_S: u8 = 0x73;

/// A middle part of the request line
///
/// Most people get used to having path there or maybe asterisk. But in the
/// real protocol there are all four options.
///
/// Every part is a slice of the parsed input: nothing is copied.
#[derive(Debug)]
pub enum RequestTarget<'a> {
    /// Usual form of `/hello?name=world`
    Origin(&'a str),
    /// Full url: `http://example.com:8080/hello`
    ///
    /// Note in this case (unlike in Origin) path may not start with a slash
    Absolute {
        /// Scheme, `http` or `https`
        scheme: &'a str,
        /// Authority is basically `host[:port]`
        authority: &'a str,
        /// Path relative to root, it's not normalized, so might be empty
        path: &'a str,
    },
    /// Only hostname `example.com:8080`, only useful for `CONNECT` method
    Authority(&'a str),
    /// Asterisk `*`
    Asterisk,
}

/// The UTF-8 bytes of each part of a [`RequestTarget`].
pub enum TargetBytes {
    Origin(Seq<u8>),
    Absolute { scheme: Seq<u8>, authority: Seq<u8>, path: Seq<u8> },
    Authority(Seq<u8>),
    Asterisk,
}

impl<'a> View for RequestTarget<'a> {
    type V = TargetBytes;

    open spec fn view(&self) -> TargetBytes {
        match *self {
            RequestTarget::Origin(p) => TargetBytes::Origin(p.spec_bytes()),
            RequestTarget::Absolute { scheme, authority, path } => TargetBytes::Absolute {
                scheme: scheme.spec_bytes(),
                authority: authority.spec_bytes(),
                path: path.spec_bytes(),
            },
            RequestTarget::Authority(a) => TargetBytes::Authority(a.spec_bytes()),
            RequestTarget::Asterisk => TargetBytes::Asterisk,
        }
    }
}

/// True for the bytes that end an authority: `/`, `?`, `#` and `@`.
pub open spec fn is_delimiter(b: u8) -> bool {
    b == SLASH || b == QUESTION || b == HASH || b == AT
}

/// Whether any byte of `b` is a delimiter.
pub open spec fn has_delimiter(b: Seq<u8>) -> bool {
    exists|i: int| 0 <= i < b.len() && #[trigger] is_delimiter(b[i])
}

/// The index of the first delimiter of `b` at or after `from`, or the
/// length of `b` where there is none.
pub open spec fn delimiter_index(b: Seq<u8>, from: int) -> int
    decreases b.len() - from,
{
    if from >= b.len() {
        b.len() as int
    } else if is_delimiter(b[from]) {
        from
    } else {
        delimiter_index(b, from + 1)
    }
}

/// `http`
pub open spec fn http_scheme() -> Seq<u8> {
    seq![LOWER_H, LOWER_T, LOWER_T, LOWER_P]
}

/// `https`
pub open spec fn https_scheme() -> Seq<u8> {
    seq![LOWER_H, LOWER_T, LOWER_T, LOWER_P, LOWER_S]
}

/// `://`, between a scheme and an authority
pub open spec fn scheme_separator() -> Seq<u8> {
    seq![COLON, SLASH, SLASH]
}

/// An absolute target with the given scheme, where `rest` is what follows
/// the scheme and its separator: the authority runs up to the first
/// delimiter, and the path is everything from there on.
pub open spec fn absolute_of(scheme: Seq<u8>, rest: Seq<u8>) -> TargetBytes {
    let end = delimiter_index(rest, 0);
    TargetBytes::Absolute {
        scheme,
        authority: rest.subrange(0, end),
        path: rest.subrange(end, rest.len() as int),
    }
}

/// The request-target that the bytes `b` stand for, if any. The forms are
/// tried in order, and the first that fits is taken.
pub open spec fn target_of(b: Seq<u8>) -> Option<TargetBytes> {
    let http = http_scheme() + scheme_separator();
    let https = https_scheme() + scheme_separator();
    if b.len() == 0 {
        None
    } else if b[0] == SLASH {
        Some(TargetBytes::Origin(b))
    } else if http.is_prefix_of(b) {
        Some(absolute_of(http_scheme(), b.subrange(http.len() as int, b.len() as int)))
    } else if https.is_prefix_of(b) {
        Some(absolute_of(https_scheme(), b.subrange(https.len() as int, b.len() as int)))
    } else if b == seq![STAR] {
        Some(TargetBytes::Asterisk)
    } else if !has_delimiter(b) {
        Some(TargetBytes::Authority(b))
    } else {
        None
    }
}

} // verus!
