//! Webroot-bounded URL construction: turns a canonical local file path into a
//! fully-qualified absolute URL whose path components are percent-encoded one
//! by one, so that a separator character inside a filename can never be
//! reinterpreted as a path boundary.
//!
//! This module is the system's security boundary: a path that does not lie
//! under the webroot, or that decomposes into a non-plain component, is
//! rejected and never substituted with a default URL. Callers hand in paths
//! that are already canonical (symlinks and relative segments resolved).

use vstd::prelude::*;
use vstd::utf8::{char_is_scalar, encode_scalar, encode_utf8};

use crate::error::{Error, ErrorKind};
use crate::text::{
    lemma_hex_digit_val,
    push_hex_byte,
    spec_hex_byte,
    spec_hex_digit,
    spec_hex_digit_val,
    spec_starts_with,
    str_eq,
    str_starts_with,
    string_push,
};

verus! {

/// Whether a character stays literal in a percent-encoded URL component
/// (the RFC 3986 unreserved characters: letters, digits, `-` `.` `_` `~`).
pub open spec fn spec_is_unreserved(c: char) -> bool {
    let u = c as u32;
    (48 <= u && u <= 57) || (65 <= u && u <= 90) || (97 <= u && u <= 122) || u == 45 || u == 46
        || u == 95 || u == 126
}

/// Whether a character stays literal in a percent-encoded URL component.
fn is_unreserved(c: char) -> (r: bool)
    ensures
        r == spec_is_unreserved(c),
{
    let u = c as u32;
    (48 <= u && u <= 57) || (65 <= u && u <= 90) || (97 <= u && u <= 122) || u == 45 || u == 46
        || u == 95 || u == 126
}

/// One escaped byte: `%` followed by the byte in upper-case hex.
pub open spec fn spec_pct_byte(b: u8) -> Seq<char> {
    seq!['%'] + spec_hex_byte(b)
}

/// A byte sequence with every byte escaped.
pub open spec fn spec_pct_bytes(bs: Seq<u8>) -> Seq<char>
    decreases bs.len(),
{
    if bs.len() == 0 {
        Seq::<char>::empty()
    } else {
        spec_pct_byte(bs[0]) + spec_pct_bytes(bs.drop_first())
    }
}

/// The percent-encoding of one character: unreserved characters stay literal;
/// every byte of any other character's UTF-8 encoding is escaped.
pub open spec fn spec_pct_char(c: char) -> Seq<char> {
    if spec_is_unreserved(c) {
        seq![c]
    } else {
        spec_pct_bytes(encode_scalar(c as u32))
    }
}

/// The percent-encoding of a component, character by character.
pub open spec fn spec_pct_encode(s: Seq<char>) -> Seq<char>
    decreases s.len(),
{
    if s.len() == 0 {
        Seq::<char>::empty()
    } else {
        spec_pct_char(s[0]) + spec_pct_encode(s.drop_first())
    }
}

/// Percent-encoding distributes over appending one character.
proof fn lemma_pct_encode_push(s: Seq<char>, c: char)
    ensures
        spec_pct_encode(s.push(c)) == spec_pct_encode(s) + spec_pct_char(c),
    decreases s.len(),
{
    if s.len() == 0 {
        assert(s.push(c)[0] == c);
        assert(s.push(c).drop_first() =~= Seq::<char>::empty());
        assert(spec_pct_encode(s.push(c)) == spec_pct_char(c) + spec_pct_encode(
            Seq::<char>::empty(),
        ));
        assert(spec_pct_encode(s.push(c)) =~= spec_pct_encode(s) + spec_pct_char(c));
    } else {
        assert(s.push(c)[0] == s[0]);
        assert(s.push(c).drop_first() =~= s.drop_first().push(c));
        lemma_pct_encode_push(s.drop_first(), c);
        assert(spec_pct_encode(s.push(c)) == spec_pct_char(s[0]) + (spec_pct_encode(s.drop_first())
            + spec_pct_char(c)));
        assert(spec_pct_encode(s.push(c)) =~= spec_pct_encode(s) + spec_pct_char(c));
    }
}

/// Appends `%` and the two hex digits of `b`.
fn push_pct_byte(out: &mut String, b: u8)
    ensures
        final(out)@ == old(out)@ + spec_pct_byte(b),
{
    string_push(out, '%');
    push_hex_byte(out, b);
    proof {
        assert(out@ =~= old(out)@ + spec_pct_byte(b));
    }
}

/// Appends the percent-encoding of one character.
fn push_pct_char(out: &mut String, c: char)
    ensures
        final(out)@ == old(out)@ + spec_pct_char(c),
{
    if is_unreserved(c) {
        string_push(out, c);
        return ;
    }
    let u = c as u32;
    proof {
        char_is_scalar(c);
    }
    if u < 0x80 {
        let b0 = (u & 0x7F) as u8;
        push_pct_byte(out, b0);
        proof {
            assert(encode_scalar(u) =~= seq![b0]);
            assert(seq![b0].drop_first() =~= Seq::<u8>::empty());
            assert(spec_pct_bytes(Seq::<u8>::empty()) =~= Seq::<char>::empty());
            assert(spec_pct_bytes(encode_scalar(u)) =~= spec_pct_byte(b0));
            assert(out@ =~= old(out)@ + spec_pct_char(c));
        }
    } else if u < 0x800 {
        let b0 = 0xC0 | ((u >> 6) & 0x1F) as u8;
        let b1 = 0x80 | (u & 0x3F) as u8;
        push_pct_byte(out, b0);
        push_pct_byte(out, b1);
        proof {
            assert(encode_scalar(u) =~= seq![b0, b1]);
            assert(seq![b0, b1].drop_first() =~= seq![b1]);
            assert(seq![b1].drop_first() =~= Seq::<u8>::empty());
            assert(spec_pct_bytes(Seq::<u8>::empty()) =~= Seq::<char>::empty());
            assert(spec_pct_bytes(seq![b1]) =~= spec_pct_byte(b1));
            assert(spec_pct_bytes(encode_scalar(u)) =~= spec_pct_byte(b0) + spec_pct_byte(b1));
            assert(out@ =~= old(out)@ + spec_pct_char(c));
        }
    } else if u < 0x10000 {
        let b0 = 0xE0 | ((u >> 12) & 0x0F) as u8;
        let b1 = 0x80 | ((u >> 6) & 0x3F) as u8;
        let b2 = 0x80 | (u & 0x3F) as u8;
        push_pct_byte(out, b0);
        push_pct_byte(out, b1);
        push_pct_byte(out, b2);
        proof {
            assert(encode_scalar(u) =~= seq![b0, b1, b2]);
            assert(seq![b0, b1, b2].drop_first() =~= seq![b1, b2]);
            assert(seq![b1, b2].drop_first() =~= seq![b2]);
            assert(seq![b2].drop_first() =~= Seq::<u8>::empty());
            assert(spec_pct_bytes(Seq::<u8>::empty()) =~= Seq::<char>::empty());
            assert(spec_pct_bytes(seq![b2]) =~= spec_pct_byte(b2));
            assert(spec_pct_bytes(seq![b1, b2]) =~= spec_pct_byte(b1) + spec_pct_byte(b2));
            assert(spec_pct_bytes(encode_scalar(u)) =~= spec_pct_byte(b0) + spec_pct_byte(b1)
                + spec_pct_byte(b2));
            assert(out@ =~= old(out)@ + spec_pct_char(c));
        }
    } else {
        let b0 = 0xF0 | ((u >> 18) & 0x7) as u8;
        let b1 = 0x80 | ((u >> 12) & 0x3F) as u8;
        let b2 = 0x80 | ((u >> 6) & 0x3F) as u8;
        let b3 = 0x80 | (u & 0x3F) as u8;
        push_pct_byte(out, b0);
        push_pct_byte(out, b1);
        push_pct_byte(out, b2);
        push_pct_byte(out, b3);
        proof {
            assert(encode_scalar(u) =~= seq![b0, b1, b2, b3]);
            assert(seq![b0, b1, b2, b3].drop_first() =~= seq![b1, b2, b3]);
            assert(seq![b1, b2, b3].drop_first() =~= seq![b2, b3]);
            assert(seq![b2, b3].drop_first() =~= seq![b3]);
            assert(seq![b3].drop_first() =~= Seq::<u8>::empty());
            assert(spec_pct_bytes(Seq::<u8>::empty()) =~= Seq::<char>::empty());
            assert(spec_pct_bytes(seq![b3]) =~= spec_pct_byte(b3));
            assert(spec_pct_bytes(seq![b2, b3]) =~= spec_pct_byte(b2) + spec_pct_byte(b3));
            assert(spec_pct_bytes(seq![b1, b2, b3]) =~= spec_pct_byte(b1) + spec_pct_byte(b2)
                + spec_pct_byte(b3));
            assert(spec_pct_bytes(encode_scalar(u)) =~= spec_pct_byte(b0) + spec_pct_byte(b1)
                + spec_pct_byte(b2) + spec_pct_byte(b3));
            assert(out@ =~= old(out)@ + spec_pct_char(c));
        }
    }
}

/// Appends the percent-encoding of a whole component.
pub fn pct_encode_into(out: &mut String, s: &str)
    ensures
        final(out)@ == old(out)@ + spec_pct_encode(s@),
{
    let n = s.unicode_len();
    let mut i: usize = 0;
    proof {
        assert(s@.subrange(0, 0) =~= Seq::<char>::empty());
    }
    while i < n
        invariant
            i <= n,
            n == s@.len(),
            out@ == old(out)@ + spec_pct_encode(s@.subrange(0, i as int)),
        decreases n - i,
    {
        let c = s.get_char(i);
        push_pct_char(out, c);
        proof {
            assert(s@.subrange(0, i + 1 as int) =~= s@.subrange(0, i as int).push(s@[i as int]));
            lemma_pct_encode_push(s@.subrange(0, i as int), s@[i as int]);
        }
        i = i + 1;
    }
    proof {
        assert(s@.subrange(0, n as int) =~= s@);
    }
}

/// The percent-decoding of a component back to bytes: an escape sequence maps
/// to its byte, a literal ASCII character maps to its code point; anything
/// else does not decode.
pub open spec fn spec_pct_decode(s: Seq<char>) -> Option<Seq<u8>>
    decreases s.len(),
{
    if s.len() == 0 {
        Some(Seq::<u8>::empty())
    } else if s[0] == '%' {
        if 3 <= s.len() && spec_hex_digit_val(s[1]) >= 0 && spec_hex_digit_val(s[2]) >= 0 {
            match spec_pct_decode(s.skip(3)) {
                Some(rest) => Some(
                    seq![(16 * spec_hex_digit_val(s[1]) + spec_hex_digit_val(s[2])) as u8] + rest,
                ),
                None => None,
            }
        } else {
            None
        }
    } else if (s[0] as u32) < 128 {
        match spec_pct_decode(s.drop_first()) {
            Some(rest) => Some(seq![((s[0] as u32) as u8)] + rest),
            None => None,
        }
    } else {
        None
    }
}

/// Decoding an all-escaped byte run at the front of a component recovers
/// exactly those bytes.
proof fn lemma_pct_decode_bytes_prefix(bs: Seq<u8>, t: Seq<char>)
    ensures
        spec_pct_decode(spec_pct_bytes(bs) + t) == match spec_pct_decode(t) {
            Some(r) => Some(bs + r),
            None => None::<Seq<u8>>,
        },
    decreases bs.len(),
{
    if bs.len() == 0 {
        assert(spec_pct_bytes(bs) + t =~= t);
        if spec_pct_decode(t) is Some {
            assert(bs + spec_pct_decode(t).unwrap() =~= spec_pct_decode(t).unwrap());
        }
    } else {
        let b = bs[0];
        let hi = (b >> 4) as int;
        let lo = (b & 0x0f) as int;
        assert(0 <= (b >> 4) < 16 && 0 <= (b & 0x0f) < 16) by (bit_vector);
        lemma_hex_digit_val(hi);
        lemma_hex_digit_val(lo);
        assert(b >> 4 == b / 16 && b & 0x0f == b % 16) by (bit_vector);
        let s = spec_pct_bytes(bs) + t;
        let enc = spec_pct_byte(b);
        assert(enc.len() == 3);
        assert(enc[0] == '%' && enc[1] == spec_hex_digit(hi) && enc[2] == spec_hex_digit(lo));
        assert(s[0] == '%' && s[1] == spec_hex_digit(hi) && s[2] == spec_hex_digit(lo));
        assert(16 * spec_hex_digit_val(s[1]) + spec_hex_digit_val(s[2]) == b as int);
        assert(s.skip(3) =~= spec_pct_bytes(bs.drop_first()) + t);
        lemma_pct_decode_bytes_prefix(bs.drop_first(), t);
        match spec_pct_decode(t) {
            Some(r) => {
                assert(spec_pct_decode(s.skip(3)) == Some(bs.drop_first() + r));
                assert(seq![b] + (bs.drop_first() + r) =~= bs + r);
                assert(spec_pct_decode(s) == Some(bs + r));
            },
            None => {
                assert(spec_pct_decode(s.skip(3)) is None);
                assert(spec_pct_decode(s) is None);
            },
        }
    }
}

/// Decoding the encoding of one character at the front of a component
/// recovers exactly that character's UTF-8 bytes.
proof fn lemma_pct_decode_char_prefix(c: char, t: Seq<char>)
    ensures
        spec_pct_decode(spec_pct_char(c) + t) == match spec_pct_decode(t) {
            Some(r) => Some(encode_scalar(c as u32) + r),
            None => None::<Seq<u8>>,
        },
{
    char_is_scalar(c);
    let u = c as u32;
    if spec_is_unreserved(c) {
        let s = spec_pct_char(c) + t;
        assert(s[0] == c);
        assert('%' as u32 == 37);
        if c == '%' {
            assert(u == 37);
            assert(false);
        }
        assert(s.drop_first() =~= t);
        assert(u & 0x7F == u) by (bit_vector)
            requires
                u < 0x80,
        ;
        assert(encode_scalar(u) =~= seq![(u & 0x7F) as u8]);
        assert((u & 0x7F) as u8 == u as u8);
        match spec_pct_decode(t) {
            Some(r) => {
                assert(seq![(u as u8)] + r =~= encode_scalar(u) + r);
                assert(spec_pct_decode(s) == Some(encode_scalar(u) + r));
            },
            None => {
                assert(spec_pct_decode(s) is None);
            },
        }
    } else {
        lemma_pct_decode_bytes_prefix(encode_scalar(u), t);
    }
}

/// Law: percent-encoding round-trips. Decoding the encoded component yields
/// exactly the UTF-8 bytes of the original component, so the decoded
/// component equals the original.
pub proof fn lemma_pct_round_trip(s: Seq<char>)
    ensures
        spec_pct_decode(spec_pct_encode(s)) == Some(encode_utf8(s)),
    decreases s.len(),
{
    if s.len() == 0 {
        assert(spec_pct_encode(s) =~= Seq::<char>::empty());
        assert(encode_utf8(s) =~= Seq::<u8>::empty());
    } else {
        lemma_pct_round_trip(s.drop_first());
        lemma_pct_decode_char_prefix(s[0], spec_pct_encode(s.drop_first()));
    }
}

/// The '/'-separated pieces of a remainder path, in order; splitting the empty
/// remainder yields one empty piece.
pub open spec fn spec_split_slash(s: Seq<char>) -> Seq<Seq<char>>
    decreases s.len(),
{
    if s.len() == 0 {
        seq![Seq::<char>::empty()]
    } else if s[0] == '/' {
        seq![Seq::<char>::empty()] + spec_split_slash(s.drop_first())
    } else {
        let rest = spec_split_slash(s.drop_first());
        seq![seq![s[0]] + rest[0]] + rest.drop_first()
    }
}

/// Splitting yields at least one piece.
proof fn lemma_split_nonempty(s: Seq<char>)
    ensures
        spec_split_slash(s).len() >= 1,
    decreases s.len(),
{
    if s.len() > 0 {
        lemma_split_nonempty(s.drop_first());
    }
}

/// When the first separator of `s` stands at `j` (or `s` has none and `j` is
/// its length), the split is the prefix piece followed by the split of what
/// comes after the separator.
proof fn lemma_split_first(s: Seq<char>, j: int)
    requires
        0 <= j <= s.len(),
        forall|k: int| 0 <= k < j ==> s[k] != '/',
        j == s.len() || s[j] == '/',
    ensures
        j == s.len() ==> spec_split_slash(s) == seq![s],
        j < s.len() ==> spec_split_slash(s) == seq![s.subrange(0, j)] + spec_split_slash(
            s.skip(j + 1),
        ),
    decreases s.len(),
{
    lemma_split_nonempty(s);
    if s.len() == 0 {
        assert(s =~= Seq::<char>::empty());
        assert(spec_split_slash(s) =~~= seq![s]);
    } else if j == 0 {
        assert(s[0] == '/');
        assert(s.subrange(0, 0) =~= Seq::<char>::empty());
        assert(s.skip(1) =~= s.drop_first());
        assert(spec_split_slash(s) =~~= seq![s.subrange(0, 0)] + spec_split_slash(s.skip(1)));
    } else {
        assert(s[0] != '/');
        let d = s.drop_first();
        lemma_split_nonempty(d);
        assert(forall|k: int| 0 <= k < j - 1 ==> d[k] != '/');
        lemma_split_first(d, j - 1);
        let rest = spec_split_slash(d);
        if j == s.len() {
            assert(rest == seq![d]);
            assert(rest[0] == d);
            assert(seq![s[0]] + rest[0] =~= s);
            assert(rest.drop_first() =~= Seq::<Seq<char>>::empty());
            assert(spec_split_slash(s) =~~= seq![s]);
        } else {
            assert(rest == seq![d.subrange(0, j - 1)] + spec_split_slash(d.skip(j)));
            assert(rest[0] == d.subrange(0, j - 1));
            assert(seq![s[0]] + rest[0] =~= s.subrange(0, j));
            assert(rest.drop_first() =~= spec_split_slash(d.skip(j)));
            assert(d.skip(j) =~= s.skip(j + 1));
            assert(spec_split_slash(s) =~~= seq![s.subrange(0, j)] + spec_split_slash(
                s.skip(j + 1),
            ));
        }
    }
}

/// Splits `s` at `'/'` separators, starting at character index `from`.
fn split_from(s: &str, from: usize) -> (v: Vec<String>)
    requires
        from <= s@.len(),
    ensures
        v@.len() == spec_split_slash(s@.skip(from as int)).len(),
        forall|i: int| 0 <= i < v@.len() ==> v@[i]@ == spec_split_slash(s@.skip(from as int))[i],
    decreases s@.len() - from,
{
    let n = s.unicode_len();
    let mut j: usize = from;
    while j < n && s.get_char(j) != '/'
        invariant
            from <= j <= n,
            n == s@.len(),
            forall|k: int| from <= k < j ==> s@[k] != '/',
        decreases n - j,
    {
        j = j + 1;
    }
    let comp = s.substring_char(from, j).to_owned();
    let ghost t = s@.skip(from as int);
    proof {
        assert(forall|k: int| 0 <= k < j - from ==> t[k] != '/');
        assert(j < n ==> t[j - from] == '/');
        lemma_split_first(t, j - from);
        assert(comp@ =~= t.subrange(0, j - from));
    }
    if j == n {
        let mut v: Vec<String> = Vec::new();
        v.push(comp);
        proof {
            assert(t.subrange(0, t.len() as int) =~= t);
            assert(v@[0]@ == t);
        }
        v
    } else {
        let mut rest = split_from(s, j + 1);
        rest.insert(0, comp);
        proof {
            assert(s@.skip(j + 1 as int) =~= t.skip(j - from + 1));
            assert(spec_split_slash(t) == seq![t.subrange(0, j - from)] + spec_split_slash(
                t.skip(j - from + 1),
            ));
        }
        rest
    }
}

/// Whether a path component is a plain name: non-empty and neither the
/// current-directory nor the parent-directory marker.
pub open spec fn spec_component_plain(c: Seq<char>) -> bool {
    c.len() > 0 && c != "."@ && c != ".."@
}

/// The URL assembled from `base` and the components in order: each plain
/// component is appended percent-encoded after a `'/'`; a non-plain component
/// stops the resolution.
pub open spec fn spec_url_tail(base: Seq<char>, comps: Seq<Seq<char>>) -> Option<Seq<char>>
    decreases comps.len(),
{
    if comps.len() == 0 {
        Some(base)
    } else if spec_component_plain(comps[0]) {
        spec_url_tail(base + seq!['/'] + spec_pct_encode(comps[0]), comps.drop_first())
    } else {
        None
    }
}

/// The absolute URL for a canonical path under a canonical webroot, when the
/// path lies inside the webroot on a component boundary and every remaining
/// component is a plain name.
pub open spec fn spec_resolve(path: Seq<char>, webroot: Seq<char>, base: Seq<char>) -> Option<
    Seq<char>,
> {
    if !spec_starts_with(path, webroot) {
        None
    } else {
        let rem = path.skip(webroot.len() as int);
        if rem.len() == 0 {
            Some(base)
        } else if webroot.len() > 0 && webroot.last() == '/' {
            spec_url_tail(base, spec_split_slash(rem))
        } else if rem[0] == '/' {
            spec_url_tail(base, spec_split_slash(rem.drop_first()))
        } else {
            None
        }
    }
}

/// Creates an absolute URL for a canonical file path: verifies that the path
/// is inside the webroot, strips the webroot, percent-encodes each remaining
/// component and joins them onto the base URL. A path outside the webroot, or
/// one with a non-plain component, fails with a `Security` error.
pub fn absolute_url(path: &str, webroot: &str, base_url: &str) -> (r: Result<String, Error>)
    ensures
        r is Ok <==> spec_resolve(path@, webroot@, base_url@) is Some,
        r matches Ok(u) ==> Some(u@) == spec_resolve(path@, webroot@, base_url@),
        r matches Err(e) ==> e.kind == ErrorKind::Security,
        !spec_starts_with(path@, webroot@) ==> r is Err,
{
    if !str_starts_with(path, webroot) {
        return Err(Error::new(ErrorKind::Security, "file is not within webroot".to_owned()));
    }
    let plen = path.unicode_len();
    let wlen = webroot.unicode_len();
    if plen == wlen {
        proof {
            assert(path@.skip(wlen as int).len() == 0);
        }
        return Ok(base_url.to_owned());
    }
    let comps: Vec<String>;
    let ghost gcomps: Seq<Seq<char>>;
    if wlen > 0 && webroot.get_char(wlen - 1) == '/' {
        comps = split_from(path, wlen);
        proof {
            gcomps = spec_split_slash(path@.skip(wlen as int));
        }
    } else if path.get_char(wlen) == '/' {
        comps = split_from(path, wlen + 1);
        proof {
            gcomps = spec_split_slash(path@.skip(wlen + 1 as int));
            assert(path@.skip(wlen as int).drop_first() =~= path@.skip(wlen + 1 as int));
        }
    } else {
        return Err(
            Error::new(ErrorKind::Security, "path does not meet the webroot at a component boundary".to_owned()),
        );
    }
    proof {
        assert(spec_resolve(path@, webroot@, base_url@) == spec_url_tail(base_url@, gcomps));
    }
    let mut out = base_url.to_owned();
    let mut idx: usize = 0;
    proof {
        assert(gcomps.skip(0) =~= gcomps);
    }
    while idx < comps.len()
        invariant
            idx <= comps.len(),
            comps@.len() == gcomps.len(),
            forall|i: int| 0 <= i < comps@.len() ==> comps@[i]@ == gcomps[i],
            spec_url_tail(out@, gcomps.skip(idx as int)) == spec_resolve(
                path@,
                webroot@,
                base_url@,
            ),
        decreases comps.len() - idx,
    {
        let c = &comps[idx];
        proof {
            assert(gcomps.skip(idx as int)[0] == gcomps[idx as int]);
        }
        if c.unicode_len() == 0 || str_eq(c.as_str(), ".") || str_eq(c.as_str(), "..") {
            return Err(Error::new(ErrorKind::Security, "unexpected path component".to_owned()));
        }
        let ghost pre = out@;
        string_push(&mut out, '/');
        pct_encode_into(&mut out, c.as_str());
        proof {
            assert(gcomps.skip(idx as int).drop_first() =~= gcomps.skip(idx + 1));
            assert(out@ =~= pre + seq!['/'] + spec_pct_encode(gcomps[idx as int]));
        }
        idx = idx + 1;
    }
    proof {
        assert(gcomps.skip(comps@.len() as int) =~= Seq::<Seq<char>>::empty());
    }
    Ok(out)
}

} // verus!
