//! Client-side rules of the connection to a jotty instance (and to the AI
//! server): which base URLs are accepted, how request URLs are formed, and how
//! the instance's branding icon is chosen and embedded. The HTTP exchanges
//! themselves stand outside the library.
use vstd::prelude::*;
use base64::Engine;
use crate::error::AppError;
use crate::models::ManifestIcon;
use crate::text::{chars_of, concat, owned, starts_with, starts_with_spec, str_eq, string_of};

verus! {

/// What `url::Url::parse` makes of a text: its scheme and host
/// (`Url::host_str`), or the parse error's message (`ParseError::to_string`).
pub uninterp spec fn url_parsed(s: Seq<char>) -> Result<(Seq<char>, Option<Seq<char>>), Seq<char>>;

/// Parsed parts of a URL.
#[derive(Debug)]
pub struct UrlParts {
    pub scheme: String,
    pub host: Option<String>,
}

/// View of the result of `parse_url`.
pub open spec fn url_parts_v(r: Result<UrlParts, String>) -> Result<(Seq<char>, Option<Seq<char>>), Seq<char>> {
    match r {
        Ok(p) => Ok((p.scheme@, crate::db::ov(p.host))),
        Err(m) => Err(m@),
    }
}

/// Parses a URL (`reqwest::Url::parse`, that is `url::Url::parse`) and reads
/// its scheme and host; on failure, the error's message. The result is a
/// function of the text alone.
#[verifier::external_body]
fn parse_url(s: &str) -> (r: Result<UrlParts, String>)
    ensures
        url_parts_v(r) == url_parsed(s@),
{
    match reqwest::Url::parse(s) {
        Ok(u) => Ok(UrlParts { scheme: u.scheme().to_string(), host: u.host_str().map(|h| h.to_string()) }),
        Err(e) => Err(e.to_string()),
    }
}

/// A host on this machine: `localhost`, `127.0.0.1` or `::1`.
pub open spec fn local_host(h: Option<Seq<char>>) -> bool {
    h == Some("localhost"@) || h == Some("127.0.0.1"@) || h == Some("::1"@)
}

fn is_local(h: &Option<String>) -> (r: bool)
    ensures
        r == local_host(crate::db::ov(*h)),
{
    match h {
        Some(x) => str_eq(x.as_str(), "localhost") || str_eq(x.as_str(), "127.0.0.1") || str_eq(x.as_str(), "::1"),
        None => false,
    }
}

/// The verdict on a base URL: it must parse, and be https unless its host is local.
pub open spec fn url_verdict(s: Seq<char>, bad: Seq<char>, insecure: Seq<char>) -> Result<(), Seq<char>> {
    match url_parsed(s) {
        Err(m) => Err(bad + m),
        Ok(p) => if p.0 != "https"@ && !local_host(p.1) { Err(insecure) } else { Ok(()) },
    }
}

fn check_url(s: &str, bad: &str, insecure: &str) -> (r: Result<(), AppError>)
    ensures
        match (r, url_verdict(s@, bad@, insecure@)) {
            (Ok(()), Ok(())) => true,
            (Err(e), Err(m)) => e == AppError::InvalidConfig(e->InvalidConfig_0) && e->InvalidConfig_0@ == m,
            _ => false,
        },
{
    match parse_url(s) {
        Err(m) => Err(AppError::InvalidConfig(concat(bad, m.as_str()))),
        Ok(p) => {
            if !str_eq(p.scheme.as_str(), "https") && !is_local(&p.host) {
                Err(AppError::InvalidConfig(owned(insecure)))
            } else {
                Ok(())
            }
        }
    }
}

/// Whether an instance URL is accepted: it parses, and is https unless it
/// points at this machine.
pub fn validate_instance_url(base_url: &str) -> (r: Result<(), AppError>)
    ensures
        match (r, url_verdict(base_url@, "bad instance url: "@, "instance url must be https (http only allowed for localhost)"@)) {
            (Ok(()), Ok(())) => true,
            (Err(e), Err(m)) => e == AppError::InvalidConfig(e->InvalidConfig_0) && e->InvalidConfig_0@ == m,
            _ => false,
        },
{
    check_url(base_url, "bad instance url: ", "instance url must be https (http only allowed for localhost)")
}

/// Whether an AI server URL is accepted (same rule as for the instance).
pub fn validate_ai_url(base_url: &str) -> (r: Result<(), AppError>)
    ensures
        match (r, url_verdict(base_url@, "bad AI server url: "@, "AI server url must be https (http only allowed for localhost)"@)) {
            (Ok(()), Ok(())) => true,
            (Err(e), Err(m)) => e == AppError::InvalidConfig(e->InvalidConfig_0) && e->InvalidConfig_0@ == m,
            _ => false,
        },
{
    check_url(base_url, "bad AI server url: ", "AI server url must be https (http only allowed for localhost)")
}

/// `s` without its trailing slashes.
pub open spec fn trim_slashes(s: Seq<char>) -> Seq<char>
    decreases s.len(),
{
    if s.len() > 0 && s.last() == '/' { trim_slashes(s.drop_last()) } else { s }
}

/// The base of request URLs: the configured URL without trailing slashes.
pub fn normalize_base(base_url: &str) -> (r: String)
    ensures
        r@ == trim_slashes(base_url@),
{
    let v = chars_of(base_url);
    let mut n: usize = v.len();
    proof { assert(v@.take(v@.len() as int) =~= v@); }
    while n > 0 && v[n - 1] == '/'
        invariant
            n <= v@.len(),
            v@ == base_url@,
            trim_slashes(base_url@) == trim_slashes(v@.take(n as int)),
        decreases n,
    {
        proof { assert(v@.take(n as int).drop_last() =~= v@.take(n - 1)); }
        n -= 1;
    }
    let mut out: Vec<char> = Vec::new();
    let mut k: usize = 0;
    while k < n
        invariant
            k <= n <= v@.len(),
            out@ == v@.take(k as int),
        decreases n - k,
    {
        out.push(v[k]);
        k += 1;
        proof { assert(out@ =~= v@.take(k as int)); }
    }
    string_of(out.as_slice())
}

/// The URL a resource path is fetched from: absolute http(s) URLs as they
/// are, anything else appended to the instance base.
pub fn resource_url(base: &str, path: &str) -> (r: String)
    ensures
        r@ == if starts_with_spec(path@, "http://"@) || starts_with_spec(path@, "https://"@) { path@ } else { base@ + path@ },
{
    if starts_with(path, "http://") || starts_with(path, "https://") {
        owned(path)
    } else {
        concat(base, path)
    }
}

/// The part of `s` after its last `.`, `/` or `?` (the whole text when it
/// has none).
pub open spec fn last_piece(s: Seq<char>) -> Seq<char>
    decreases s.len(),
{
    if s.len() == 0 {
        s
    } else if s.last() == '.' || s.last() == '/' || s.last() == '?' {
        seq![]
    } else {
        last_piece(s.drop_last()).push(s.last())
    }
}

/// ASCII lower-casing of a text.
pub open spec fn ascii_lower_seq(s: Seq<char>) -> Seq<char> {
    s.map_values(|c: char| if 'A' <= c && c <= 'Z' { ((c as u32) + 32) as char } else { c })
}

/// The MIME type of an icon, from its file extension.
pub open spec fn icon_mime_spec(src: Seq<char>) -> Seq<char> {
    let e = ascii_lower_seq(last_piece(src));
    if e == "png"@ { "image/png"@ }
    else if e == "svg"@ { "image/svg+xml"@ }
    else if e == "jpg"@ || e == "jpeg"@ { "image/jpeg"@ }
    else if e == "ico"@ { "image/x-icon"@ }
    else if e == "gif"@ { "image/gif"@ }
    else if e == "webp"@ { "image/webp"@ }
    else { "application/octet-stream"@ }
}

fn lower_char(c: char) -> (r: char)
    ensures
        r == (if 'A' <= c && c <= 'Z' { ((c as u32) + 32) as char } else { c }),
{
    if 'A' <= c && c <= 'Z' {
        let x = (c as u32) + 32;
        let r = x as u8 as char;
        proof {
            assert(65 <= x - 32 <= 90);
            assert((x as u8) as u32 == x);
        }
        r
    } else {
        c
    }
}

/// The MIME type of an icon, from the extension of its source path.
pub fn icon_mime(src: &str) -> (r: &'static str)
    ensures
        r@ == icon_mime_spec(src@),
{
    let v = chars_of(src);
    let mut n: usize = v.len();
    proof { assert(v@.take(v@.len() as int) =~= v@); }
    while n > 0 && !(v[n - 1] == '.' || v[n - 1] == '/' || v[n - 1] == '?')
        invariant
            n <= v@.len(),
            v@ == src@,
            last_piece(src@) == last_piece(v@.take(n as int)) + v@.subrange(n as int, v@.len() as int),
        decreases n,
    {
        proof {
            assert(v@.take(n as int).drop_last() =~= v@.take(n - 1));
            assert(v@.subrange(n - 1, v@.len() as int) =~= seq![v@[n - 1]] + v@.subrange(n as int, v@.len() as int));
            assert(last_piece(v@.take(n as int)) == last_piece(v@.take(n - 1)).push(v@[n - 1]));
            assert(last_piece(v@.take(n - 1)).push(v@[n - 1]) + v@.subrange(n as int, v@.len() as int)
                =~= last_piece(v@.take(n - 1)) + v@.subrange(n - 1, v@.len() as int));
        }
        n -= 1;
    }
    proof {
        assert(last_piece(v@.take(n as int)) =~= seq![]);
    }
    let mut e: Vec<char> = Vec::new();
    let mut k: usize = n;
    while k < v.len()
        invariant
            n <= k <= v@.len(),
            e@ == ascii_lower_seq(v@.subrange(n as int, k as int)),
        decreases v@.len() - k,
    {
        e.push(lower_char(v[k]));
        k += 1;
        proof { assert(e@ =~= ascii_lower_seq(v@.subrange(n as int, k as int))); }
    }
    proof {
        assert(seq![] + v@.subrange(n as int, v@.len() as int) =~= v@.subrange(n as int, v@.len() as int));
    }
    let ext = string_of(e.as_slice());
    if str_eq(ext.as_str(), "png") { "image/png" }
    else if str_eq(ext.as_str(), "svg") { "image/svg+xml" }
    else if str_eq(ext.as_str(), "jpg") || str_eq(ext.as_str(), "jpeg") { "image/jpeg" }
    else if str_eq(ext.as_str(), "ico") { "image/x-icon" }
    else if str_eq(ext.as_str(), "gif") { "image/gif" }
    else if str_eq(ext.as_str(), "webp") { "image/webp" }
    else { "application/octet-stream" }
}

/// The standard base64 encoding (with padding) of some bytes.
pub uninterp spec fn base64_standard(b: Seq<u8>) -> Seq<char>;

/// A character of the standard base64 alphabet, padding included.
pub open spec fn base64_char(c: char) -> bool {
    ('A' <= c && c <= 'Z') || ('a' <= c && c <= 'z') || ('0' <= c && c <= '9') || c == '+' || c == '/' || c == '='
}

/// Encodes bytes in standard base64 with padding
/// (`base64::engine::general_purpose::STANDARD.encode`); the text is a
/// function of the bytes alone, is written in the standard alphabet (RFC
/// 4648, with `=` padding), and the same engine decodes it back to the bytes.
#[verifier::external_body]
pub(crate) fn base64_encode(bytes: &[u8]) -> (r: String)
    ensures
        r@ == base64_standard(bytes@),
        forall|i: int| 0 <= i < r@.len() ==> base64_char(#[trigger] r@[i]),
        crate::desktop_branding::base64_decoded(r@) == Some(bytes@),
{
    base64::engine::general_purpose::STANDARD.encode(bytes)
}

/// The `data:` URL that embeds an icon: its MIME type (from the source
/// path) and its base64 bytes.
pub fn to_data_url(src: &str, bytes: &[u8]) -> (r: String)
    ensures
        r@ == "data:"@ + icon_mime_spec(src@) + ";base64,"@ + base64_standard(bytes@),
        crate::desktop_branding::decode_data_url_spec(r@)
            == Some((crate::desktop_branding::data_url_ext(icon_mime_spec(src@)), bytes@)),
{
    let b64 = base64_encode(bytes);
    let a = concat("data:", icon_mime(src));
    let b = concat(a.as_str(), ";base64,");
    let r = concat(b.as_str(), b64.as_str());
    proof {
        lemma_mime_plain(src@);
        crate::desktop_branding::lemma_data_url_round_trip(icon_mime_spec(src@), b64@, bytes@);
        assert(r@ =~= "data:"@ + icon_mime_spec(src@) + ";base64,"@ + b64@);
    }
    r
}

/// No icon MIME type holds a `,` or a `;`.
proof fn lemma_mime_plain(src: Seq<char>)
    ensures
        forall|i: int| 0 <= i < icon_mime_spec(src).len() ==> icon_mime_spec(src)[i] != ',' && icon_mime_spec(src)[i] != ';',
{
    reveal_strlit("image/png");
    reveal_strlit("image/svg+xml");
    reveal_strlit("image/jpeg");
    reveal_strlit("image/x-icon");
    reveal_strlit("image/gif");
    reveal_strlit("image/webp");
    reveal_strlit("application/octet-stream");
}

/// `u32::from_str`: an optional `+`, then at least one decimal digit, the
/// value within `u32`.
pub open spec fn parse_u32_spec(s: Seq<char>) -> Option<u32> {
    let d = unsigned_part(s);
    if d.len() > 0 && all_digits(d) && crate::text::digits_value(d, 0, 0) <= u32::MAX {
        Some(crate::text::digits_value(d, 0, 0) as u32)
    } else {
        None
    }
}

/// `s` without a leading `+`.
pub open spec fn unsigned_part(s: Seq<char>) -> Seq<char> {
    if s.len() > 0 && s[0] == '+' { s.drop_first() } else { s }
}

/// Every character of `d` is a decimal digit.
pub open spec fn all_digits(d: Seq<char>) -> bool {
    forall|i: int| 0 <= i < d.len() ==> '0' <= #[trigger] d[i] && d[i] <= '9'
}

proof fn lemma_digits_grow(s: Seq<char>, i: int, acc: int)
    requires
        0 <= acc,
        0 <= i,
        forall|j: int| i <= j < s.len() ==> '0' <= #[trigger] s[j] && s[j] <= '9',
    ensures
        crate::text::digits_value(s, i, acc) >= acc,
        i < s.len() ==> crate::text::digits_value(s, i, acc) >= acc * 10,
    decreases s.len() - i,
{
    if i < s.len() {
        let d = s[i] as int - '0' as int;
        lemma_digits_grow(s, i + 1, acc * 10 + d);
    }
}

/// Parses a decimal `u32` as `str::parse::<u32>` does.
pub fn parse_u32(s: &str) -> (r: Option<u32>)
    ensures
        r == parse_u32_spec(s@),
{
    let v = chars_of(s);
    let start: usize = if v.len() > 0 && v[0] == '+' { 1 } else { 0 };
    let ghost d = unsigned_part(s@);
    proof { assert(d =~= v@.skip(start as int)); }
    if start >= v.len() {
        return None;
    }
    let mut acc: u64 = 0;
    let mut i: usize = start;
    while i < v.len()
        invariant
            v@ == s@,
            start <= i <= v@.len(),
            d == v@.skip(start as int),
            d == unsigned_part(s@),
            acc <= u32::MAX,
            forall|j: int| 0 <= j < i - start ==> '0' <= #[trigger] d[j] && d[j] <= '9',
            crate::text::digits_value(d, 0, 0) == crate::text::digits_value(d, i - start, acc as int),
        decreases v@.len() - i,
    {
        let c = v[i];
        if !('0' <= c && c <= '9') {
            proof {
                assert(d[i - start] == c);
                assert(!all_digits(d));
                assert(parse_u32_spec(s@) is None);
            }
            return None;
        }
        let dv = (c as u64) - ('0' as u64);
        let next = acc * 10 + dv;
        proof { assert(d[i - start] == c); }
        if next > 4294967295u64 {
            proof {
                assert(crate::text::digits_value(d, i - start, acc as int) == crate::text::digits_value(d, i - start + 1, next as int));
                if all_digits(d) {
                    lemma_digits_grow(d, i - start + 1, next as int);
                }
                assert(parse_u32_spec(s@) is None);
            }
            return None;
        }
        acc = next;
        i += 1;
    }
    Some(acc as u32)
}

/// The part of `s` before its first `a` or `b`, read from `i` on after `acc`.
pub open spec fn before_any_from(s: Seq<char>, a: char, b: char, i: int, acc: Seq<char>) -> Seq<char>
    decreases s.len() - i,
{
    if 0 <= i < s.len() && s[i] != a && s[i] != b { before_any_from(s, a, b, i + 1, acc.push(s[i])) } else { acc }
}

/// The part of `s` before its first `a` or `b` (all of it when it has none).
pub open spec fn before_any(s: Seq<char>, a: char, b: char) -> Seq<char> {
    before_any_from(s, a, b, 0, seq![])
}

/// The width an icon's `sizes` declares: the number before the first `x`
/// (either case), 0 when it does not parse.
pub open spec fn icon_width(sizes: Seq<char>) -> int {
    let w = before_any(sizes, 'x', 'X');
    match parse_u32_spec(w) {
        Some(n) => n as int,
        None => 0,
    }
}

fn icon_width_exec(sizes: &str) -> (r: u32)
    ensures
        r as int == icon_width(sizes@),
{
    let v = chars_of(sizes);
    let mut n: usize = 0;
    proof { assert(v@.take(0) =~= Seq::<char>::empty()); }
    while n < v.len() && v[n] != 'x' && v[n] != 'X'
        invariant
            n <= v@.len(),
            v@ == sizes@,
            before_any(sizes@, 'x', 'X') == before_any_from(sizes@, 'x', 'X', n as int, v@.take(n as int)),
        decreases v@.len() - n,
    {
        proof { assert(v@.take(n + 1) =~= v@.take(n as int).push(v@[n as int])); }
        n += 1;
    }
    let mut w: Vec<char> = Vec::new();
    let mut k: usize = 0;
    while k < n
        invariant
            k <= n <= v@.len(),
            w@ == v@.take(k as int),
        decreases n - k,
    {
        w.push(v[k]);
        k += 1;
        proof { assert(w@ =~= v@.take(k as int)); }
    }
    let ws = string_of(w.as_slice());
    match parse_u32(ws.as_str()) {
        Some(x) => x,
        None => 0,
    }
}

/// The icon the branding uses: the one with the largest declared width (of
/// equal widths, the last), none when the manifest lists no icon.
pub fn pick_icon(icons: &Vec<ManifestIcon>) -> (r: Option<usize>)
    ensures
        match r {
            None => icons@.len() == 0,
            Some(k) => k < icons@.len()
                && (forall|j: int| 0 <= j < icons@.len() ==> icon_width(#[trigger] icons@[j].sizes@) <= icon_width(icons@[k as int].sizes@))
                && (forall|j: int| k < j < icons@.len() ==> icon_width(#[trigger] icons@[j].sizes@) < icon_width(icons@[k as int].sizes@)),
        },
{
    if icons.len() == 0 {
        return None;
    }
    let mut best: usize = 0;
    let mut bw: u32 = icon_width_exec(icons[0].sizes.as_str());
    let mut i: usize = 1;
    while i < icons.len()
        invariant
            1 <= i <= icons@.len(),
            best < i,
            bw as int == icon_width(icons@[best as int].sizes@),
            forall|j: int| 0 <= j < i ==> icon_width(#[trigger] icons@[j].sizes@) <= bw,
            forall|j: int| best < j < i ==> icon_width(#[trigger] icons@[j].sizes@) < bw,
        decreases icons@.len() - i,
    {
        let w = icon_width_exec(icons[i].sizes.as_str());
        if w >= bw {
            best = i;
            bw = w;
        }
        i += 1;
    }
    Some(best)
}

/// The instance's branding: its name and its icon, as a `data:` URL and as bytes.
#[derive(Debug)]
pub struct BrandingData {
    pub name: Option<String>,
    pub icon_data_url: Option<String>,
    pub icon_bytes: Option<Vec<u8>>,
}

/// The branding from the manifest's name and the download of the chosen
/// icon (its source and the outcome; none when the manifest lists no icon).
/// A failed download leaves the name and no icon.
pub fn branding_from(name: Option<String>, icon: Option<(String, Result<Vec<u8>, AppError>)>) -> (r: BrandingData)
    ensures
        r.name == name,
        match icon {
            Some((src, Ok(bytes))) => r.icon_bytes == Some(bytes) && r.icon_data_url is Some
                && r.icon_data_url->Some_0@ == "data:"@ + icon_mime_spec(src@) + ";base64,"@ + base64_standard(bytes@),
            _ => r.icon_data_url is None && r.icon_bytes is None,
        },
{
    match icon {
        Some((src, Ok(bytes))) => {
            let url = to_data_url(src.as_str(), bytes.as_slice());
            BrandingData { name, icon_data_url: Some(url), icon_bytes: Some(bytes) }
        }
        _ => BrandingData { name, icon_data_url: None, icon_bytes: None },
    }
}

} // verus!
