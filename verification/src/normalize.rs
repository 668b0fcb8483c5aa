//! Normalization helpers: URL canonicalization, title cleanup, identity
//! hashing, date parsing and HTML stripping.

use vstd::prelude::*;

use crate::external::{
    chars_of, char_alphanumeric, char_lowercase, is_alphanumeric, lowercase_char, pair_views,
    parse_rfc3339, parse_url_query_pairs, parse_ymd_midnight, rfc3339_instant,
    serialize_url_with_query_pairs, serialize_url_without_query, string_of, url_query_pairs,
    url_with_query_pairs, url_without_query, ymd_midnight,
};
use crate::model::Timestamp;
use crate::text::{
    append_chars, collapse_whitespace, collapse_ws, is_ws, matches_at, replace_all, replace_chars,
    trim, trim_chars, trim_end_char, trim_end_matching,
};
use vstd::utf8::encode_utf8;

verus! {

/// 64-bit FNV-1a offset basis.
pub const FNV_OFFSET: u64 = 0xcbf29ce484222325;

/// 64-bit FNV-1a prime.
pub const FNV_PRIME: u64 = 0x100000001b3;

/// FNV-1a over a byte sequence, folded from the left.
pub open spec fn fnv1a_spec(bytes: Seq<u8>) -> u64
    decreases bytes.len(),
{
    if bytes.len() == 0 {
        FNV_OFFSET
    } else {
        vstd::wrapping::u64_specs::wrapping_mul(
            fnv1a_spec(bytes.drop_last()) ^ (bytes.last() as u64),
            FNV_PRIME,
        )
    }
}

/// FNV-1a 64-bit: a dependency-free hash that is stable across runs.
pub fn fnv1a_64(bytes: &[u8]) -> (hash: u64)
    ensures
        hash == fnv1a_spec(bytes@),
{
    let mut hash: u64 = FNV_OFFSET;
    let mut i: usize = 0;
    while i < bytes.len()
        invariant
            i <= bytes@.len(),
            hash == fnv1a_spec(bytes@.take(i as int)),
        decreases bytes@.len() - i,
    {
        assert(bytes@.take(i + 1).drop_last() =~= bytes@.take(i as int));
        hash = (hash ^ (bytes[i] as u64)).wrapping_mul(FNV_PRIME);
        i += 1;
    }
    assert(bytes@.take(i as int) =~= bytes@);
    hash
}


/// Lowercased alphanumeric characters of `s`, in order (each kept
/// character contributes its full lowercase mapping). Whitespace is never
/// alphanumeric, so no whitespace character is kept.
pub open spec fn alnum_lower(s: Seq<char>) -> Seq<char>
    decreases s.len(),
{
    if s.len() == 0 {
        seq![]
    } else {
        alnum_lower(s.drop_last()) + if !is_ws(s.last()) && char_alphanumeric(s.last()) {
            char_lowercase(s.last())
        } else {
            seq![]
        }
    }
}

/// Keeps the alphanumeric characters of `s`, each replaced by its lowercase mapping.
pub fn alnum_lowercase(s: &Vec<char>) -> (r: Vec<char>)
    ensures
        r@ == alnum_lower(s@),
{
    let mut r: Vec<char> = Vec::new();
    let mut i: usize = 0;
    while i < s.len()
        invariant
            i <= s@.len(),
            r@ == alnum_lower(s@.take(i as int)),
        decreases s@.len() - i,
    {
        assert(s@.take(i + 1).drop_last() =~= s@.take(i as int));
        if is_alphanumeric(s[i]) {
            let low = lowercase_char(s[i]);
            append_chars(&mut r, &low);
        }
        i += 1;
        assert(r@ =~= alnum_lower(s@.take(i as int)));
    }
    assert(s@.take(i as int) =~= s@);
    r
}

/// Collapses newlines and repeated whitespace into single spaces and trims
/// both ends.
pub fn normalize_title(title: &str) -> (r: String)
    ensures
        r@ == collapse_ws(title@),
{
    let cs = chars_of(title);
    let out = collapse_whitespace(&cs);
    string_of(out.as_slice())
}

/// The title identity hash: FNV-1a over the UTF-8 bytes of the title's
/// lowercased alphanumeric characters.
pub open spec fn title_hash_spec(title: Seq<char>) -> u64 {
    fnv1a_spec(encode_utf8(alnum_lower(title)))
}

/// Lowercases the title, keeps only alphanumeric characters and hashes the
/// result deterministically (FNV-1a 64-bit). The fallback duplicate key when
/// no DOI, arXiv ID or canonical URL is known.
pub fn title_hash(title: &str) -> (h: u64)
    ensures
        h == title_hash_spec(title@),
{
    let cs = chars_of(title);
    let cleaned = alnum_lowercase(&cs);
    let s = string_of(cleaned.as_slice());
    fnv1a_64(s.as_str().as_bytes())
}

/// What `parse_datetime` reads from a string: RFC 3339 first, else a bare
/// `YYYY-MM-DD` date at midnight UTC, after trimming whitespace.
pub open spec fn datetime_of(s: Seq<char>) -> Option<Timestamp> {
    match rfc3339_instant(trim(s)) {
        Some(t) => Some(t),
        None => ymd_midnight(trim(s)),
    }
}

/// Parses a date string as a UTC instant: RFC 3339 (`2024-01-01T00:00:00Z`)
/// first, and failing that a bare date (`2024-01-01`) at midnight UTC.
pub fn parse_datetime(s: &str) -> (r: Option<Timestamp>)
    ensures
        r == datetime_of(s@),
{
    let cs = chars_of(s);
    let t = string_of(trim_chars(&cs).as_slice());
    match parse_rfc3339(t.as_str()) {
        Some(ts) => Some(ts),
        None => parse_ymd_midnight(t.as_str()),
    }
}

/// Markup removed: characters from `<` through the next `>` are dropped.
pub open spec fn strip_tags(s: Seq<char>, in_tag: bool) -> Seq<char>
    decreases s.len(),
{
    if s.len() == 0 {
        seq![]
    } else if s[0] == '<' {
        strip_tags(s.drop_first(), true)
    } else if s[0] == '>' {
        strip_tags(s.drop_first(), false)
    } else if in_tag {
        strip_tags(s.drop_first(), true)
    } else {
        seq![s[0]] + strip_tags(s.drop_first(), false)
    }
}

/// The six common entities decoded, in this order: `&amp;`, `&lt;`, `&gt;`,
/// `&quot;`, `&#39;`, `&nbsp;`.
pub open spec fn decode_entities(s: Seq<char>) -> Seq<char> {
    replace_all(
        replace_all(
            replace_all(
                replace_all(
                    replace_all(replace_all(s, "&amp;"@, "&"@), "&lt;"@, "<"@),
                    "&gt;"@,
                    ">"@,
                ),
                "&quot;"@,
                "\""@,
            ),
            "&#39;"@,
            "'"@,
        ),
        "&nbsp;"@,
        " "@,
    )
}

/// What `strip_html` yields: tags removed, entities decoded, whitespace collapsed.
pub open spec fn strip_html_spec(s: Seq<char>) -> Seq<char> {
    collapse_ws(decode_entities(strip_tags(s, false)))
}

/// Removes markup: every character from `<` through the next `>`.
pub fn strip_tag_chars(s: &Vec<char>) -> (r: Vec<char>)
    ensures
        r@ == strip_tags(s@, false),
{
    let mut r: Vec<char> = Vec::new();
    let mut in_tag = false;
    let mut i: usize = 0;
    assert(s@.skip(0) =~= s@);
    while i < s.len()
        invariant
            i <= s@.len(),
            strip_tags(s@, false) == r@ + strip_tags(s@.skip(i as int), in_tag),
        decreases s@.len() - i,
    {
        let c = s[i];
        assert(s@.skip(i as int).drop_first() =~= s@.skip(i + 1));
        let ghost before = r@;
        if c == '<' {
            in_tag = true;
        } else if c == '>' {
            in_tag = false;
        } else if !in_tag {
            r.push(c);
            assert(before + (seq![c] + strip_tags(s@.skip(i + 1), false)) =~= r@ + strip_tags(
                s@.skip(i + 1),
                false,
            ));
        }
        i += 1;
    }
    assert(s@.skip(i as int) =~= Seq::<char>::empty());
    assert(r@ + Seq::<char>::empty() =~= r@);
    r
}

/// Removes HTML tags, decodes the common entities and collapses whitespace
/// (cleanup of feed summaries and bodies).
pub fn strip_html(s: &str) -> (r: String)
    ensures
        r@ == strip_html_spec(s@),
{
    let cs = chars_of(s);
    let mut out = strip_tag_chars(&cs);
    out = replace_chars(&out, &chars_of("&amp;"), &chars_of("&"));
    out = replace_chars(&out, &chars_of("&lt;"), &chars_of("<"));
    out = replace_chars(&out, &chars_of("&gt;"), &chars_of(">"));
    out = replace_chars(&out, &chars_of("&quot;"), &chars_of("\""));
    out = replace_chars(&out, &chars_of("&#39;"), &chars_of("'"));
    out = replace_chars(&out, &chars_of("&nbsp;"), &chars_of(" "));
    let collapsed = collapse_whitespace(&out);
    string_of(collapsed.as_slice())
}

/// Whether a query key is one of the tracking parameters removed from URLs.
pub open spec fn is_tracking_key(k: Seq<char>) -> bool {
    ||| k == "utm_source"@
    ||| k == "utm_medium"@
    ||| k == "utm_campaign"@
    ||| k == "utm_term"@
    ||| k == "utm_content"@
    ||| k == "fbclid"@
    ||| k == "gclid"@
}

/// Whether `k` is a tracking parameter name.
pub fn tracking_key(k: &String) -> (r: bool)
    ensures
        r == is_tracking_key(k@),
{
    let kc = chars_of(k.as_str());
    let names = [
        "utm_source",
        "utm_medium",
        "utm_campaign",
        "utm_term",
        "utm_content",
        "fbclid",
        "gclid",
    ];
    let mut found = false;
    let mut i: usize = 0;
    while i < 7
        invariant
            i <= 7,
            names@ == seq![
                "utm_source",
                "utm_medium",
                "utm_campaign",
                "utm_term",
                "utm_content",
                "fbclid",
                "gclid",
            ],
            found == exists|j: int| 0 <= j < i && kc@ == (#[trigger] names@[j])@,
        decreases 7 - i,
    {
        let name = chars_of(names[i]);
        let eq = name.len() == kc.len() && matches_at(&kc, &name, 0);
        assert(eq == (kc@ == names@[i as int]@)) by {
            if name@.len() == kc@.len() {
                assert(kc@.subrange(0, name@.len() as int) =~= kc@);
            }
        }
        if eq {
            found = true;
        }
        i += 1;
    }
    assert(found == is_tracking_key(kc@)) by {
        if is_tracking_key(kc@) {
            if kc@ == "utm_source"@ { assert(kc@ == names@[0]@); }
            if kc@ == "utm_medium"@ { assert(kc@ == names@[1]@); }
            if kc@ == "utm_campaign"@ { assert(kc@ == names@[2]@); }
            if kc@ == "utm_term"@ { assert(kc@ == names@[3]@); }
            if kc@ == "utm_content"@ { assert(kc@ == names@[4]@); }
            if kc@ == "fbclid"@ { assert(kc@ == names@[5]@); }
            if kc@ == "gclid"@ { assert(kc@ == names@[6]@); }
        }
    }
    found
}

/// The query pairs whose key is not a tracking parameter, in order.
pub open spec fn without_tracking(pairs: Seq<(Seq<char>, Seq<char>)>) -> Seq<(Seq<char>, Seq<char>)> {
    pairs.filter(|p: (Seq<char>, Seq<char>)| !is_tracking_key(p.0))
}

/// Drops the query pairs whose key is a tracking parameter
/// (`utm_source`, `utm_medium`, `utm_campaign`, `utm_term`, `utm_content`,
/// `fbclid`, `gclid`), keeping the order of the others.
pub fn strip_tracking_pairs(pairs: &Vec<(String, String)>) -> (r: Vec<(String, String)>)
    ensures
        pair_views(r@) == without_tracking(pair_views(pairs@)),
{
    let mut r: Vec<(String, String)> = Vec::new();
    let mut i: usize = 0;
    let ghost all = pair_views(pairs@);
    while i < pairs.len()
        invariant
            i <= pairs@.len(),
            all == pair_views(pairs@),
            pair_views(r@) == without_tracking(all.take(i as int)),
        decreases pairs@.len() - i,
    {
        assert(all.take(i + 1).drop_last() =~= all.take(i as int));
        reveal_with_fuel(Seq::filter, 1);
        if !tracking_key(&pairs[i].0) {
            let ghost before = r@;
            let p = (pairs[i].0.clone(), pairs[i].1.clone());
            r.push(p);
            assert(pair_views(r@) =~= pair_views(before).push(all[i as int]));
        }
        i += 1;
    }
    assert(all.take(i as int) =~= all);
    r
}

/// What `canonicalize_url` yields for a raw URL.
pub open spec fn canonical_url_of(raw: Seq<char>) -> Option<Seq<char>> {
    match url_query_pairs(raw) {
        None => None,
        Some(pairs) => {
            let kept = without_tracking(pairs);
            let serialized = if kept.len() == 0 {
                url_without_query(raw)
            } else {
                url_with_query_pairs(raw, kept)
            };
            Some(trim_end_char(serialized, '/'))
        },
    }
}

/// The canonical URL: tracking parameters removed from the query, an empty
/// query dropped together with its `?`, and trailing slashes trimmed.
/// `None` where the URL does not parse.
pub fn canonicalize_url(raw: &str) -> (r: Option<String>)
    ensures
        opt_chars(r) == canonical_url_of(raw@),
{
    let pairs = match parse_url_query_pairs(raw) {
        Some(p) => p,
        None => return None,
    };
    let kept = strip_tracking_pairs(&pairs);
    let serialized = if kept.len() == 0 {
        serialize_url_without_query(raw)
    } else {
        serialize_url_with_query_pairs(raw, &kept)
    };
    let cs = chars_of(serialized.as_str());
    let trimmed = trim_end_matching(&cs, '/');
    Some(string_of(trimmed.as_slice()))
}

/// The characters of an optional string.
pub open spec fn opt_chars(o: Option<String>) -> Option<Seq<char>> {
    match o {
        Some(s) => Some(s@),
        None => None,
    }
}

} // verus!
