use vstd::prelude::*;
use language_tags::LanguageTag;

verus! {

/// The language tags of an Accept-Language header value, most preferred first.
pub uninterp spec fn accept_language_list(header: Seq<char>) -> Seq<Seq<char>>;

/// The primary language subtag of a well-formed language tag; `None` for a tag that
/// does not parse.
pub uninterp spec fn primary_language_of(tag: Seq<char>) -> Option<Seq<char>>;

/// One step of the scan of `may_read_nan`: `,` starts a new tag, `=` starts a value,
/// and inside a value the letters n, a, n are followed in order (4: all three seen).
pub open spec fn scan_step(state: int, c: char) -> int {
    if c == ',' {
        0
    } else if c == '=' {
        1
    } else if state == 1 && (c == 'n' || c == 'N') {
        2
    } else if state == 2 && (c == 'a' || c == 'A') {
        3
    } else if state == 3 && (c == 'n' || c == 'N') {
        4
    } else {
        state
    }
}

/// Whether the scan, started in `state`, reaches state 4 somewhere in `s`.
pub open spec fn nan_from(s: Seq<char>, state: int) -> bool
    decreases s.len(),
{
    if s.len() == 0 {
        false
    } else {
        let next = scan_step(state, s[0]);
        next == 4 || nan_from(s.drop_first(), next)
    }
}

/// Whether some value in the header (after an `=`, before the next `,`) holds the letters
/// n, a, n in order, in either case. `accept_language` reads such a value with
/// `f32::from_str`, which gives NaN only for such text; a NaN quality makes its ordering
/// of tags inconsistent, and std's sort may then panic. A header for which this is false
/// yields no NaN quality.
pub open spec fn may_read_nan(s: Seq<char>) -> bool {
    nan_from(s, 0)
}

/// Whether `s` may hold a quality value that reads as NaN.
fn mentions_nan(s: &str) -> (r: bool)
    ensures
        r == may_read_nan(s@),
{
    let n = s.unicode_len();
    let mut state: u8 = 0;
    let mut i: usize = 0;
    assert(s@.subrange(0, n as int) =~= s@);
    while i < n
        invariant
            n == s@.len(),
            i <= n,
            state < 4,
            may_read_nan(s@) == nan_from(s@.subrange(i as int, n as int), state as int),
        decreases n - i,
    {
        let c = s.get_char(i);
        let next: u8 = if c == ',' {
            0
        } else if c == '=' {
            1
        } else if state == 1 && (c == 'n' || c == 'N') {
            2
        } else if state == 2 && (c == 'a' || c == 'A') {
            3
        } else if state == 3 && (c == 'n' || c == 'N') {
            4
        } else {
            state
        };
        let ghost rest = s@.subrange(i as int, n as int);
        assert(rest[0] == c);
        assert(next as int == scan_step(state as int, c));
        assert(rest.drop_first() =~= s@.subrange(i + 1, n as int));
        if next == 4 {
            return true;
        }
        state = next;
        i = i + 1;
    }
    false
}

/// Relies on `accept_language::parse`: the tags of the header, ordered by quality. The
/// header holds no quality that reads as NaN, so the ordering that the sort uses is total.
#[verifier::external_body]
fn accept_languages(header: &str) -> (r: Vec<String>)
    requires
        !may_read_nan(header@),
    ensures
        r@.map_values(|s: String| s@) == accept_language_list(header@),
{
    accept_language::parse(header)
}

/// Tags that `supported` holds.
pub open spec fn member_of(supported: Seq<Seq<char>>) -> spec_fn(Seq<char>) -> bool {
    |l: Seq<char>| supported.contains(l)
}

/// Relies on `accept_language::intersection`, whose source keeps, in order, the tags
/// of `accept_language::parse(raw)` that the supported list contains. `raw` holds no
/// quality that reads as NaN.
#[verifier::external_body]
fn common_languages(raw: &str, supported: &Vec<String>) -> (r: Vec<String>)
    requires
        !may_read_nan(raw@),
    ensures
        r@.map_values(|s: String| s@) == accept_language_list(raw@).filter(
            member_of(supported@.map_values(|s: String| s@)),
        ),
{
    let supported: Vec<&str> = supported.iter().map(|s| s.as_str()).collect();
    accept_language::intersection(raw, &supported)
}

/// Relies on `LanguageTag::parse` and `LanguageTag::primary_language`.
#[verifier::external_body]
fn primary_language(tag: &str) -> (r: Option<String>)
    ensures
        match r {
            Some(p) => primary_language_of(tag@) == Some(p@),
            None => primary_language_of(tag@) is None,
        },
{
    LanguageTag::parse(tag).ok().map(|t| t.primary_language().to_string())
}

/// The primary languages of the tags that parse, in order.
pub open spec fn primaries(tags: Seq<Seq<char>>) -> Seq<Seq<char>>
    decreases tags.len(),
{
    if tags.len() == 0 {
        Seq::empty()
    } else {
        let rest = primaries(tags.drop_last());
        match primary_language_of(tags.last()) {
            Some(p) => rest.push(p),
            None => rest,
        }
    }
}

/// `parts` joined with `sep` between neighbours.
pub open spec fn joined(parts: Seq<Seq<char>>, sep: Seq<char>) -> Seq<char>
    decreases parts.len(),
{
    if parts.len() == 0 {
        Seq::empty()
    } else if parts.len() == 1 {
        parts[0]
    } else {
        joined(parts.drop_last(), sep) + sep + parts.last()
    }
}

/// The primary language of the first tag that parses.
pub open spec fn first_primary(tags: Seq<Seq<char>>) -> Option<Seq<char>>
    decreases tags.len(),
{
    if tags.len() == 0 {
        None
    } else {
        match primary_language_of(tags[0]) {
            Some(p) => Some(p),
            None => first_primary(tags.drop_first()),
        }
    }
}

/// The languages that translations exist for.
pub open spec fn supported_languages() -> Seq<Seq<char>> {
    seq!["en"@, "pt"@]
}

/// The language used when the header names none that is supported.
pub open spec fn fallback_language() -> Seq<char> {
    "en"@
}

/// The language to answer in: the primary languages of the header's tags, in order of
/// preference, are matched against the supported ones, and the first match wins. A
/// header that may hold a quality reading as NaN names no language.
pub open spec fn detected_language(header: Seq<char>) -> Seq<char> {
    if may_read_nan(header) {
        fallback_language()
    } else {
        let raw = joined(primaries(accept_language_list(header)), ","@);
        if may_read_nan(raw) {
            fallback_language()
        } else {
            let common = accept_language_list(raw).filter(member_of(supported_languages()));
            match first_primary(common) {
                Some(p) => p,
                None => fallback_language(),
            }
        }
    }
}

/// Picks the language of the translations from an Accept-Language header value.
pub fn detect_language(header: &str) -> (r: String)
    ensures
        r@ == detected_language(header@),
{
    if mentions_nan(header) {
        return "en".to_string();
    }
    let user_languages = accept_languages(header);
    let ghost tags = accept_language_list(header@);
    let mut raw: Vec<String> = Vec::new();
    let mut i: usize = 0;
    while i < user_languages.len()
        invariant
            i <= user_languages@.len(),
            user_languages@.map_values(|s: String| s@) == tags,
            raw@.map_values(|s: String| s@) == primaries(tags.subrange(0, i as int)),
        decreases user_languages@.len() - i,
    {
        proof {
            assert(tags.subrange(0, i + 1).drop_last() =~= tags.subrange(0, i as int));
            assert(tags[i as int] == user_languages@[i as int]@);
        }
        if let Some(p) = primary_language(user_languages[i].as_str()) {
            let ghost before = raw@;
            raw.push(p);
            assert(raw@.map_values(|s: String| s@) =~= before.map_values(|s: String| s@).push(p@));
        }
        i = i + 1;
    }
    assert(tags.subrange(0, i as int) =~= tags);
    let mut line = String::new();
    let mut k: usize = 0;
    while k < raw.len()
        invariant
            k <= raw@.len(),
            line@ == joined(raw@.map_values(|s: String| s@).subrange(0, k as int), ","@),
        decreases raw@.len() - k,
    {
        let ghost parts = raw@.map_values(|s: String| s@);
        proof {
            assert(parts.subrange(0, k + 1).drop_last() =~= parts.subrange(0, k as int));
        }
        if k > 0 {
            line.append(",");
        }
        line.append(raw[k].as_str());
        proof {
            if k == 0 {
                assert(line@ =~= parts.subrange(0, 1)[0]);
            }
        }
        k = k + 1;
    }
    assert(raw@.map_values(|s: String| s@).subrange(0, k as int) =~= raw@.map_values(|s: String| s@));
    let mut supported: Vec<String> = Vec::new();
    supported.push("en".to_string());
    supported.push("pt".to_string());
    assert(supported@.map_values(|s: String| s@) =~= supported_languages());
    if mentions_nan(line.as_str()) {
        return "en".to_string();
    }
    let common = common_languages(line.as_str(), &supported);
    let ghost found = common@.map_values(|s: String| s@);
    assert(found == accept_language_list(line@).filter(member_of(supported_languages())));
    assert(line@ == joined(primaries(accept_language_list(header@)), ","@));
    assert(found.subrange(0, found.len() as int) =~= found);
    let mut j: usize = 0;
    while j < common.len()
        invariant
            j <= common@.len(),
            found == common@.map_values(|s: String| s@),
            found == accept_language_list(line@).filter(member_of(supported_languages())),
            line@ == joined(primaries(accept_language_list(header@)), ","@),
            !may_read_nan(header@),
            !may_read_nan(line@),
            first_primary(found) == first_primary(found.subrange(j as int, found.len() as int)),
        decreases common@.len() - j,
    {
        let ghost rest = found.subrange(j as int, found.len() as int);
        assert(rest[0] == common@[j as int]@);
        if let Some(p) = primary_language(common[j].as_str()) {
            assert(first_primary(rest) == Some(p@));
            return p;
        }
        assert(rest.drop_first() =~= found.subrange(j + 1, found.len() as int));
        j = j + 1;
    }
    assert(found.subrange(j as int, found.len() as int) =~= Seq::<Seq<char>>::empty());
    "en".to_string()
}

} // verus!
