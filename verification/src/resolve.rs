//! The URL-resolution pipeline: turn one provider-supplied locator into a
//! directly fetchable URI by a fixed, ordered sequence of rewrites —
//! de-obfuscation (the reversible transform itself is an external
//! collaborator; this module only detects the marker and accepts the
//! decoded text), protocol completion, clock-path normalization, host
//! completion, and an optional secondary clock lookup whose failure
//! degrades to the URI computed so far.
use vstd::prelude::*;
use crate::catalog::SourceUrl;
use crate::text::concat_str;
use crate::text::contains_seq;
use crate::text::contains_sub;
use crate::text::replace_all;
use crate::text::replace_all_seq;
use crate::text::starts_with_lit;
use crate::text::starts_with_seq;

verus! {

/// Step two: a protocol-relative URL gets the https scheme.
pub open spec fn complete_protocol(s: Seq<char>) -> Seq<char> {
    if starts_with_seq(s, "//"@) {
        "https:"@ + s
    } else {
        s
    }
}

/// Step three: a `/clock` path that is not already `/clock.json` is
/// rewritten to `/clock.json`.
pub open spec fn fix_clock(s: Seq<char>) -> Seq<char> {
    if contains_seq(s, "/clock"@) && !contains_seq(s, "/clock.json"@) {
        replace_all_seq(s, "/clock"@, "/clock.json"@)
    } else {
        s
    }
}

/// Step four: a bare path with the provider's API prefix gets the
/// provider's canonical host.
pub open spec fn complete_host(s: Seq<char>) -> Seq<char> {
    if starts_with_seq(s, "/apivtwo/"@) {
        "https://allanime.day"@ + s
    } else {
        s
    }
}

/// Steps two to four applied in order to a de-obfuscated candidate.
pub open spec fn prepared_uri(candidate: Seq<char>) -> Seq<char> {
    complete_host(fix_clock(complete_protocol(candidate)))
}

/// Step five applies when the prepared URI is a clock endpoint.
pub open spec fn wants_clock(s: Seq<char>) -> bool {
    contains_seq(s, "clock.json"@)
}

/// What step one works on: the decoded text for a marked locator whose
/// decoding is at hand, the raw locator otherwise.
pub open spec fn candidate_of(raw: Seq<char>, decoded: Option<Seq<char>>) -> Seq<char> {
    if starts_with_seq(raw, "--"@) && decoded is Some {
        decoded->0
    } else {
        raw
    }
}

/// What the secondary clock lookup yields: the first link of the clock
/// document when the body parses and has one, the prepared URI otherwise.
pub open spec fn secondary_result(uri: Seq<char>, body: Option<Seq<char>>) -> Seq<char> {
    match body {
        Option::Some(b) => match clock_link_spec(b) {
            Option::Some(l) => l,
            Option::None => uri,
        },
        Option::None => uri,
    }
}

/// The string, if any, at `links[0].link` of the JSON document `body`; a
/// function of the body text alone.
pub uninterp spec fn clock_link_spec(body: Seq<char>) -> Option<Seq<char>>;

/// Relies on serde_json's `from_str` and the `Value` accessors `get`,
/// `as_array` and `as_str`: parses `body` as JSON and projects the string
/// at `links[0].link`, if the document has one.
#[verifier::external_body]
fn clock_link_of(body: &str) -> (r: Option<String>)
    ensures
        r.deep_view() == clock_link_spec(body@),
{
    let parsed: Result<serde_json::Value, serde_json::Error> = serde_json::from_str(body);
    let v = match parsed {
        Ok(v) => v,
        Err(_) => return None,
    };
    let link = v.get("links")?.as_array()?.first()?.get("link")?.as_str()?;
    Some(link.to_string())
}

/// The obfuscation marker's payload: the locator after the `--` marker,
/// ready for the external transform; nothing for an unmarked locator.
pub fn obfuscated_token(raw: &str) -> (t: Option<String>)
    ensures
        starts_with_seq(raw@, "--"@) ==> t is Some && t->0@ == raw@.skip(2),
        !starts_with_seq(raw@, "--"@) ==> t is None,
{
    proof {
        reveal_strlit("--");
    }
    if starts_with_lit(raw, "--") {
        let l = raw.unicode_len();
        let tail = raw.substring_char(2, l);
        proof {
            assert(tail@ =~= raw@.skip(2));
        }
        Some(String::from_str(tail))
    } else {
        None
    }
}

/// Apply steps two to four to a de-obfuscated candidate.
pub fn resolve_candidate(candidate: &str) -> (r: String)
    ensures
        r@ == prepared_uri(candidate@),
{
    let s1: String = if starts_with_lit(candidate, "//") {
        concat_str("https:", candidate)
    } else {
        String::from_str(candidate)
    };
    let has_clock = contains_sub(s1.as_str(), "/clock");
    let has_clock_json = contains_sub(s1.as_str(), "/clock.json");
    let s2: String = if has_clock && !has_clock_json {
        proof {
            reveal_strlit("/clock");
        }
        replace_all(s1.as_str(), "/clock", "/clock.json")
    } else {
        s1
    };
    if starts_with_lit(s2.as_str(), "/apivtwo/") {
        concat_str("https://allanime.day", s2.as_str())
    } else {
        s2
    }
}

/// Whether the prepared URI calls for the secondary clock lookup.
pub fn needs_clock_lookup(uri: &str) -> (r: bool)
    ensures
        r == wants_clock(uri@),
{
    contains_sub(uri, "clock.json")
}

/// Step five: take the secondary lookup's body, if the caller made one,
/// and fall back to the prepared URI whenever the body is missing or has
/// no link — resolution degrades, it never fails.
pub fn resolve_with_clock(uri: String, body: Option<&str>) -> (r: String)
    ensures
        r@ == secondary_result(uri@, body.deep_view()),
        body is None ==> r@ == uri@,
{
    match body {
        Some(b) => match clock_link_of(b) {
            Some(l) => l,
            None => uri,
        },
        None => uri,
    }
}

/// A locator after steps one to four, awaiting the optional secondary
/// lookup.
#[derive(Debug, Clone)]
pub struct PreparedLink {
    pub provider_name: String,
    pub raw_locator: String,
    pub uri: String,
    pub needs_clock: bool,
}

/// One provider source with its fully resolved URI.
#[derive(Debug, Clone)]
pub struct ProviderLink {
    pub provider_name: String,
    pub raw_locator: String,
    pub resolved_uri: String,
}

/// Steps one to four for one source: pick the candidate, rewrite it, and
/// note whether the secondary lookup is owed.
pub fn prepare_source(source: &SourceUrl, decoded: Option<&str>) -> (r: PreparedLink)
    ensures
        r.provider_name@ == source.source_name@,
        r.raw_locator@ == source.source_url@,
        r.uri@ == prepared_uri(candidate_of(source.source_url@, decoded.deep_view())),
        r.needs_clock == wants_clock(r.uri@),
{
    let marked = starts_with_lit(source.source_url.as_str(), "--");
    let candidate: String = if marked {
        match decoded {
            Some(d) => String::from_str(d),
            None => source.source_url.clone(),
        }
    } else {
        source.source_url.clone()
    };
    let uri = resolve_candidate(candidate.as_str());
    let needs_clock = needs_clock_lookup(uri.as_str());
    PreparedLink {
        provider_name: source.source_name.clone(),
        raw_locator: source.source_url.clone(),
        uri,
        needs_clock,
    }
}

/// Step five for one prepared link.
pub fn finish_link(link: PreparedLink, body: Option<&str>) -> (r: ProviderLink)
    ensures
        r.provider_name@ == link.provider_name@,
        r.raw_locator@ == link.raw_locator@,
        r.resolved_uri@ == secondary_result(link.uri@, body.deep_view()),
{
    let resolved_uri = resolve_with_clock(link.uri, body);
    ProviderLink { provider_name: link.provider_name, raw_locator: link.raw_locator, resolved_uri }
}

/// Steps one to four for every source of an episode, in order.
pub fn prepare_links(sources: &Vec<SourceUrl>, decoded: &Vec<Option<String>>) -> (r: Vec<
    PreparedLink,
>)
    requires
        decoded@.len() == sources@.len(),
    ensures
        r@.len() == sources@.len(),
        forall|i: int|
            0 <= i < r@.len() ==> {
                &&& (#[trigger] r@[i]).provider_name@ == sources@[i].source_name@
                &&& r@[i].raw_locator@ == sources@[i].source_url@
                &&& r@[i].uri@ == prepared_uri(
                    candidate_of(sources@[i].source_url@, decoded@[i].deep_view()),
                )
                &&& r@[i].needs_clock == wants_clock(r@[i].uri@)
            },
{
    let mut out: Vec<PreparedLink> = Vec::new();
    let n = sources.len();
    let mut i: usize = 0;
    while i < n
        invariant
            0 <= i <= n,
            n == sources@.len(),
            decoded@.len() == sources@.len(),
            out@.len() == i,
            forall|m: int|
                0 <= m < i ==> {
                    &&& (#[trigger] out@[m]).provider_name@ == sources@[m].source_name@
                    &&& out@[m].raw_locator@ == sources@[m].source_url@
                    &&& out@[m].uri@ == prepared_uri(
                        candidate_of(sources@[m].source_url@, decoded@[m].deep_view()),
                    )
                    &&& out@[m].needs_clock == wants_clock(out@[m].uri@)
                },
        decreases n - i,
    {
        let d: Option<&str> = match &decoded[i] {
            Some(s) => Some(s.as_str()),
            None => None,
        };
        let p = prepare_source(&sources[i], d);
        out.push(p);
        i += 1;
    }
    out
}

/// Step five for every prepared link, in order; `bodies[i]` is what the
/// secondary lookup fetched for link `i`, if it was owed and succeeded.
pub fn finish_links(prepared: &Vec<PreparedLink>, bodies: &Vec<Option<String>>) -> (r: Vec<
    ProviderLink,
>)
    requires
        bodies@.len() == prepared@.len(),
    ensures
        r@.len() == prepared@.len(),
        forall|i: int|
            0 <= i < r@.len() ==> {
                &&& (#[trigger] r@[i]).provider_name@ == prepared@[i].provider_name@
                &&& r@[i].raw_locator@ == prepared@[i].raw_locator@
                &&& r@[i].resolved_uri@ == secondary_result(
                    prepared@[i].uri@,
                    bodies@[i].deep_view(),
                )
            },
{
    let mut out: Vec<ProviderLink> = Vec::new();
    let n = prepared.len();
    let mut i: usize = 0;
    while i < n
        invariant
            0 <= i <= n,
            n == prepared@.len(),
            bodies@.len() == prepared@.len(),
            out@.len() == i,
            forall|m: int|
                0 <= m < i ==> {
                    &&& (#[trigger] out@[m]).provider_name@ == prepared@[m].provider_name@
                    &&& out@[m].raw_locator@ == prepared@[m].raw_locator@
                    &&& out@[m].resolved_uri@ == secondary_result(
                        prepared@[m].uri@,
                        bodies@[m].deep_view(),
                    )
                },
        decreases n - i,
    {
        let b: Option<&str> = match &bodies[i] {
            Some(s) => Some(s.as_str()),
            None => None,
        };
        let link = PreparedLink {
            provider_name: prepared[i].provider_name.clone(),
            raw_locator: prepared[i].raw_locator.clone(),
            uri: prepared[i].uri.clone(),
            needs_clock: prepared[i].needs_clock,
        };
        let f = finish_link(link, b);
        out.push(f);
        i += 1;
    }
    out
}

/// Re-resolving an already fully resolved https URI with no clock path is
/// a no-op: the marker is absent, no rewrite applies, and no secondary
/// lookup is owed.
pub proof fn lemma_resolution_idempotent(s: Seq<char>)
    requires
        starts_with_seq(s, "https://"@),
        !contains_seq(s, "/clock"@),
        !contains_seq(s, "clock.json"@),
    ensures
        !starts_with_seq(s, "--"@),
        prepared_uri(s) == s,
        !wants_clock(prepared_uri(s)),
{
    reveal_strlit("https://");
    reveal_strlit("--");
    reveal_strlit("//");
    reveal_strlit("/apivtwo/");
    assert(s.subrange(0, 8)[0] == s[0]);
    assert(s[0] == 'h');
    if starts_with_seq(s, "--"@) {
        assert(s.subrange(0, 2)[0] == s[0]);
        assert(s[0] == '-');
    }
    if starts_with_seq(s, "//"@) {
        assert(s.subrange(0, 2)[0] == s[0]);
        assert(s[0] == '/');
    }
    assert(complete_protocol(s) == s);
    assert(fix_clock(s) == s);
    if starts_with_seq(s, "/apivtwo/"@) {
        assert(s.subrange(0, 9)[0] == s[0]);
        assert(s[0] == '/');
    }
    assert(complete_host(s) == s);
}

} // verus!
