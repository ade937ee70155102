use anicli::resolve::finish_link;
use anicli::resolve::finish_links;
use anicli::resolve::needs_clock_lookup;
use anicli::resolve::obfuscated_token;
use anicli::resolve::prepare_links;
use anicli::resolve::prepare_source;
use anicli::resolve::resolve_candidate;
use anicli::resolve::resolve_with_clock;
use anicli::SourceUrl;

#[test]
fn protocol_relative_url_gets_https_scheme() {
    let r = resolve_candidate("//cdn.example/x");
    assert_eq!(r, "https://cdn.example/x");
}

#[test]
fn bare_api_path_gets_provider_host() {
    let r = resolve_candidate("/apivtwo/x");
    assert_eq!(r, "https://allanime.day/apivtwo/x");
}

#[test]
fn clock_path_is_normalized() {
    let r = resolve_candidate("https://host.example/api/clock?id=1");
    assert_eq!(r, "https://host.example/api/clock.json?id=1");
}

#[test]
fn every_clock_segment_is_normalized() {
    let r = resolve_candidate("https://h.example/clock/a/clock?x");
    assert_eq!(r, "https://h.example/clock.json/a/clock.json?x");
}

#[test]
fn clock_json_path_is_left_alone() {
    let r = resolve_candidate("https://host.example/api/clock.json?id=1");
    assert_eq!(r, "https://host.example/api/clock.json?id=1");
}

#[test]
fn resolved_https_url_is_untouched() {
    let r = resolve_candidate("https://cdn.example/video.mp4");
    assert_eq!(r, "https://cdn.example/video.mp4");
    assert!(!needs_clock_lookup(&r));
}

#[test]
fn marker_token_is_stripped() {
    assert_eq!(obfuscated_token("--17171d"), Some(String::from("17171d")));
    assert_eq!(obfuscated_token("https://cdn.example/x"), None);
    assert_eq!(obfuscated_token("-"), None);
}

#[test]
fn secondary_lookup_takes_first_link() {
    let body = "{\"links\":[{\"link\":\"https://final.example/v.mp4\"},{\"link\":\"https://other.example\"}]}";
    let r = resolve_with_clock(String::from("https://host.example/clock.json"), Some(body));
    assert_eq!(r, "https://final.example/v.mp4");
}

#[test]
fn failed_secondary_lookup_keeps_prepared_uri() {
    let uri = String::from("https://host.example/clock.json");
    let r = resolve_with_clock(uri.clone(), None);
    assert_eq!(r, "https://host.example/clock.json");
    let r = resolve_with_clock(uri.clone(), Some("not json at all"));
    assert_eq!(r, "https://host.example/clock.json");
    let r = resolve_with_clock(uri, Some("{\"links\":[]}"));
    assert_eq!(r, "https://host.example/clock.json");
}

#[test]
fn prepare_source_uses_decoded_text_for_marked_locator() {
    let s = SourceUrl {
        source_url: String::from("--6869"),
        source_name: String::from("Alpha"),
    };
    let p = prepare_source(&s, Some("//cdn.example/y"));
    assert_eq!(p.provider_name, "Alpha");
    assert_eq!(p.raw_locator, "--6869");
    assert_eq!(p.uri, "https://cdn.example/y");
    assert!(!p.needs_clock);
}

#[test]
fn prepare_source_marks_clock_endpoints() {
    let s = SourceUrl {
        source_url: String::from("/apivtwo/clock?id=7"),
        source_name: String::from("Beta"),
    };
    let p = prepare_source(&s, None);
    assert_eq!(p.uri, "https://allanime.day/apivtwo/clock.json?id=7");
    assert!(p.needs_clock);
}

#[test]
fn finish_link_degrades_to_prepared_uri() {
    let s = SourceUrl {
        source_url: String::from("/apivtwo/clock?id=7"),
        source_name: String::from("Beta"),
    };
    let p = prepare_source(&s, None);
    let l = finish_link(p, None);
    assert_eq!(l.provider_name, "Beta");
    assert_eq!(l.raw_locator, "/apivtwo/clock?id=7");
    assert_eq!(l.resolved_uri, "https://allanime.day/apivtwo/clock.json?id=7");
}

#[test]
fn batch_resolution_orders_and_resolves_every_source() {
    let sources = vec![
        SourceUrl {
            source_url: String::from("//cdn.example/a"),
            source_name: String::from("One"),
        },
        SourceUrl {
            source_url: String::from("/apivtwo/clock?id=1"),
            source_name: String::from("Two"),
        },
    ];
    let decoded = vec![None, None];
    let prepared = prepare_links(&sources, &decoded);
    assert_eq!(prepared.len(), 2);
    assert!(!prepared[0].needs_clock);
    assert!(prepared[1].needs_clock);
    let bodies = vec![
        None,
        Some(String::from("{\"links\":[{\"link\":\"https://final.example/two\"}]}")),
    ];
    let links = finish_links(&prepared, &bodies);
    assert_eq!(links.len(), 2);
    assert_eq!(links[0].provider_name, "One");
    assert_eq!(links[0].resolved_uri, "https://cdn.example/a");
    assert_eq!(links[1].provider_name, "Two");
    assert_eq!(links[1].resolved_uri, "https://final.example/two");
}
