use anicli::Api;
use anicli::ApiError;
use anicli::EpisodeListResponse;
use anicli::Mode;
use anicli::ModeEpisodes;
use anicli::ShowDetail;
use anicli::ShowDetailData;

fn detail_response(entries: Vec<ModeEpisodes>) -> EpisodeListResponse {
    EpisodeListResponse {
        data: ShowDetailData {
            show: ShowDetail {
                id: String::from("show-1"),
                name: String::from("Some Show"),
                available_episodes_detail: entries,
            },
        },
    }
}

#[test]
fn mode_strings() {
    assert_eq!(Mode::Sub.as_str(), "sub");
    assert_eq!(Mode::Dub.as_str(), "dub");
    assert_eq!(Mode::Raw.as_str(), "raw");
}

#[test]
fn new_api_holds_catalog_configuration() {
    let api = Api::new(Mode::Dub, false);
    assert_eq!(api.base_api, "https://api.allanime.day/api");
    assert_eq!(api.referer, "https://allmanga.to");
    assert_eq!(
        api.user_agent,
        "Mozilla/5.0 (Windows NT 10.0; Win64; x64) Gecko/20100101 Firefox/121.0"
    );
    assert_eq!(api.mode, "dub");
    assert!(!api.debug);
}

#[test]
fn search_variables_embed_term_and_mode() {
    let api = Api::new(Mode::Sub, false);
    let v = api.search_variables("Naruto");
    assert_eq!(
        v,
        "{\"search\":{\"allowAdult\":false,\"allowUnknown\":false,\"query\":\"Naruto\"},\"limit\":40,\"page\":1,\"translationType\":\"sub\",\"countryOrigin\":\"ALL\"}"
    );
}

#[test]
fn episode_variables_embed_show_mode_and_episode() {
    let api = Api::new(Mode::Raw, false);
    let v = api.episode_variables("abc", "12");
    assert_eq!(
        v,
        "{\"showId\":\"abc\",\"translationType\":\"raw\",\"episodeString\":\"12\"}"
    );
}

#[test]
fn show_variables_embed_show_id() {
    assert_eq!(Api::show_variables("xyz"), "{\"showId\":\"xyz\"}");
}

#[test]
fn episode_list_sorts_numerically() {
    let api = Api::new(Mode::Sub, false);
    let resp = detail_response(vec![ModeEpisodes {
        mode: String::from("sub"),
        episodes: vec![String::from("2"), String::from("10"), String::from("1")],
    }]);
    let (name, eps, id) = api.episode_list_from_response(&resp).unwrap();
    assert_eq!(name, "Some Show");
    assert_eq!(id, "show-1");
    assert_eq!(eps, vec!["1", "2", "10"]);
}

#[test]
fn episode_list_orders_fractional_and_odd_labels() {
    let api = Api::new(Mode::Sub, false);
    let resp = detail_response(vec![ModeEpisodes {
        mode: String::from("sub"),
        episodes: vec![
            String::from("10"),
            String::from("1.5"),
            String::from("special"),
            String::from("2"),
            String::from("-1"),
            String::from("1.05"),
        ],
    }]);
    let (_, eps, _) = api.episode_list_from_response(&resp).unwrap();
    // "special" is not numeric and counts as zero
    assert_eq!(eps, vec!["-1", "special", "1.05", "1.5", "2", "10"]);
}

#[test]
fn episode_list_picks_the_selected_mode() {
    let api = Api::new(Mode::Dub, false);
    let resp = detail_response(vec![
        ModeEpisodes {
            mode: String::from("sub"),
            episodes: vec![String::from("1"), String::from("2")],
        },
        ModeEpisodes {
            mode: String::from("dub"),
            episodes: vec![String::from("3")],
        },
    ]);
    let (_, eps, _) = api.episode_list_from_response(&resp).unwrap();
    assert_eq!(eps, vec!["3"]);
}

#[test]
fn missing_mode_is_a_not_found_error() {
    let api = Api::new(Mode::Dub, false);
    let resp = detail_response(vec![ModeEpisodes {
        mode: String::from("sub"),
        episodes: vec![String::from("1")],
    }]);
    let err = api.episode_list_from_response(&resp).unwrap_err();
    assert!(matches!(&err, ApiError::NotFound(m) if m == "dub"));
    assert_eq!(err.message(), "no episodes found for mode 'dub'");
}

#[test]
fn error_messages_name_their_cause() {
    assert_eq!(
        ApiError::Request(String::from("timed out")).message(),
        "request failed: timed out"
    );
    assert_eq!(
        ApiError::Decode(String::from("bad shape")).message(),
        "could not decode response: bad shape"
    );
}

#[test]
fn query_documents_ask_for_the_expected_fields() {
    assert!(Api::search_query_doc().contains("edges { _id name englishName availableEpisodes __typename }"));
    assert!(Api::episode_query_doc().contains("episodeString sourceUrls"));
    assert!(Api::show_query_doc().contains("availableEpisodesDetail"));
}
