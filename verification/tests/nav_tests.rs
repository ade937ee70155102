use anicli::compute_row_map;
use anicli::fuzzy_rank;
use anicli::fuzzy_score;
use anicli::AnimeEdge;
use anicli::EpisodeList;
use anicli::Navigator;
use anicli::ProviderLink;
use anicli::TaskResult;
use anicli::ViewState;

fn edge(id: &str, name: &str) -> AnimeEdge {
    AnimeEdge {
        id: String::from(id),
        name: String::from(name),
        english_name: None,
        available_episodes: None,
        typename: String::from("Show"),
    }
}

fn three_edges() -> Vec<AnimeEdge> {
    vec![
        edge("A", "Naruto"),
        edge("B", "Naruto Shippuden"),
        edge("C", "Boruto"),
    ]
}

#[test]
fn fuzzy_match_is_case_insensitive_subsequence() {
    assert!(fuzzy_rank("shippu", "Naruto Shippuden").is_some());
    assert!(fuzzy_rank("nrt", "Naruto").is_some());
    assert!(fuzzy_rank("SHIPPU", "naruto shippuden").is_some());
    assert_eq!(fuzzy_rank("shippu", "Naruto"), None);
    assert_eq!(fuzzy_rank("xyz", "Boruto"), None);
}

#[test]
fn fuzzy_rank_is_the_first_hit_position() {
    assert_eq!(fuzzy_rank("", "anything"), Some(0));
    assert_eq!(fuzzy_rank("n", "Naruto"), Some(0));
    assert_eq!(fuzzy_rank("s", "Naruto Shippuden"), Some(7));
    assert_eq!(fuzzy_score("s", "Naruto Shippuden"), Some(u64::MAX - 7));
}

#[test]
fn row_map_keeps_only_matches_in_rank_order() {
    let keys = vec![
        String::from("Naruto"),
        String::from("Naruto Shippuden"),
        String::from("Boruto"),
    ];
    assert_eq!(compute_row_map("shippu", &keys), vec![1]);
    // "uto" begins at position 3 in the first two titles, 3 in "Boruto"
    assert_eq!(compute_row_map("uto", &keys), vec![0, 1, 2]);
    assert_eq!(compute_row_map("", &keys), vec![0, 1, 2]);
}

#[test]
fn earlier_hits_rank_above_later_ones() {
    // "s" hits "sa" at position 0 and "as" at position 1, so "sa" ranks first
    let keys = vec![String::from("as"), String::from("sa")];
    assert_eq!(compute_row_map("s", &keys), vec![1, 0]);
}

#[test]
fn equal_ranks_keep_the_original_order() {
    let keys = vec![String::from("b1"), String::from("a1"), String::from("c1")];
    assert_eq!(compute_row_map("1", &keys), vec![0, 1, 2]);
}

#[test]
fn search_results_reset_the_view_to_identity() {
    let mut nav = Navigator::new();
    assert!(matches!(nav.view, ViewState::Loading));
    let err = nav.apply_result(TaskResult::SearchArrived(three_edges()));
    assert!(err.is_none());
    assert_eq!(nav.row_map, vec![0, 1, 2]);
    assert_eq!(nav.cursor, 0);
    assert_eq!(nav.query, "");
    assert!(matches!(nav.view, ViewState::Search(ref es) if es.len() == 3));
}

#[test]
fn filtering_shippu_selects_the_second_row() {
    let mut nav = Navigator::new();
    nav.apply_result(TaskResult::SearchArrived(three_edges()));
    nav.edit_query(String::from("shippu"));
    assert_eq!(nav.row_map, vec![1]);
    assert_eq!(nav.confirm(), Some(1));
}

#[test]
fn empty_query_restores_original_order() {
    let mut nav = Navigator::new();
    nav.apply_result(TaskResult::SearchArrived(three_edges()));
    nav.edit_query(String::from("shippu"));
    nav.edit_query(String::new());
    assert_eq!(nav.row_map, vec![0, 1, 2]);
}

#[test]
fn cursor_moves_within_bounds_without_wraparound() {
    let mut nav = Navigator::new();
    nav.apply_result(TaskResult::SearchArrived(three_edges()));
    nav.move_up();
    assert_eq!(nav.cursor, 0);
    nav.move_down();
    nav.move_down();
    assert_eq!(nav.cursor, 2);
    nav.move_down();
    assert_eq!(nav.cursor, 2);
    nav.move_up();
    assert_eq!(nav.cursor, 1);
    assert_eq!(nav.confirm(), Some(1));
}

#[test]
fn filtering_does_not_remap_the_cursor() {
    let mut nav = Navigator::new();
    nav.apply_result(TaskResult::SearchArrived(three_edges()));
    nav.move_down();
    nav.move_down();
    // the cursor is a raw visual offset; it is clamped, not remapped
    nav.edit_query(String::from("shippu"));
    assert_eq!(nav.cursor, 0);
    assert_eq!(nav.confirm(), Some(1));
}

#[test]
fn confirm_on_empty_view_selects_nothing() {
    let mut nav = Navigator::new();
    assert_eq!(nav.confirm(), None);
    nav.apply_result(TaskResult::SearchArrived(three_edges()));
    nav.edit_query(String::from("no such title"));
    assert_eq!(nav.row_map, Vec::<usize>::new());
    assert_eq!(nav.confirm(), None);
}

#[test]
fn last_message_wins_over_earlier_results() {
    let mut nav = Navigator::new();
    nav.apply_result(TaskResult::SearchArrived(three_edges()));
    nav.edit_query(String::from("shippu"));
    let late = vec![edge("D", "Dragon Ball")];
    nav.apply_result(TaskResult::SearchArrived(late));
    assert!(matches!(nav.view, ViewState::Search(ref es) if es.len() == 1));
    assert_eq!(nav.row_map, vec![0]);
    assert_eq!(nav.cursor, 0);
    assert_eq!(nav.query, "");
}

#[test]
fn failure_messages_leave_the_view_standing() {
    let mut nav = Navigator::new();
    nav.apply_result(TaskResult::SearchArrived(three_edges()));
    let err = nav.apply_result(TaskResult::Failed(anicli::ApiError::Request(String::from(
        "timed out",
    ))));
    assert!(err.is_some());
    assert!(matches!(nav.view, ViewState::Search(ref es) if es.len() == 3));
    assert_eq!(nav.row_map, vec![0, 1, 2]);
}

#[test]
fn episode_view_filters_on_labels() {
    let mut nav = Navigator::new();
    let list = EpisodeList {
        show_id: String::from("B"),
        show_title: String::from("Naruto Shippuden"),
        episodes: vec![String::from("1"), String::from("2"), String::from("10")],
    };
    nav.apply_result(TaskResult::EpisodesArrived(list));
    assert_eq!(nav.row_map, vec![0, 1, 2]);
    nav.edit_query(String::from("10"));
    assert_eq!(nav.row_map, vec![2]);
    assert_eq!(nav.confirm(), Some(2));
}

#[test]
fn provider_view_filters_on_provider_names() {
    let mut nav = Navigator::new();
    let links = vec![
        ProviderLink {
            provider_name: String::from("Alpha"),
            raw_locator: String::from("//a"),
            resolved_uri: String::from("https://a"),
        },
        ProviderLink {
            provider_name: String::from("Beta"),
            raw_locator: String::from("//b"),
            resolved_uri: String::from("https://b"),
        },
    ];
    nav.apply_result(TaskResult::LinksArrived(links));
    nav.edit_query(String::from("bet"));
    assert_eq!(nav.row_map, vec![1]);
}
