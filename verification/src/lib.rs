//! Verified core of an interactive catalog client: query construction and
//! response handling for a remote media catalog, a URL-resolution pipeline
//! for provider locators, and the navigation state machine with its live
//! fuzzy row filter.
pub mod catalog;
pub mod fuzzy;
pub mod nav;
pub mod numeric;
pub mod resolve;
pub mod sorting;
pub mod text;

pub use catalog::AnimeEdge;
pub use fuzzy::compute_row_map;
pub use fuzzy::fuzzy_rank;
pub use fuzzy::fuzzy_score;
pub use nav::EpisodeList;
pub use nav::Navigator;
pub use nav::TaskResult;
pub use nav::ViewState;
pub use resolve::PreparedLink;
pub use resolve::ProviderLink;
pub use catalog::Api;
pub use catalog::ApiError;
pub use catalog::DataWrapper;
pub use catalog::EpisodeData;
pub use catalog::EpisodeDataWrapper;
pub use catalog::EpisodeListResponse;
pub use catalog::EpisodeResponse;
pub use catalog::Mode;
pub use catalog::ModeCount;
pub use catalog::ModeEpisodes;
pub use catalog::SearchResponse;
pub use catalog::ShowDetail;
pub use catalog::ShowDetailData;
pub use catalog::ShowsData;
pub use catalog::SourceUrl;
