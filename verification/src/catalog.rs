//! The catalog client: typed views of the remote service's responses, the
//! query documents and their parameter objects, and the mode-selection and
//! ordering work done on a show-detail response.  The network transport is
//! not here; callers hand the decoded responses in as plain values.
use vstd::prelude::*;
use vstd::relations::sorted_by;
use crate::sorting::label_leq;
use crate::sorting::sort_labels;
use crate::text::concat_str;

verus! {

/// Which translation track is queried; fixed for the lifetime of one client.
#[derive(Clone, Copy, Debug, PartialEq, Eq, Structural)]
pub enum Mode {
    Sub,
    Dub,
    Raw,
}

/// The query-parameter value that stands for a mode in the catalog protocol.
pub open spec fn mode_str(m: Mode) -> Seq<char> {
    match m {
        Mode::Sub => "sub"@,
        Mode::Dub => "dub"@,
        Mode::Raw => "raw"@,
    }
}

impl Mode {
    /// The lower-case query-parameter form of this mode.
    pub fn as_str(&self) -> (r: &'static str)
        ensures
            r@ == mode_str(*self),
    {
        match self {
            Mode::Sub => "sub",
            Mode::Dub => "dub",
            Mode::Raw => "raw",
        }
    }
}

/// How many episodes one translation track offers, per the search response.
#[derive(Debug, Clone)]
pub struct ModeCount {
    pub mode: String,
    pub count: i64,
}

/// One searchable title of the catalog.
#[derive(Debug, Clone)]
pub struct AnimeEdge {
    pub id: String,
    pub name: String,
    pub english_name: Option<String>,
    pub available_episodes: Option<Vec<ModeCount>>,
    pub typename: String,
}

/// The titles a search matched.
#[derive(Debug, Clone)]
pub struct ShowsData {
    pub edges: Vec<AnimeEdge>,
}

/// The payload of a search response.
#[derive(Debug, Clone)]
pub struct DataWrapper {
    pub shows: ShowsData,
}

/// The envelope of a search response.
#[derive(Debug, Clone)]
pub struct SearchResponse {
    pub data: DataWrapper,
}

/// One provider source for an episode: a name and a raw locator.
#[derive(Debug, Clone)]
pub struct SourceUrl {
    pub source_url: String,
    pub source_name: String,
}

/// The payload of an episode-source response.
#[derive(Debug, Clone)]
pub struct EpisodeData {
    pub episode_string: String,
    pub source_urls: Vec<SourceUrl>,
}

/// The inner wrapper of an episode-source response.
#[derive(Debug, Clone)]
pub struct EpisodeDataWrapper {
    pub episode: EpisodeData,
}

/// The envelope of an episode-source response.
#[derive(Debug, Clone)]
pub struct EpisodeResponse {
    pub data: EpisodeDataWrapper,
}

/// The episode labels one translation track offers.
#[derive(Debug, Clone)]
pub struct ModeEpisodes {
    pub mode: String,
    pub episodes: Vec<String>,
}

/// One show of a show-detail response, with its per-mode episode labels.
#[derive(Debug, Clone)]
pub struct ShowDetail {
    pub id: String,
    pub name: String,
    pub available_episodes_detail: Vec<ModeEpisodes>,
}

/// The payload of a show-detail response.
#[derive(Debug, Clone)]
pub struct ShowDetailData {
    pub show: ShowDetail,
}

/// The envelope of a show-detail response.
#[derive(Debug, Clone)]
pub struct EpisodeListResponse {
    pub data: ShowDetailData,
}

/// Why a catalog operation failed: the transport failed, the response did
/// not have the expected shape, or the response held nothing for the
/// selected mode.
#[derive(Debug, Clone)]
pub enum ApiError {
    Request(String),
    Decode(String),
    NotFound(String),
}

impl ApiError {
    /// A readable description of the failure.
    pub fn message(&self) -> (r: String)
        ensures
            self is Request ==> r@ == "request failed: "@ + self->Request_0@,
            self is Decode ==> r@ == "could not decode response: "@ + self->Decode_0@,
            self is NotFound ==> r@ == "no episodes found for mode '"@ + self->NotFound_0@ + "'"@,
    {
        match self {
            ApiError::Request(m) => concat_str("request failed: ", m.as_str()),
            ApiError::Decode(m) => concat_str("could not decode response: ", m.as_str()),
            ApiError::NotFound(m) => {
                let s = concat_str("no episodes found for mode '", m.as_str());
                s.concat("'")
            },
        }
    }
}

/// The episode labels of the first entry for `mode`, if any entry has it.
pub open spec fn lookup_mode(entries: Seq<ModeEpisodes>, mode: Seq<char>) -> Option<Seq<String>>
    decreases entries.len(),
{
    if entries.len() == 0 {
        Option::None
    } else if entries[0].mode@ == mode {
        Option::Some(entries[0].episodes@)
    } else {
        lookup_mode(entries.drop_first(), mode)
    }
}

proof fn lemma_lookup_first(entries: Seq<ModeEpisodes>, mode: Seq<char>, i: int)
    requires
        0 <= i < entries.len(),
        entries[i].mode@ == mode,
        forall|m: int| 0 <= m < i ==> #[trigger] entries[m].mode@ != mode,
    ensures
        lookup_mode(entries, mode) == Option::Some(entries[i].episodes@),
    decreases i,
{
    if i > 0 {
        lemma_lookup_first(entries.drop_first(), mode, i - 1);
    }
}

proof fn lemma_lookup_none(entries: Seq<ModeEpisodes>, mode: Seq<char>)
    requires
        forall|m: int| 0 <= m < entries.len() ==> #[trigger] entries[m].mode@ != mode,
    ensures
        lookup_mode(entries, mode) is None,
    decreases entries.len(),
{
    if entries.len() > 0 {
        lemma_lookup_none(entries.drop_first(), mode);
    }
}

/// The client's configuration, shared read-only by every request: the
/// endpoint, the required headers, the selected mode, and the HTTP agent.
#[derive(Debug)]
pub struct Api {
    pub base_api: String,
    pub referer: String,
    pub agent: ureq::Agent,
    pub user_agent: String,
    pub mode: String,
    pub debug: bool,
}

#[verifier::external_type_specification]
#[verifier::external_body]
pub struct ExAgent(ureq::Agent);

/// Relies on ureq's `Agent::config_builder` and `Agent::new_with_config`:
/// builds an agent that sends the given User-Agent header, enforces TLS,
/// and gives each call the given timeout.
#[verifier::external_body]
fn new_agent(user_agent: &str, timeout_secs: u64) -> ureq::Agent {
    let config = ureq::Agent::config_builder()
        .timeout_per_call(Some(std::time::Duration::from_secs(timeout_secs)))
        .user_agent(user_agent)
        .https_only(true)
        .build();
    ureq::Agent::new_with_config(config)
}

impl Api {
    /// A client for the catalog service, configured for one mode.
    pub fn new(mode: Mode, debug: bool) -> (r: Api)
        ensures
            r.base_api@ == "https://api.allanime.day/api"@,
            r.referer@ == "https://allmanga.to"@,
            r.user_agent@ == "Mozilla/5.0 (Windows NT 10.0; Win64; x64) Gecko/20100101 Firefox/121.0"@,
            r.mode@ == mode_str(mode),
            r.debug == debug,
    {
        let user_agent = "Mozilla/5.0 (Windows NT 10.0; Win64; x64) Gecko/20100101 Firefox/121.0";
        let agent = new_agent(user_agent, 12);
        Api {
            base_api: String::from_str("https://api.allanime.day/api"),
            referer: String::from_str("https://allmanga.to"),
            agent,
            user_agent: String::from_str(user_agent),
            mode: String::from_str(mode.as_str()),
            debug,
        }
    }

    /// The query document of the search operation.
    pub fn search_query_doc() -> (r: &'static str)
        ensures
            r@ == "query( $search: SearchInput $limit: Int $page: Int $translationType: VaildTranslationTypeEnumType $countryOrigin: VaildCountryOriginEnumType ) { shows( search: $search limit: $limit page: $page translationType: $translationType countryOrigin: $countryOrigin ) { edges { _id name englishName availableEpisodes __typename } }}"@,
    {
        "query( $search: SearchInput $limit: Int $page: Int $translationType: VaildTranslationTypeEnumType $countryOrigin: VaildCountryOriginEnumType ) { shows( search: $search limit: $limit page: $page translationType: $translationType countryOrigin: $countryOrigin ) { edges { _id name englishName availableEpisodes __typename } }}"
    }

    /// The query document of the episode-source operation.
    pub fn episode_query_doc() -> (r: &'static str)
        ensures
            r@ == "query ($showId: String!, $translationType: VaildTranslationTypeEnumType!, $episodeString: String!) { episode( showId: $showId translationType: $translationType episodeString: $episodeString ) { episodeString sourceUrls }}"@,
    {
        "query ($showId: String!, $translationType: VaildTranslationTypeEnumType!, $episodeString: String!) { episode( showId: $showId translationType: $translationType episodeString: $episodeString ) { episodeString sourceUrls }}"
    }

    /// The query document of the show-detail operation.
    pub fn show_query_doc() -> (r: &'static str)
        ensures
            r@ == "query ($showId: String!) { show( _id: $showId ) { _id name availableEpisodesDetail }}"@,
    {
        "query ($showId: String!) { show( _id: $showId ) { _id name availableEpisodesDetail }}"
    }

    /// The JSON variables object of a search query: the free-text term, the
    /// fixed page size, this client's mode, and the country filter.
    pub fn search_variables(&self, query: &str) -> (r: String)
        ensures
            r@ == "{\"search\":{\"allowAdult\":false,\"allowUnknown\":false,\"query\":\""@ + query@
                + "\"},\"limit\":40,\"page\":1,\"translationType\":\""@ + self.mode@
                + "\",\"countryOrigin\":\"ALL\"}"@,
    {
        let s = concat_str(
            "{\"search\":{\"allowAdult\":false,\"allowUnknown\":false,\"query\":\"",
            query,
        );
        let s = s.concat("\"},\"limit\":40,\"page\":1,\"translationType\":\"");
        let s = s.concat(self.mode.as_str());
        s.concat("\",\"countryOrigin\":\"ALL\"}")
    }

    /// The JSON variables object of an episode-source query.
    pub fn episode_variables(&self, id: &str, ep: &str) -> (r: String)
        ensures
            r@ == "{\"showId\":\""@ + id@ + "\",\"translationType\":\""@ + self.mode@
                + "\",\"episodeString\":\""@ + ep@ + "\"}"@,
    {
        let s = concat_str("{\"showId\":\"", id);
        let s = s.concat("\",\"translationType\":\"");
        let s = s.concat(self.mode.as_str());
        let s = s.concat("\",\"episodeString\":\"");
        let s = s.concat(ep);
        s.concat("\"}")
    }

    /// The JSON variables object of a show-detail query.
    pub fn show_variables(id: &str) -> (r: String)
        ensures
            r@ == "{\"showId\":\""@ + id@ + "\"}"@,
    {
        let s = concat_str("{\"showId\":\"", id);
        s.concat("\"}")
    }

    /// The show-detail work after decoding: pick this client's mode out of
    /// the per-mode episode map and sort its labels ascending by numeric
    /// value.  Returns the show's title, its ordered episode labels, and its
    /// id; fails exactly when the response has no entry for the mode.
    pub fn episode_list_from_response(&self, resp: &EpisodeListResponse) -> (r: Result<
        (String, Vec<String>, String),
        ApiError,
    >)
        ensures
            r is Ok <==> lookup_mode(resp.data.show.available_episodes_detail@, self.mode@)
                is Some,
            r is Ok ==> r->Ok_0.0@ == resp.data.show.name@ && r->Ok_0.2@ == resp.data.show.id@,
            r is Ok ==> sorted_by(r->Ok_0.1@, label_leq()),
            r is Ok ==> r->Ok_0.1@.to_multiset() == lookup_mode(
                resp.data.show.available_episodes_detail@,
                self.mode@,
            )->Some_0.to_multiset(),
            r is Ok ==> r->Ok_0.1@.len() == lookup_mode(
                resp.data.show.available_episodes_detail@,
                self.mode@,
            )->Some_0.len(),
            r is Err ==> r->Err_0 is NotFound && r->Err_0->NotFound_0@ == self.mode@,
    {
        let entries = &resp.data.show.available_episodes_detail;
        let n = entries.len();
        let mut i: usize = 0;
        while i < n
            invariant
                0 <= i <= n,
                n == entries@.len(),
                entries@ == resp.data.show.available_episodes_detail@,
                forall|m: int| 0 <= m < i ==> #[trigger] entries@[m].mode@ != self.mode@,
            decreases n - i,
        {
            if entries[i].mode.eq(&self.mode) {
                proof {
                    lemma_lookup_first(entries@, self.mode@, i as int);
                }
                let eps = sort_labels(&entries[i].episodes);
                return Ok((resp.data.show.name.clone(), eps, resp.data.show.id.clone()));
            }
            i += 1;
        }
        proof {
            lemma_lookup_none(entries@, self.mode@);
        }
        Err(ApiError::NotFound(self.mode.clone()))
    }
}

} // verus!
