//! The navigation state machine: one active view at a time, forward
//! transitions on confirmation, a row-index map tying visible rows to the
//! active view's records, and live recomputation of that map as the query
//! text changes.  Results of background work arrive as messages; applying
//! a message rebuilds the view from that message alone, so the last
//! message to arrive wins.
use vstd::prelude::*;
use crate::catalog::AnimeEdge;
use crate::catalog::ApiError;
use crate::fuzzy::compute_row_map;
use crate::fuzzy::lemma_row_map_basic;
use crate::fuzzy::row_map_spec;
use crate::resolve::ProviderLink;

verus! {

/// One show's ordered episode labels, as one view's data set.
#[derive(Debug, Clone)]
pub struct EpisodeList {
    pub show_id: String,
    pub show_title: String,
    pub episodes: Vec<String>,
}

/// The active view: exactly one at a time, each carrying its own data.
#[derive(Debug)]
pub enum ViewState {
    Loading,
    Search(Vec<AnimeEdge>),
    Episode(EpisodeList),
    Provider(Vec<ProviderLink>),
}

/// What a background task reports: one view's data, or a tagged failure.
#[derive(Debug)]
pub enum TaskResult {
    SearchArrived(Vec<AnimeEdge>),
    EpisodesArrived(EpisodeList),
    LinksArrived(Vec<ProviderLink>),
    Failed(ApiError),
}

/// How many records the active view holds.
pub open spec fn data_len(v: ViewState) -> nat {
    match v {
        ViewState::Loading => 0,
        ViewState::Search(es) => es@.len(),
        ViewState::Episode(l) => l.episodes@.len(),
        ViewState::Provider(ls) => ls@.len(),
    }
}

/// The textual key the filter reads from record `i`: the title in the
/// search view, the episode label in the episode view, the provider name
/// in the provider view.
pub open spec fn key_of(v: ViewState, i: int) -> Seq<char> {
    match v {
        ViewState::Loading => Seq::<char>::empty(),
        ViewState::Search(es) => es@[i].name@,
        ViewState::Episode(l) => l.episodes@[i]@,
        ViewState::Provider(ls) => ls@[i].provider_name@,
    }
}

/// All the active view's keys, in data order.
pub open spec fn view_keys_spec(v: ViewState) -> Seq<Seq<char>> {
    Seq::new(data_len(v), |i: int| key_of(v, i))
}

/// The identity row-index map over `n` records.
pub open spec fn identity_seq(n: nat) -> Seq<usize> {
    Seq::new(n, |i: int| i as usize)
}

/// The keys of the active view, in data order.
pub fn view_keys(v: &ViewState) -> (ks: Vec<String>)
    ensures
        ks.deep_view() == view_keys_spec(*v),
        ks@.len() == data_len(*v),
{
    let mut ks: Vec<String> = Vec::new();
    match v {
        ViewState::Loading => {},
        ViewState::Search(es) => {
            let n = es.len();
            let mut i: usize = 0;
            while i < n
                invariant
                    0 <= i <= n,
                    n == es@.len(),
                    ks@.len() == i,
                    forall|m: int| 0 <= m < i ==> (#[trigger] ks@[m])@ == es@[m].name@,
                decreases n - i,
            {
                ks.push(es[i].name.clone());
                i += 1;
            }
        },
        ViewState::Episode(l) => {
            let n = l.episodes.len();
            let mut i: usize = 0;
            while i < n
                invariant
                    0 <= i <= n,
                    n == l.episodes@.len(),
                    ks@.len() == i,
                    forall|m: int| 0 <= m < i ==> (#[trigger] ks@[m])@ == l.episodes@[m]@,
                decreases n - i,
            {
                ks.push(l.episodes[i].clone());
                i += 1;
            }
        },
        ViewState::Provider(ls) => {
            let n = ls.len();
            let mut i: usize = 0;
            while i < n
                invariant
                    0 <= i <= n,
                    n == ls@.len(),
                    ks@.len() == i,
                    forall|m: int| 0 <= m < i ==> (#[trigger] ks@[m])@ == ls@[m].provider_name@,
                decreases n - i,
            {
                ks.push(ls[i].provider_name.clone());
                i += 1;
            }
        },
    }
    proof {
        assert(ks.deep_view() =~= view_keys_spec(*v));
    }
    ks
}

/// The identity row-index map over `n` records.
pub fn identity_map(n: usize) -> (r: Vec<usize>)
    ensures
        r@ == identity_seq(n as nat),
{
    let mut r: Vec<usize> = Vec::new();
    let mut i: usize = 0;
    while i < n
        invariant
            0 <= i <= n,
            r@.len() == i,
            forall|m: int| 0 <= m < i ==> (#[trigger] r@[m]) == m,
        decreases n - i,
    {
        r.push(i);
        i += 1;
    }
    proof {
        assert(r@ =~= identity_seq(n as nat));
    }
    r
}

/// The interactive session: the active view, the row-index map over its
/// records, the cursor as a raw visual row offset, and the query text.
#[derive(Debug)]
pub struct Navigator {
    pub view: ViewState,
    pub row_map: Vec<usize>,
    pub cursor: usize,
    pub query: String,
}

/// The session's invariant: every visible row points at a record of the
/// active view, no record is shown twice, and the cursor stays on a row.
pub open spec fn nav_wf(n: Navigator) -> bool {
    &&& forall|m: int| 0 <= m < n.row_map@.len() ==> (#[trigger] n.row_map@[m]) < data_len(n.view)
    &&& n.row_map@.no_duplicates()
    &&& n.row_map@.len() <= data_len(n.view)
    &&& (n.row_map@.len() == 0 ==> n.cursor == 0)
    &&& (n.row_map@.len() > 0 ==> n.cursor < n.row_map@.len())
}

/// A view as it stands right after a transition: identity row-index map,
/// cursor on the first row, empty query.
pub open spec fn fresh_view(n: Navigator) -> bool {
    &&& n.row_map@ == identity_seq(data_len(n.view))
    &&& n.cursor == 0
    &&& n.query@ == Seq::<char>::empty()
}

/// What applying one task result does to the session: a data message
/// replaces the view with its payload and resets the rest; a failure
/// leaves the session as it stands.
pub open spec fn step_post(pre: Navigator, msg: TaskResult, post: Navigator) -> bool {
    match msg {
        TaskResult::SearchArrived(es) => post.view == ViewState::Search(es) && fresh_view(post),
        TaskResult::EpisodesArrived(l) => post.view == ViewState::Episode(l) && fresh_view(post),
        TaskResult::LinksArrived(ls) => post.view == ViewState::Provider(ls) && fresh_view(post),
        TaskResult::Failed(e) => post == pre,
    }
}

proof fn lemma_identity_wf(n: nat)
    requires
        n <= usize::MAX,
    ensures
        identity_seq(n).no_duplicates(),
        forall|m: int| 0 <= m < n ==> (#[trigger] identity_seq(n)[m]) < n,
{
    assert forall|i: int, j: int|
        0 <= i < n && 0 <= j < n && i != j implies identity_seq(n)[i] != identity_seq(n)[j] by {
        assert(identity_seq(n)[i] == i as usize);
        assert(identity_seq(n)[j] == j as usize);
    }
    assert forall|m: int| 0 <= m < n implies (#[trigger] identity_seq(n)[m]) < n by {
        assert(identity_seq(n)[m] == m as usize);
    }
}

impl Navigator {
    /// A fresh session, loading its first search results.
    pub fn new() -> (r: Navigator)
        ensures
            r.view is Loading,
            fresh_view(r),
            nav_wf(r),
    {
        let r = Navigator {
            view: ViewState::Loading,
            row_map: Vec::new(),
            cursor: 0,
            query: String::new(),
        };
        proof {
            assert(r.row_map@ =~= identity_seq(0));
        }
        r
    }

    /// Drain one message into the session.  A data message replaces the
    /// active view and resets the row-index map to the identity over the
    /// new data set, the cursor to the first row, and the query text; the
    /// error of a failure message is handed back and nothing changes.
    pub fn apply_result(&mut self, msg: TaskResult) -> (err: Option<ApiError>)
        requires
            nav_wf(*old(self)),
        ensures
            nav_wf(*final(self)),
            step_post(*old(self), msg, *final(self)),
            err is Some <==> msg is Failed,
    {
        match msg {
            TaskResult::SearchArrived(es) => {
                let n = es.len();
                self.view = ViewState::Search(es);
                self.row_map = identity_map(n);
                self.cursor = 0;
                self.query = String::new();
                proof {
                    lemma_identity_wf(n as nat);
                }
                None
            },
            TaskResult::EpisodesArrived(l) => {
                let n = l.episodes.len();
                self.view = ViewState::Episode(l);
                self.row_map = identity_map(n);
                self.cursor = 0;
                self.query = String::new();
                proof {
                    lemma_identity_wf(n as nat);
                }
                None
            },
            TaskResult::LinksArrived(ls) => {
                let n = ls.len();
                self.view = ViewState::Provider(ls);
                self.row_map = identity_map(n);
                self.cursor = 0;
                self.query = String::new();
                proof {
                    lemma_identity_wf(n as nat);
                }
                None
            },
            TaskResult::Failed(e) => Some(e),
        }
    }

    /// Replace the query text and recompute which rows are visible and in
    /// what order.  The cursor is a raw visual offset: it is not remapped
    /// to follow the previously selected record, only kept on a row.
    pub fn edit_query(&mut self, q: String)
        requires
            nav_wf(*old(self)),
        ensures
            nav_wf(*final(self)),
            final(self).view == old(self).view,
            final(self).query@ == q@,
            row_map_spec(q@, view_keys_spec(final(self).view), final(self).row_map@),
            final(self).cursor == if final(self).row_map@.len() == 0 {
                0int
            } else if old(self).cursor < final(self).row_map@.len() {
                old(self).cursor as int
            } else {
                final(self).row_map@.len() - 1
            },
    {
        let keys = view_keys(&self.view);
        let map = compute_row_map(q.as_str(), &keys);
        proof {
            lemma_row_map_basic(q@, keys.deep_view(), map@);
        }
        let len = map.len();
        self.row_map = map;
        self.query = q;
        if len == 0 {
            self.cursor = 0;
        } else if self.cursor >= len {
            self.cursor = len - 1;
        }
    }

    /// Move the cursor one row up, stopping at the first row.
    pub fn move_up(&mut self)
        requires
            nav_wf(*old(self)),
        ensures
            nav_wf(*final(self)),
            final(self).view == old(self).view,
            final(self).row_map@ == old(self).row_map@,
            final(self).query@ == old(self).query@,
            final(self).cursor == if old(self).cursor > 0 {
                old(self).cursor - 1
            } else {
                0int
            },
    {
        if self.cursor > 0 {
            self.cursor = self.cursor - 1;
        }
    }

    /// Move the cursor one row down, stopping at the last row.
    pub fn move_down(&mut self)
        requires
            nav_wf(*old(self)),
        ensures
            nav_wf(*final(self)),
            final(self).view == old(self).view,
            final(self).row_map@ == old(self).row_map@,
            final(self).query@ == old(self).query@,
            final(self).cursor == if old(self).cursor + 1 < old(self).row_map@.len() {
                old(self).cursor + 1
            } else {
                old(self).cursor as int
            },
    {
        let len = self.row_map.len();
        if len > 0 && self.cursor < len - 1 {
            self.cursor = self.cursor + 1;
        }
    }

    /// Resolve the highlighted row to its record's index in the active
    /// view's data — the one place the row-index map and the cursor are
    /// composed.  Nothing is selected when no row is visible.
    pub fn confirm(&self) -> (r: Option<usize>)
        requires
            nav_wf(*self),
        ensures
            r is Some <==> self.row_map@.len() > 0,
            r is Some ==> r->0 == self.row_map@[self.cursor as int] && r->0 < data_len(self.view),
    {
        if self.row_map.len() > 0 {
            Some(self.row_map[self.cursor])
        } else {
            None
        }
    }
}

/// Last message wins: when two data messages are drained in either
/// arrival order, the session ends up exactly as if only the later one
/// had arrived — its payload's view, the identity row-index map, the
/// cursor on the first row, and a cleared query.
pub proof fn lemma_last_message_wins(
    s0: Navigator,
    s1: Navigator,
    s12: Navigator,
    s2: Navigator,
    m1: TaskResult,
    m2: TaskResult,
)
    requires
        !(m1 is Failed),
        !(m2 is Failed),
        step_post(s0, m1, s1),
        step_post(s1, m2, s12),
        step_post(s0, m2, s2),
    ensures
        s12.view == s2.view,
        s12.row_map@ == s2.row_map@,
        s12.cursor == s2.cursor,
        s12.query@ == s2.query@,
{
}

} // verus!
