//! Aggregation of a user's public repositories and events into a normalized
//! summary. Network paging is driven by the caller; the selection, capping,
//! merging, counting and ranking decisions live here and are verified.

use vstd::prelude::*;

verus! {

/// Hard cap on the number of qualifying repositories processed per account.
pub const MAX_REPOS: usize = 400;

/// Hard cap on the number of public-event pages scanned per account.
pub const MAX_EVENT_PAGES: usize = 3;

/// The normalized aggregation result for one account.
pub struct GitHubSummary {
    /// Ranked (language, byte-count) pairs, sorted by descending byte count,
    /// ties keeping their first-encounter order; no zero-byte entries.
    pub languages: Vec<(String, u64)>,
    pub stars_total: u64,
    pub commits: u64,
    pub pull_requests: u64,
    pub issues: u64,
}

/// One repository as listed by the upstream repository endpoint, reduced to
/// the fields the aggregation reads.
pub struct RepoRecord {
    pub fork: bool,
    pub archived: bool,
    pub stargazers_count: u64,
    pub owner: String,
    pub name: String,
}

/// The kind tag of one public event.
#[derive(Clone, Copy, PartialEq, Eq, Structural)]
pub enum EventKind {
    Push,
    PullRequest,
    Issue,
    Other,
}

/// One public event: its kind and, for push events, the commit count of its
/// payload, which the feed may omit.
#[derive(Clone, Copy)]
pub struct EventRecord {
    pub kind: EventKind,
    pub commit_count: Option<u64>,
}

/// The commit contribution of one event: the payload size of a push event,
/// an absent payload counting as zero, and zero for every other kind.
pub open spec fn push_size(e: EventRecord) -> int {
    if e.kind is Push {
        match e.commit_count {
            Some(n) => n as int,
            None => 0,
        }
    } else {
        0
    }
}

/// Sum of the commit contributions of a page of events.
pub open spec fn sum_push(events: Seq<EventRecord>) -> int
    decreases events.len(),
{
    if events.len() == 0 {
        0
    } else {
        sum_push(events.drop_last()) + push_size(events.last())
    }
}

/// Number of events of the given kind in a page.
pub open spec fn count_kind(events: Seq<EventRecord>, kind: EventKind) -> int
    decreases events.len(),
{
    if events.len() == 0 {
        0
    } else {
        count_kind(events.drop_last(), kind) + (if events.last().kind == kind {
            1int
        } else {
            0int
        })
    }
}

proof fn lemma_sum_push_nonneg(events: Seq<EventRecord>)
    ensures
        sum_push(events) >= 0,
    decreases events.len(),
{
    if events.len() > 0 {
        lemma_sum_push_nonneg(events.drop_last());
    }
}

proof fn lemma_count_kind_nonneg(events: Seq<EventRecord>, kind: EventKind)
    ensures
        count_kind(events, kind) >= 0,
    decreases events.len(),
{
    if events.len() > 0 {
        lemma_count_kind_nonneg(events.drop_last(), kind);
    }
}

proof fn lemma_sum_push_push(events: Seq<EventRecord>, e: EventRecord)
    ensures
        sum_push(events.push(e)) == sum_push(events) + push_size(e),
{
    assert(events.push(e).drop_last() =~= events);
    assert(events.push(e).last() == e);
}

proof fn lemma_count_kind_push(events: Seq<EventRecord>, kind: EventKind, e: EventRecord)
    ensures
        count_kind(events.push(e), kind) == count_kind(events, kind) + (if e.kind == kind {
            1int
        } else {
            0int
        }),
{
    assert(events.push(e).drop_last() =~= events);
    assert(events.push(e).last() == e);
}

/// Running totals of the activity phase: commit, pull-request and issue
/// counters, the index of the next event page, and whether scanning ended
/// early on an empty page.
pub struct ActivityScan {
    pub commits: u64,
    pub pull_requests: u64,
    pub issues: u64,
    pub page: usize,
    pub done: bool,
}

impl ActivityScan {
    pub fn new() -> (r: ActivityScan)
        ensures
            r.commits == 0,
            r.pull_requests == 0,
            r.issues == 0,
            r.page == 1,
            !r.done,
    {
        ActivityScan { commits: 0, pull_requests: 0, issues: 0, page: 1, done: false }
    }

    /// Whether another event page should be requested: scanning has not hit
    /// an empty page and the fixed page cap is not yet exhausted.
    pub fn should_fetch(&self) -> (r: bool)
        ensures
            r == (!self.done && self.page <= MAX_EVENT_PAGES),
    {
        !self.done && self.page <= MAX_EVENT_PAGES
    }

    /// Fold one page of events into the counters. An empty page ends the
    /// scan with the counters untouched; otherwise push-event payload sizes
    /// (absent payloads counting as zero) are added to `commits`,
    /// pull-request and issue events bump their counters, all other kinds
    /// are ignored, and the page index advances.
    pub fn process_event_page(&mut self, events: &Vec<EventRecord>)
        requires
            !old(self).done,
            old(self).page <= MAX_EVENT_PAGES,
            old(self).commits + sum_push(events@) <= u64::MAX,
            old(self).pull_requests + count_kind(events@, EventKind::PullRequest) <= u64::MAX,
            old(self).issues + count_kind(events@, EventKind::Issue) <= u64::MAX,
        ensures
            events@.len() == 0 ==> *final(self) == (ActivityScan { done: true, ..*old(self) }),
            events@.len() > 0 ==> {
                &&& final(self).commits == old(self).commits + sum_push(events@)
                &&& final(self).pull_requests == old(self).pull_requests + count_kind(
                    events@,
                    EventKind::PullRequest,
                )
                &&& final(self).issues == old(self).issues + count_kind(events@, EventKind::Issue)
                &&& final(self).page == old(self).page + 1
                &&& !final(self).done
            },
    {
        if events.len() == 0 {
            self.done = true;
            return ;
        }
        let ghost evs = events@;
        let mut i: usize = 0;
        while i < events.len()
            invariant
                0 <= i <= events.len(),
                events@ == evs,
                self.commits == old(self).commits + sum_push(evs.take(i as int)),
                self.pull_requests == old(self).pull_requests + count_kind(
                    evs.take(i as int),
                    EventKind::PullRequest,
                ),
                self.issues == old(self).issues + count_kind(evs.take(i as int), EventKind::Issue),
                self.page == old(self).page,
                self.done == old(self).done,
                old(self).commits + sum_push(evs) <= u64::MAX,
                old(self).pull_requests + count_kind(evs, EventKind::PullRequest) <= u64::MAX,
                old(self).issues + count_kind(evs, EventKind::Issue) <= u64::MAX,
            decreases events.len() - i,
        {
            let e = events[i];
            proof {
                assert(evs.take(i + 1) =~= evs.take(i as int).push(evs[i as int]));
                lemma_sum_push_push(evs.take(i as int), evs[i as int]);
                lemma_count_kind_push(evs.take(i as int), EventKind::PullRequest, evs[i as int]);
                lemma_count_kind_push(evs.take(i as int), EventKind::Issue, evs[i as int]);
                lemma_bounds_via_prefix(evs, i as int);
            }
            match e.kind {
                EventKind::Push => {
                    if let Some(n) = e.commit_count {
                        self.commits = self.commits + n;
                    }
                },
                EventKind::PullRequest => {
                    self.pull_requests = self.pull_requests + 1;
                },
                EventKind::Issue => {
                    self.issues = self.issues + 1;
                },
                EventKind::Other => {},
            }
            i = i + 1;
        }
        proof {
            assert(evs.take(events@.len() as int) =~= evs);
        }
        self.page = self.page + 1;
    }
}

/// The totals over a full prefix of a sequence are bounded below by the
/// totals over any shorter prefix extended by one event, since every
/// contribution is nonnegative.
proof fn lemma_bounds_via_prefix(evs: Seq<EventRecord>, i: int)
    requires
        0 <= i < evs.len(),
    ensures
        sum_push(evs.take(i).push(evs[i])) <= sum_push(evs),
        count_kind(evs.take(i).push(evs[i]), EventKind::PullRequest) <= count_kind(
            evs,
            EventKind::PullRequest,
        ),
        count_kind(evs.take(i).push(evs[i]), EventKind::Issue) <= count_kind(
            evs,
            EventKind::Issue,
        ),
{
    assert(evs.take(i).push(evs[i]) =~= evs.take(i + 1));
    lemma_sum_push_prefix(evs, i + 1);
    lemma_count_kind_prefix(evs, EventKind::PullRequest, i + 1);
    lemma_count_kind_prefix(evs, EventKind::Issue, i + 1);
}

proof fn lemma_sum_push_prefix(evs: Seq<EventRecord>, n: int)
    requires
        0 <= n <= evs.len(),
    ensures
        sum_push(evs.take(n)) <= sum_push(evs),
    decreases evs.len() - n,
{
    if n == evs.len() {
        assert(evs.take(n) =~= evs);
    } else {
        assert(evs.take(n + 1).drop_last() =~= evs.take(n));
        lemma_sum_push_prefix(evs, n + 1);
    }
}

proof fn lemma_count_kind_prefix(evs: Seq<EventRecord>, kind: EventKind, n: int)
    requires
        0 <= n <= evs.len(),
    ensures
        count_kind(evs.take(n), kind) <= count_kind(evs, kind),
    decreases evs.len() - n,
{
    if n == evs.len() {
        assert(evs.take(n) =~= evs);
    } else {
        assert(evs.take(n + 1).drop_last() =~= evs.take(n));
        lemma_count_kind_prefix(evs, kind, n + 1);
    }
}

/// The (commit, pull-request, issue) totals the activity phase reaches on a
/// pre-fetched feed, read from page index `page` on: pages are consumed in
/// order, at most MAX_EVENT_PAGES of them, stopping at the first empty or
/// missing page.
pub open spec fn feed_counts(pages: Seq<Seq<EventRecord>>, page: int) -> (int, int, int)
    decreases MAX_EVENT_PAGES + 1 - page,
{
    if page < 1 || page > MAX_EVENT_PAGES || page > pages.len() || pages[page - 1].len() == 0 {
        (0, 0, 0)
    } else {
        let rest = feed_counts(pages, page + 1);
        (
            sum_push(pages[page - 1]) + rest.0,
            count_kind(pages[page - 1], EventKind::PullRequest) + rest.1,
            count_kind(pages[page - 1], EventKind::Issue) + rest.2,
        )
    }
}

proof fn lemma_feed_counts_nonneg(pages: Seq<Seq<EventRecord>>, page: int)
    ensures
        feed_counts(pages, page).0 >= 0,
        feed_counts(pages, page).1 >= 0,
        feed_counts(pages, page).2 >= 0,
    decreases MAX_EVENT_PAGES + 1 - page,
{
    if !(page < 1 || page > MAX_EVENT_PAGES || page > pages.len() || pages[page - 1].len() == 0) {
        lemma_feed_counts_nonneg(pages, page + 1);
        lemma_sum_push_nonneg(pages[page - 1]);
        lemma_count_kind_nonneg(pages[page - 1], EventKind::PullRequest);
        lemma_count_kind_nonneg(pages[page - 1], EventKind::Issue);
    }
}

/// The view of a pre-fetched feed.
pub open spec fn feed_view(pages: Seq<Vec<EventRecord>>) -> Seq<Seq<EventRecord>> {
    pages.map_values(|p: Vec<EventRecord>| p@)
}

/// Run the whole activity phase over a pre-fetched feed: page `p` is
/// `pages[p - 1]`, a missing page reading as empty. The counters come out
/// exactly as `feed_counts` states: summed over at most MAX_EVENT_PAGES
/// pages, stopping at the first empty page.
pub fn scan_event_pages(pages: &Vec<Vec<EventRecord>>) -> (r: ActivityScan)
    requires
        feed_counts(feed_view(pages@), 1).0 <= u64::MAX,
        feed_counts(feed_view(pages@), 1).1 <= u64::MAX,
        feed_counts(feed_view(pages@), 1).2 <= u64::MAX,
    ensures
        r.commits == feed_counts(feed_view(pages@), 1).0,
        r.pull_requests == feed_counts(feed_view(pages@), 1).1,
        r.issues == feed_counts(feed_view(pages@), 1).2,
{
    let ghost pview = feed_view(pages@);
    let mut scan = ActivityScan::new();
    while !scan.done && scan.page <= MAX_EVENT_PAGES
        invariant
            pview == feed_view(pages@),
            1 <= scan.page <= MAX_EVENT_PAGES + 1,
            scan.commits + (if scan.done {
                0int
            } else {
                feed_counts(pview, scan.page as int).0
            }) == feed_counts(pview, 1).0,
            scan.pull_requests + (if scan.done {
                0int
            } else {
                feed_counts(pview, scan.page as int).1
            }) == feed_counts(pview, 1).1,
            scan.issues + (if scan.done {
                0int
            } else {
                feed_counts(pview, scan.page as int).2
            }) == feed_counts(pview, 1).2,
            feed_counts(pview, 1).0 <= u64::MAX,
            feed_counts(pview, 1).1 <= u64::MAX,
            feed_counts(pview, 1).2 <= u64::MAX,
        decreases MAX_EVENT_PAGES + 1 - scan.page + (if scan.done {
            0int
        } else {
            1int
        }),
    {
        let idx = scan.page - 1;
        proof {
            lemma_feed_counts_nonneg(pview, scan.page as int);
            lemma_feed_counts_nonneg(pview, scan.page + 1);
            if idx < pages@.len() {
                assert(pview[idx as int] == pages@[idx as int]@);
                lemma_sum_push_nonneg(pview[idx as int]);
                lemma_count_kind_nonneg(pview[idx as int], EventKind::PullRequest);
                lemma_count_kind_nonneg(pview[idx as int], EventKind::Issue);
            }
        }
        if idx < pages.len() {
            scan.process_event_page(&pages[idx]);
        } else {
            let empty_page: Vec<EventRecord> = Vec::new();
            scan.process_event_page(&empty_page);
        }
    }
    proof {
        if !scan.done {
            assert(feed_counts(pview, scan.page as int) == (0int, 0int, 0int));
        }
    }
    scan
}

/// A repository qualifies for aggregation when it is neither a fork nor
/// archived.
pub open spec fn qualifies(r: RepoRecord) -> bool {
    !r.fork && !r.archived
}

/// The repositories of one page, from index `i` on, that the aggregator
/// processes when `count` of them have been taken before: qualifying items
/// in page order, cut off as soon as taking one more would pass the cap.
pub open spec fn select_from(page: Seq<RepoRecord>, i: int, count: int) -> Seq<RepoRecord>
    decreases page.len() - i,
{
    if !(0 <= i < page.len()) {
        Seq::empty()
    } else if !qualifies(page[i]) {
        select_from(page, i + 1, count)
    } else if count + 1 > MAX_REPOS {
        Seq::empty()
    } else {
        seq![page[i]] + select_from(page, i + 1, count + 1)
    }
}

/// The repositories of a whole page that the aggregator processes.
pub open spec fn selected_repos(page: Seq<RepoRecord>, count: int) -> Seq<RepoRecord> {
    select_from(page, 0, count)
}

/// The qualifying-repository counter after one page, mirroring the cut-off:
/// the counter steps once past the cap when the cap trips mid-page.
pub open spec fn count_from(page: Seq<RepoRecord>, i: int, count: int) -> int
    decreases page.len() - i,
{
    if !(0 <= i < page.len()) {
        count
    } else if !qualifies(page[i]) {
        count_from(page, i + 1, count)
    } else if count + 1 > MAX_REPOS {
        count + 1
    } else {
        count_from(page, i + 1, count + 1)
    }
}

/// The qualifying-repository counter after a whole page.
pub open spec fn count_after(page: Seq<RepoRecord>, count: int) -> int {
    count_from(page, 0, count)
}

/// Sum of the star counts of a sequence of repositories.
pub open spec fn sum_stars(repos: Seq<RepoRecord>) -> int
    decreases repos.len(),
{
    if repos.len() == 0 {
        0
    } else {
        sum_stars(repos.drop_last()) + repos.last().stargazers_count
    }
}

/// The (owner, name) references of a sequence of repositories, pairwise: a
/// list of owned pairs carries them when it has one matching pair per
/// repository.
pub open spec fn refs_match(out: Seq<(String, String)>, repos: Seq<RepoRecord>) -> bool {
    &&& out.len() == repos.len()
    &&& forall|k: int|
        0 <= k < out.len() ==> (#[trigger] out[k]).0@ == repos[k].owner@ && out[k].1@
            == repos[k].name@
}

proof fn lemma_sum_stars_singleton(r: RepoRecord)
    ensures
        sum_stars(seq![r]) == r.stargazers_count,
{
    assert(seq![r].drop_last() =~= Seq::<RepoRecord>::empty());
    assert(sum_stars(Seq::<RepoRecord>::empty()) == 0);
    assert(seq![r].last() == r);
}

proof fn lemma_sum_stars_nonneg(repos: Seq<RepoRecord>)
    ensures
        sum_stars(repos) >= 0,
    decreases repos.len(),
{
    if repos.len() > 0 {
        lemma_sum_stars_nonneg(repos.drop_last());
    }
}

proof fn lemma_sum_stars_concat(a: Seq<RepoRecord>, b: Seq<RepoRecord>)
    ensures
        sum_stars(a + b) == sum_stars(a) + sum_stars(b),
    decreases b.len(),
{
    if b.len() == 0 {
        assert(a + b =~= a);
    } else {
        assert((a + b).drop_last() =~= a + b.drop_last());
        assert((a + b).last() == b.last());
        lemma_sum_stars_concat(a, b.drop_last());
    }
}

/// Every repository the selection takes qualifies: items flagged fork or
/// archived are excluded, whatever the page and the running count.
pub proof fn lemma_selected_qualify(page: Seq<RepoRecord>, i: int, count: int)
    ensures
        forall|k: int|
            0 <= k < select_from(page, i, count).len() ==> qualifies(
                #[trigger] select_from(page, i, count)[k],
            ),
    decreases page.len() - i,
{
    if 0 <= i < page.len() {
        if !qualifies(page[i]) {
            lemma_selected_qualify(page, i + 1, count);
            assert forall|k: int| 0 <= k < select_from(page, i, count).len() implies qualifies(
                select_from(page, i, count)[k],
            ) by {
                assert(select_from(page, i, count)[k] == select_from(page, i + 1, count)[k]);
                assert(qualifies(select_from(page, i + 1, count)[k]));
            }
        } else if count + 1 <= MAX_REPOS {
            lemma_selected_qualify(page, i + 1, count + 1);
            let s = seq![page[i]] + select_from(page, i + 1, count + 1);
            assert(select_from(page, i, count) == s);
            assert forall|k: int| 0 <= k < select_from(page, i, count).len() implies qualifies(
                select_from(page, i, count)[k],
            ) by {
                if k == 0 {
                    assert(s[0] == page[i]);
                } else {
                    assert(s[k] == select_from(page, i + 1, count + 1)[k - 1]);
                    assert(qualifies(select_from(page, i + 1, count + 1)[k - 1]));
                }
                assert(select_from(page, i, count)[k] == s[k]);
            }
        }
    }
}

/// The cap: a selection that starts with `count` repositories taken never
/// brings the total processed past the cap.
pub proof fn lemma_repo_cap(page: Seq<RepoRecord>, i: int, count: int)
    requires
        0 <= count <= MAX_REPOS,
    ensures
        count + select_from(page, i, count).len() <= MAX_REPOS,
    decreases page.len() - i,
{
    if 0 <= i < page.len() {
        if !qualifies(page[i]) {
            lemma_repo_cap(page, i + 1, count);
        } else if count + 1 <= MAX_REPOS {
            lemma_repo_cap(page, i + 1, count + 1);
        }
    }
}

/// A language map as the contracts see it: (name, cumulative byte count)
/// pairs in first-encounter order.
pub open spec fn lang_view(s: Seq<(String, u64)>) -> Seq<(Seq<char>, int)> {
    s.map_values(|p: (String, u64)| (p.0@, p.1 as int))
}

/// Well-formedness of a language map: names unique, no zero-byte entries.
pub open spec fn langs_wf(m: Seq<(Seq<char>, int)>) -> bool {
    &&& forall|i: int, j: int| 0 <= i < j < m.len() ==> (#[trigger] m[i]).0 != (#[trigger] m[j]).0
    &&& forall|i: int| 0 <= i < m.len() ==> (#[trigger] m[i]).1 >= 1
}

/// Index of `name` in a language map, or -1 when absent.
pub open spec fn find_lang(m: Seq<(Seq<char>, int)>, name: Seq<char>) -> int
    decreases m.len(),
{
    if m.len() == 0 {
        -1
    } else if m[0].0 == name {
        0
    } else {
        let r = find_lang(m.drop_first(), name);
        if r < 0 {
            -1
        } else {
            r + 1
        }
    }
}

/// Merging one (name, size) pair: add to the entry of the same name, or
/// append a fresh entry at the end.
pub open spec fn merge_one(m: Seq<(Seq<char>, int)>, name: Seq<char>, size: int) -> Seq<
    (Seq<char>, int),
> {
    let i = find_lang(m, name);
    if i < 0 {
        m.push((name, size))
    } else {
        m.update(i, (m[i].0, m[i].1 + size))
    }
}

/// Merging one pair, dropping zero-byte entries.
pub open spec fn merge_step(m: Seq<(Seq<char>, int)>, p: (Seq<char>, int)) -> Seq<
    (Seq<char>, int),
> {
    if p.1 == 0 {
        m
    } else {
        merge_one(m, p.0, p.1)
    }
}

/// Merging a page of (language, byte-size) pairs, left to right.
pub open spec fn merge_pairs(m: Seq<(Seq<char>, int)>, pairs: Seq<(Seq<char>, int)>) -> Seq<
    (Seq<char>, int),
>
    decreases pairs.len(),
{
    if pairs.len() == 0 {
        m
    } else {
        merge_step(merge_pairs(m, pairs.drop_last()), pairs.last())
    }
}

/// Machine bound for one merge: the touched cumulative count stays a u64.
pub open spec fn entry_fits(m: Seq<(Seq<char>, int)>, name: Seq<char>, size: int) -> bool {
    find_lang(m, name) < 0 || m[find_lang(m, name)].1 + size <= u64::MAX
}

/// Machine bound for a page merge: every step keeps its count a u64.
pub open spec fn merge_fits(m: Seq<(Seq<char>, int)>, pairs: Seq<(Seq<char>, int)>) -> bool
    decreases pairs.len(),
{
    if pairs.len() == 0 {
        true
    } else {
        merge_fits(m, pairs.drop_last()) && (pairs.last().1 == 0 || entry_fits(
            merge_pairs(m, pairs.drop_last()),
            pairs.last().0,
            pairs.last().1,
        ))
    }
}

proof fn lemma_find_lang(m: Seq<(Seq<char>, int)>, name: Seq<char>)
    ensures
        -1 <= find_lang(m, name) < m.len(),
        find_lang(m, name) >= 0 ==> m[find_lang(m, name)].0 == name,
        find_lang(m, name) >= 0 ==> forall|k: int|
            0 <= k < find_lang(m, name) ==> (#[trigger] m[k]).0 != name,
        find_lang(m, name) < 0 ==> forall|k: int| 0 <= k < m.len() ==> (#[trigger] m[k]).0 != name,
    decreases m.len(),
{
    if m.len() > 0 && m[0].0 != name {
        lemma_find_lang(m.drop_first(), name);
        assert forall|k: int| 1 <= k < m.len() implies m[k] == m.drop_first()[k - 1] by {}
    }
}

proof fn lemma_merge_one_wf(m: Seq<(Seq<char>, int)>, name: Seq<char>, size: int)
    requires
        langs_wf(m),
        1 <= size,
    ensures
        langs_wf(merge_one(m, name, size)),
{
    lemma_find_lang(m, name);
}

proof fn lemma_merge_fits_prefix(m: Seq<(Seq<char>, int)>, pairs: Seq<(Seq<char>, int)>, j: int)
    requires
        merge_fits(m, pairs),
        0 <= j < pairs.len(),
    ensures
        pairs[j].1 == 0 || entry_fits(merge_pairs(m, pairs.take(j)), pairs[j].0, pairs[j].1),
    decreases pairs.len(),
{
    if j == pairs.len() - 1 {
        assert(pairs.take(j) =~= pairs.drop_last());
    } else {
        assert(pairs.drop_last().take(j) =~= pairs.take(j));
        lemma_merge_fits_prefix(m, pairs.drop_last(), j);
    }
}

/// Running state of the repository phase: the cumulative language map, the
/// star total, the qualifying-repository counter, the next page index, and
/// whether paging has ended.
pub struct RepoScan {
    pub languages: Vec<(String, u64)>,
    pub stars_total: u64,
    pub repo_count: usize,
    pub page: usize,
    pub done: bool,
}

impl RepoScan {
    /// The language map as the contracts see it.
    pub open spec fn langs(&self) -> Seq<(Seq<char>, int)> {
        lang_view(self.languages@)
    }

    /// Reachable-state invariant: the language map is well formed, and while
    /// paging goes on the counter is under the cap.
    pub open spec fn wf(&self) -> bool {
        langs_wf(self.langs()) && (self.done || self.repo_count < MAX_REPOS)
    }

    pub fn new() -> (r: RepoScan)
        ensures
            r.languages@.len() == 0,
            r.stars_total == 0,
            r.repo_count == 0,
            r.page == 1,
            !r.done,
            r.wf(),
    {
        RepoScan { languages: Vec::new(), stars_total: 0, repo_count: 0, page: 1, done: false }
    }

    /// Whether another repository page should be requested.
    pub fn should_fetch(&self) -> (r: bool)
        ensures
            r == !self.done,
    {
        !self.done
    }

    /// Take one page of the repository listing: skip forks and archived
    /// items, count and take stars from the rest up to the cap, and return
    /// the (owner, name) references whose languages are to be looked up.
    /// An empty page, or a page that reaches the cap, ends paging.
    pub fn select_repos(&mut self, page: &Vec<RepoRecord>) -> (r: Vec<(String, String)>)
        requires
            old(self).wf(),
            !old(self).done,
            old(self).page < usize::MAX,
            old(self).stars_total + sum_stars(selected_repos(page@, old(self).repo_count as int))
                <= u64::MAX,
        ensures
            final(self).wf(),
            final(self).languages == old(self).languages,
            page@.len() == 0 ==> *final(self) == (RepoScan { done: true, ..*old(self) })
                && r@.len() == 0,
            page@.len() > 0 ==> {
                &&& final(self).repo_count == count_after(page@, old(self).repo_count as int)
                &&& final(self).stars_total == old(self).stars_total + sum_stars(
                    selected_repos(page@, old(self).repo_count as int),
                )
                &&& refs_match(r@, selected_repos(page@, old(self).repo_count as int))
                &&& final(self).done == (count_after(page@, old(self).repo_count as int)
                    >= MAX_REPOS)
                &&& final(self).page == if count_after(page@, old(self).repo_count as int)
                    >= MAX_REPOS {
                    old(self).page as int
                } else {
                    old(self).page + 1
                }
            },
    {
        let mut out: Vec<(String, String)> = Vec::new();
        if page.len() == 0 {
            self.done = true;
            return out;
        }
        let ghost c0 = old(self).repo_count as int;
        let ghost all = selected_repos(page@, c0);
        let ghost mut sel: Seq<RepoRecord> = Seq::empty();
        let mut i: usize = 0;
        let mut tripped = false;
        while i < page.len() && !tripped
            invariant
                0 <= i <= page@.len(),
                self.languages == old(self).languages,
                self.page == old(self).page,
                self.done == old(self).done,
                old(self).wf(),
                c0 == old(self).repo_count,
                all == selected_repos(page@, c0),
                old(self).stars_total + sum_stars(all) <= u64::MAX,
                !tripped ==> {
                    &&& sel + select_from(page@, i as int, self.repo_count as int) == all
                    &&& count_from(page@, i as int, self.repo_count as int) == count_after(
                        page@,
                        c0,
                    )
                    &&& c0 <= self.repo_count <= MAX_REPOS
                },
                tripped ==> {
                    &&& sel == all
                    &&& self.repo_count == count_after(page@, c0)
                    &&& self.repo_count == MAX_REPOS + 1
                },
                self.stars_total == old(self).stars_total + sum_stars(sel),
                refs_match(out@, sel),
            decreases page@.len() - i,
        {
            let fork = page[i].fork;
            let archived = page[i].archived;
            if !fork && !archived {
                if self.repo_count + 1 > MAX_REPOS {
                    self.repo_count = self.repo_count + 1;
                    tripped = true;
                } else {
                    proof {
                        assert(select_from(page@, i as int, self.repo_count as int) == seq![
                            page@[i as int],
                        ] + select_from(page@, i + 1, self.repo_count + 1));
                        lemma_sum_stars_concat(sel, select_from(
                            page@,
                            i as int,
                            self.repo_count as int,
                        ));
                        lemma_sum_stars_concat(
                            seq![page@[i as int]],
                            select_from(page@, i + 1, self.repo_count + 1),
                        );
                        lemma_sum_stars_nonneg(select_from(page@, i + 1, self.repo_count + 1));
                        lemma_sum_stars_singleton(page@[i as int]);
                        assert(sel.push(page@[i as int]) =~= sel + seq![page@[i as int]]);
                        lemma_sum_stars_concat(sel, seq![page@[i as int]]);
                    }
                    self.repo_count = self.repo_count + 1;
                    self.stars_total = self.stars_total + page[i].stargazers_count;
                    out.push((page[i].owner.clone(), page[i].name.clone()));
                    proof {
                        let pg = page@[i as int];
                        let rest = select_from(page@, i + 1, self.repo_count as int);
                        let sel_old = sel;
                        sel = sel.push(pg);
                        assert(all == sel_old + (seq![pg] + rest));
                        assert(sel_old + (seq![pg] + rest) =~= sel + rest);
                        assert(sel + rest == all);
                        assert(refs_match(out@, sel));
                    }
                }
                i = i + 1;
            } else {
                i = i + 1;
            }
        }
        proof {
            if !tripped {
                assert(select_from(page@, page@.len() as int, self.repo_count as int)
                    =~= Seq::<RepoRecord>::empty());
                assert(sel + Seq::<RepoRecord>::empty() =~= sel);
            }
        }
        if self.repo_count >= MAX_REPOS {
            self.done = true;
        } else {
            self.page = self.page + 1;
        }
        out
    }

    /// Merge one repository's (language, byte-size) listing into the
    /// cumulative map: zero-byte entries are dropped, known names add to
    /// their count, new names append in encounter order.
    pub fn merge_languages(&mut self, pairs: &Vec<(String, u64)>)
        requires
            old(self).wf(),
            merge_fits(old(self).langs(), lang_view(pairs@)),
        ensures
            final(self).wf(),
            final(self).langs() == merge_pairs(old(self).langs(), lang_view(pairs@)),
            final(self).stars_total == old(self).stars_total,
            final(self).repo_count == old(self).repo_count,
            final(self).page == old(self).page,
            final(self).done == old(self).done,
    {
        let ghost m0 = old(self).langs();
        let ghost pview = lang_view(pairs@);
        let mut j: usize = 0;
        while j < pairs.len()
            invariant
                0 <= j <= pairs@.len(),
                pview == lang_view(pairs@),
                m0 == old(self).langs(),
                merge_fits(m0, pview),
                langs_wf(self.langs()),
                self.langs() == merge_pairs(m0, pview.take(j as int)),
                self.stars_total == old(self).stars_total,
                self.repo_count == old(self).repo_count,
                self.page == old(self).page,
                self.done == old(self).done,
            decreases pairs@.len() - j,
        {
            let size = pairs[j].1;
            proof {
                assert(pview[j as int] == (pairs@[j as int].0@, pairs@[j as int].1 as int));
                assert(pview.take(j + 1).drop_last() =~= pview.take(j as int));
                assert(pview.take(j + 1).last() == pview[j as int]);
                lemma_merge_fits_prefix(m0, pview, j as int);
            }
            if size > 0 {
                let name = pairs[j].0.clone();
                self.merge_entry(&name, size);
                proof {
                    assert(name@ == pview[j as int].0);
                }
            }
            j = j + 1;
        }
        proof {
            assert(pview.take(pairs@.len() as int) =~= pview);
        }
    }

    /// Merge a single positive (name, size) pair.
    fn merge_entry(&mut self, name: &String, size: u64)
        requires
            langs_wf(old(self).langs()),
            1 <= size,
            entry_fits(old(self).langs(), name@, size as int),
        ensures
            langs_wf(final(self).langs()),
            final(self).langs() == merge_one(old(self).langs(), name@, size as int),
            final(self).stars_total == old(self).stars_total,
            final(self).repo_count == old(self).repo_count,
            final(self).page == old(self).page,
            final(self).done == old(self).done,
    {
        let ghost m0 = old(self).langs();
        let mut i: usize = 0;
        let n = self.languages.len();
        while i < n
            invariant
                0 <= i <= n,
                n == self.languages@.len(),
                *self == *old(self),
                m0 == old(self).langs(),
                langs_wf(m0),
                1 <= size,
                entry_fits(m0, name@, size as int),
                forall|k: int| 0 <= k < i ==> (#[trigger] m0[k]).0 != name@,
            decreases n - i,
        {
            if self.languages[i].0 == *name {
                proof {
                    lemma_find_lang(m0, name@);
                    lemma_merge_one_wf(m0, name@, size as int);
                    assert(m0[i as int] == (self.languages@[i as int].0@, self.languages@[i
                        as int].1 as int));
                    assert(m0[i as int].0 == name@);
                    assert(find_lang(m0, name@) == i);
                }
                let entry = self.languages.remove(i);
                self.languages.insert(i, (entry.0, entry.1 + size));
                proof {
                    assert(self.langs() =~= merge_one(m0, name@, size as int));
                }
                return ;
            }
            i = i + 1;
        }
        proof {
            lemma_find_lang(m0, name@);
            lemma_merge_one_wf(m0, name@, size as int);
            assert(find_lang(m0, name@) < 0);
        }
        self.languages.push((name.clone(), size));
        proof {
            assert(self.langs() =~= merge_one(m0, name@, size as int));
        }
    }
}

} // verus!

verus! {

/// Where a pair of the given byte count is inserted into a ranked map: the
/// first position whose entry has strictly fewer bytes, so that a tie lands
/// after every earlier-encountered equal entry.
pub open spec fn insert_pos(m: Seq<(Seq<char>, int)>, size: int) -> int
    decreases m.len(),
{
    if m.len() == 0 {
        0
    } else if m[0].1 < size {
        0
    } else {
        1 + insert_pos(m.drop_first(), size)
    }
}

/// One stable-insertion step of the ranking.
pub open spec fn insert_ranked(m: Seq<(Seq<char>, int)>, p: (Seq<char>, int)) -> Seq<
    (Seq<char>, int),
> {
    m.insert(insert_pos(m, p.1), p)
}

/// The ranked language sequence: entries sorted by descending byte count,
/// ties keeping their first-encounter order, obtained by stable insertion
/// from left to right.
pub open spec fn rank_languages(m: Seq<(Seq<char>, int)>) -> Seq<(Seq<char>, int)>
    decreases m.len(),
{
    if m.len() == 0 {
        Seq::empty()
    } else {
        insert_ranked(rank_languages(m.drop_last()), m.last())
    }
}

/// Sortedness by non-increasing byte count.
pub open spec fn ranked_desc(m: Seq<(Seq<char>, int)>) -> bool {
    forall|i: int, j: int| 0 <= i < j < m.len() ==> (#[trigger] m[i]).1 >= (#[trigger] m[j]).1
}

proof fn lemma_insert_pos(m: Seq<(Seq<char>, int)>, size: int)
    ensures
        0 <= insert_pos(m, size) <= m.len(),
        forall|k: int| 0 <= k < insert_pos(m, size) ==> (#[trigger] m[k]).1 >= size,
        insert_pos(m, size) < m.len() ==> m[insert_pos(m, size)].1 < size,
    decreases m.len(),
{
    if m.len() > 0 && !(m[0].1 < size) {
        lemma_insert_pos(m.drop_first(), size);
        let p = insert_pos(m, size);
        assert forall|k: int| 0 <= k < p implies (#[trigger] m[k]).1 >= size by {
            if k > 0 {
                assert(m.drop_first()[k - 1] == m[k]);
            }
        }
        if p < m.len() {
            assert(m.drop_first()[p - 1] == m[p]);
        }
    }
}

proof fn lemma_insert_pos_unique(m: Seq<(Seq<char>, int)>, size: int, pos: int)
    requires
        0 <= pos <= m.len(),
        forall|k: int| 0 <= k < pos ==> (#[trigger] m[k]).1 >= size,
        pos < m.len() ==> m[pos].1 < size,
    ensures
        insert_pos(m, size) == pos,
    decreases m.len(),
{
    if pos == 0 {
    } else {
        assert(m[0].1 >= size);
        assert forall|k: int| 0 <= k < pos - 1 implies (#[trigger] m.drop_first()[k]).1
            >= size by {
            assert(m.drop_first()[k] == m[k + 1]);
        }
        if pos - 1 < m.drop_first().len() {
            assert(m.drop_first()[pos - 1] == m[pos]);
        }
        lemma_insert_pos_unique(m.drop_first(), size, pos - 1);
    }
}

proof fn lemma_insert_ranked_sorted(m: Seq<(Seq<char>, int)>, p: (Seq<char>, int))
    requires
        ranked_desc(m),
    ensures
        ranked_desc(insert_ranked(m, p)),
{
    lemma_insert_pos(m, p.1);
    let ip = insert_pos(m, p.1);
    m.insert_ensures(ip, p);
    let r = insert_ranked(m, p);
    assert forall|i: int, j: int| 0 <= i < j < r.len() implies (#[trigger] r[i]).1
        >= (#[trigger] r[j]).1 by {
        if i < ip {
            assert(r[i] == m[i]);
        } else if i == ip {
            assert(r[i] == p);
        } else {
            assert(r[i] == m[i - 1]);
        }
        if j < ip {
            assert(r[j] == m[j]);
        } else if j == ip {
            assert(r[j] == p);
        } else {
            assert(r[j] == m[j - 1]);
        }
    }
}

/// The ranking is sorted by non-increasing byte count, keeps the length of
/// its input, and draws every entry from its input.
pub proof fn lemma_rank_languages_elems(m: Seq<(Seq<char>, int)>)
    ensures
        ranked_desc(rank_languages(m)),
        rank_languages(m).len() == m.len(),
        forall|k: int| 0 <= k < m.len() ==> m.contains(#[trigger] rank_languages(m)[k]),
    decreases m.len(),
{
    if m.len() > 0 {
        lemma_rank_languages_elems(m.drop_last());
        let r0 = rank_languages(m.drop_last());
        let p = m.last();
        lemma_insert_ranked_sorted(r0, p);
        lemma_insert_pos(r0, p.1);
        let ip = insert_pos(r0, p.1);
        r0.insert_ensures(ip, p);
        assert forall|k: int| 0 <= k < rank_languages(m).len() implies m.contains(
            #[trigger] rank_languages(m)[k],
        ) by {
            let e = rank_languages(m)[k];
            if k == ip {
                assert(e == p);
                assert(m[m.len() - 1] == p);
            } else {
                let e0 = if k < ip {
                    r0[k]
                } else {
                    r0[k - 1]
                };
                assert(e == e0);
                assert(m.drop_last().contains(e0));
                let j = choose|j: int|
                    0 <= j < m.drop_last().len() && m.drop_last()[j] == e0;
                assert(m[j] == e0);
            }
        }
    }
}

proof fn lemma_insert_ranked_multiset(m: Seq<(Seq<char>, int)>, p: (Seq<char>, int))
    ensures
        insert_ranked(m, p).to_multiset() == m.to_multiset().insert(p),
{
    broadcast use vstd::seq_lib::group_to_multiset_ensures;

    lemma_insert_pos(m, p.1);
    let ip = insert_pos(m, p.1);
    let r = insert_ranked(m, p);
    m.insert_ensures(ip, p);
    assert(r.remove(ip) =~= m);
    assert(r.to_multiset().remove(r[ip]) =~= m.to_multiset());
    assert(r.contains(p)) by {
        assert(r[ip] == p);
    }
    assert(r.to_multiset().count(p) > 0);
    assert(r.to_multiset() =~= m.to_multiset().insert(p));
}

/// The ranking is a permutation: it holds exactly the entries of its input.
pub proof fn lemma_rank_languages_multiset(m: Seq<(Seq<char>, int)>)
    ensures
        rank_languages(m).to_multiset() == m.to_multiset(),
    decreases m.len(),
{
    broadcast use vstd::seq_lib::group_to_multiset_ensures;

    if m.len() > 0 {
        lemma_rank_languages_multiset(m.drop_last());
        lemma_insert_ranked_multiset(rank_languages(m.drop_last()), m.last());
        assert(m =~= m.drop_last().push(m.last()));
        assert(m.to_multiset() =~= m.drop_last().to_multiset().insert(m.last()));
    }
}

/// The ranking keeps names unique: when no two entries of the input share
/// a name, no two entries of the ranked sequence do either.
pub proof fn lemma_rank_languages_unique_names(m: Seq<(Seq<char>, int)>)
    requires
        forall|i: int, j: int|
            0 <= i < j < m.len() ==> (#[trigger] m[i]).0 != (#[trigger] m[j]).0,
    ensures
        forall|i: int, j: int|
            0 <= i < j < rank_languages(m).len() ==> (#[trigger] rank_languages(m)[i]).0 != (
            #[trigger] rank_languages(m)[j]).0,
{
    let r = rank_languages(m);
    lemma_rank_languages_elems(m);
    lemma_rank_languages_multiset(m);
    assert(m.no_duplicates()) by {
        assert forall|i: int, j: int| 0 <= i < m.len() && 0 <= j < m.len() && i != j implies m[i]
            != m[j] by {
            if i < j {
                assert(m[i].0 != m[j].0);
            } else {
                assert(m[j].0 != m[i].0);
            }
        }
    }
    m.lemma_multiset_has_no_duplicates();
    r.lemma_multiset_has_no_duplicates_conv();
    assert forall|i: int, j: int| 0 <= i < j < r.len() implies r[i].0 != r[j].0 by {
        assert(r[i] != r[j]);
        assert(m.contains(r[i]));
        assert(m.contains(r[j]));
        if r[i].0 == r[j].0 {
            let ja = choose|ja: int| 0 <= ja < m.len() && m[ja] == r[i];
            let jb = choose|jb: int| 0 <= jb < m.len() && m[jb] == r[j];
            assert(ja != jb);
            assert(m[ja].0 != m[jb].0);
        }
    }
}

/// No zero-byte entry appears in the ranked sequence when none appears in
/// the input, and the ranked sequence is sorted by non-increasing count.
pub proof fn lemma_rank_languages_ranked(m: Seq<(Seq<char>, int)>)
    requires
        forall|i: int| 0 <= i < m.len() ==> (#[trigger] m[i]).1 >= 1,
    ensures
        ranked_desc(rank_languages(m)),
        rank_languages(m).len() == m.len(),
        forall|k: int|
            0 <= k < rank_languages(m).len() ==> (#[trigger] rank_languages(m)[k]).1 >= 1,
{
    lemma_rank_languages_elems(m);
    assert forall|k: int| 0 <= k < rank_languages(m).len() implies (
    #[trigger] rank_languages(m)[k]).1 >= 1 by {
        let e = rank_languages(m)[k];
        assert(m.contains(e));
        let j = choose|j: int| 0 <= j < m.len() && m[j] == e;
        assert(m[j].1 >= 1);
    }
}

impl RepoScan {
    /// Assemble the summary: the cumulative language map ranked by
    /// descending byte count (ties keeping first-encounter order), the star
    /// total, and the activity counters.
    pub fn into_summary(self, activity: &ActivityScan) -> (r: GitHubSummary)
        ensures
            lang_view(r.languages@) == rank_languages(lang_view(self.languages@)),
            r.stars_total == self.stars_total,
            r.commits == activity.commits,
            r.pull_requests == activity.pull_requests,
            r.issues == activity.issues,
    {
        let ghost v = lang_view(self.languages@);
        let mut ranked: Vec<(String, u64)> = Vec::new();
        let mut idx: usize = 0;
        while idx < self.languages.len()
            invariant
                0 <= idx <= self.languages@.len(),
                v == lang_view(self.languages@),
                lang_view(ranked@) == rank_languages(v.take(idx as int)),
                ranked@.len() == idx,
            decreases self.languages@.len() - idx,
        {
            let name = self.languages[idx].0.clone();
            let size = self.languages[idx].1;
            let ghost r0 = lang_view(ranked@);
            let mut pos: usize = 0;
            while pos < ranked.len() && ranked[pos].1 >= size
                invariant
                    0 <= pos <= ranked@.len(),
                    r0 == lang_view(ranked@),
                    forall|k: int| 0 <= k < pos ==> (#[trigger] r0[k]).1 >= size,
                decreases ranked@.len() - pos,
            {
                proof {
                    assert(r0[pos as int] == (ranked@[pos as int].0@, ranked@[pos as int].1
                        as int));
                }
                pos = pos + 1;
            }
            let ghost name_v = name@;
            let ghost before = ranked@;
            let ghost p = (name_v, size as int);
            proof {
                if pos < ranked@.len() {
                    assert(r0[pos as int] == (ranked@[pos as int].0@, ranked@[pos as int].1
                        as int));
                }
                lemma_insert_pos_unique(r0, size as int, pos as int);
                r0.insert_ensures(pos as int, p);
            }
            ranked.insert(pos, (name, size));
            proof {
                assert(p == v[idx as int]);
                assert(ranked@[pos as int].0@ == name_v && ranked@[pos as int].1 == size);
                assert forall|k: int| 0 <= k < ranked@.len() implies lang_view(ranked@)[k]
                    == insert_ranked(r0, p)[k] by {
                    assert(lang_view(ranked@)[k] == (ranked@[k].0@, ranked@[k].1 as int));
                    if k < pos {
                        assert(ranked@[k] == before[k]);
                        assert(r0[k] == (before[k].0@, before[k].1 as int));
                        assert(insert_ranked(r0, p)[k] == r0[k]);
                    } else if k == pos {
                        assert(insert_ranked(r0, p)[k] == p);
                    } else {
                        assert(ranked@[k] == before[k - 1]);
                        assert(r0[k - 1] == (before[k - 1].0@, before[k - 1].1 as int));
                        assert(insert_ranked(r0, p)[k] == r0[k - 1]);
                    }
                }
                assert(lang_view(ranked@) =~= insert_ranked(r0, p));
                assert(v.take(idx + 1).drop_last() =~= v.take(idx as int));
                assert(v.take(idx + 1).last() == p);
                assert(rank_languages(v.take(idx + 1)) == insert_ranked(r0, p));
            }
            idx = idx + 1;
        }
        proof {
            assert(v.take(self.languages@.len() as int) =~= v);
        }
        GitHubSummary {
            languages: ranked,
            stars_total: self.stars_total,
            commits: activity.commits,
            pull_requests: activity.pull_requests,
            issues: activity.issues,
        }
    }
}

} // verus!
