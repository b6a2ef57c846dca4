//! Verified core of a GitHub statistics card service: bounded aggregation
//! of a user's repositories and public events into a normalized summary,
//! deterministic pie-chart segment geometry, and the cache-orchestration
//! decisions around rendering. Network paging, cache storage and markup
//! generation are driven by the surrounding program; every decision they
//! act on is computed and specified here.

use vstd::prelude::*;

pub mod github;
pub mod render;
pub mod theme;

verus! {

use crate::github::GitHubSummary;
use crate::render::LangSegment;
use crate::render::StatRow;
use crate::render::build_lang_segments;
use crate::render::dec_str;
use crate::render::segment_spec;
use crate::render::sum_sizes;
use crate::render::u64_to_dec;
use crate::theme::Theme;
use vstd::string::StringExecFns;

/// How long a rendered card lives in the value cache, in seconds.
pub const KV_TTL_SECS: u64 = 6 * 60 * 60;

/// Sum of the byte counts of a ranked language list.
pub open spec fn lang_total(langs: Seq<(String, u64)>) -> int
    decreases langs.len(),
{
    if langs.len() == 0 {
        0
    } else {
        lang_total(langs.drop_last()) + langs.last().1
    }
}

proof fn lemma_lang_total_prefix(langs: Seq<(String, u64)>, n: int)
    requires
        0 <= n <= langs.len(),
    ensures
        lang_total(langs.take(n)) <= lang_total(langs),
    decreases langs.len() - n,
{
    if n == langs.len() {
        assert(langs.take(n) =~= langs);
    } else {
        assert(langs.take(n + 1).drop_last() =~= langs.take(n));
        lemma_lang_total_prefix(langs, n + 1);
    }
}

proof fn lemma_prefix_sums_align(t: Seq<(String, String, u64)>, l: Seq<(String, u64)>, i: int)
    requires
        0 <= i <= t.len(),
        i <= l.len(),
        forall|k: int| 0 <= k < i ==> (#[trigger] t[k]).2 == l[k].1,
    ensures
        sum_sizes(t.take(i)) == lang_total(l.take(i)),
    decreases i,
{
    if i > 0 {
        lemma_prefix_sums_align(t, l, i - 1);
        assert(t.take(i).drop_last() =~= t.take(i - 1));
        assert(l.take(i).drop_last() =~= l.take(i - 1));
    }
}

/// The color of the segment at a rank position: a fixed ordered palette,
/// positions past its end falling back to one designated color.
pub open spec fn palette_spec(i: int) -> Seq<char> {
    if i == 0 {
        "#DEA584"@
    } else if i == 1 {
        "#E34C26"@
    } else if i == 2 {
        "#3572A5"@
    } else if i == 3 {
        "#F1E05A"@
    } else if i == 4 {
        "#00ADD8"@
    } else if i == 5 {
        "#9B59B6"@
    } else if i == 6 {
        "#16A085"@
    } else {
        "#95A5A6"@
    }
}

fn palette_color(i: usize) -> (r: String)
    ensures
        r@ == palette_spec(i as int),
{
    if i == 0 {
        String::from_str("#DEA584")
    } else if i == 1 {
        String::from_str("#E34C26")
    } else if i == 2 {
        String::from_str("#3572A5")
    } else if i == 3 {
        String::from_str("#F1E05A")
    } else if i == 4 {
        String::from_str("#00ADD8")
    } else if i == 5 {
        String::from_str("#9B59B6")
    } else if i == 6 {
        String::from_str("#16A085")
    } else {
        String::from_str("#95A5A6")
    }
}

/// Turn a summary into the segments of its pie chart: shares are measured
/// against the byte total of the whole ranked list, only the first `top_n`
/// languages are drawn, and colors come from the palette by rank. An
/// all-zero or empty distribution yields no segments at all.
pub fn build_segments_from_summary(
    summary: &GitHubSummary,
    top_n: usize,
    radius: u32,
    legend_line_height: i32,
) -> (r: Vec<LangSegment>)
    requires
        lang_total(summary.languages@) <= 1_000_000_000_000_000,
        radius <= 1_000_000,
        0 <= legend_line_height,
        top_n * legend_line_height <= i32::MAX,
    ensures
        lang_total(summary.languages@) == 0 ==> r@.len() == 0,
        lang_total(summary.languages@) > 0 ==> {
            &&& r@.len() == (if (top_n as int) < summary.languages@.len() {
                top_n as int
            } else {
                summary.languages@.len() as int
            })
            &&& forall|i: int|
                0 <= i < r@.len() ==> segment_spec(
                    #[trigger] r@[i],
                    summary.languages@[i].0@,
                    palette_spec(i),
                    summary.languages@[i].1 as int,
                    lang_total(summary.languages@.take(i)),
                    lang_total(summary.languages@),
                    radius as int,
                    i,
                    legend_line_height as int,
                )
        },
{
    let langs = &summary.languages;
    let mut tot: u64 = 0;
    let mut i: usize = 0;
    while i < langs.len()
        invariant
            0 <= i <= langs@.len(),
            lang_total(langs@) <= 1_000_000_000_000_000,
            tot == lang_total(langs@.take(i as int)),
            0 <= tot,
        decreases langs@.len() - i,
    {
        proof {
            assert(langs@.take(i + 1).drop_last() =~= langs@.take(i as int));
            assert(langs@.take(i + 1).last() == langs@[i as int]);
            lemma_lang_total_prefix(langs@, i + 1);
        }
        tot = tot + langs[i].1;
        i = i + 1;
    }
    proof {
        assert(langs@.take(langs@.len() as int) =~= langs@);
    }
    if tot == 0 {
        return Vec::new();
    }
    let n = if top_n < langs.len() {
        top_n
    } else {
        langs.len()
    };
    let mut triples: Vec<(String, String, u64)> = Vec::new();
    let mut j: usize = 0;
    while j < n
        invariant
            0 <= j <= n,
            n <= langs@.len(),
            n <= top_n,
            triples@.len() == j,
            forall|k: int|
                0 <= k < j ==> (#[trigger] triples@[k]).0@ == langs@[k].0@ && triples@[k].1@
                    == palette_spec(k) && triples@[k].2 == langs@[k].1,
        decreases n - j,
    {
        triples.push((langs[j].0.clone(), palette_color(j), langs[j].1));
        j = j + 1;
    }
    proof {
        lemma_prefix_sums_align(triples@, langs@, n as int);
        assert(triples@.take(n as int) =~= triples@);
        lemma_lang_total_prefix(langs@, n as int);
        if legend_line_height > 0 {
            vstd::arithmetic::mul::lemma_mul_inequality(
                n as int,
                top_n as int,
                legend_line_height as int,
            );
        } else {
            assert(n as int * (legend_line_height as int) == 0) by (nonlinear_arith)
                requires
                    legend_line_height as int == 0,
            ;
        }
    }
    let segs = build_lang_segments(&triples, tot, radius, legend_line_height);
    proof {
        assert forall|i2: int| 0 <= i2 < segs@.len() implies segment_spec(
            #[trigger] segs@[i2],
            summary.languages@[i2].0@,
            palette_spec(i2),
            summary.languages@[i2].1 as int,
            lang_total(summary.languages@.take(i2)),
            lang_total(summary.languages@),
            radius as int,
            i2,
            legend_line_height as int,
        ) by {
            lemma_prefix_sums_align(triples@, langs@, i2);
        }
    }
    segs
}

/// The five statistic rows of a summary card, in their fixed order, each
/// value the decimal notation of its counter.
pub fn summary_stat_rows(summary: &GitHubSummary) -> (r: Vec<StatRow>)
    ensures
        r@.len() == 5,
        r@[0].label@ == "Stars"@ && r@[0].value@ == dec_str(summary.stars_total as int) && r@[0].dy
            == 0,
        r@[1].label@ == "Commits (year)"@ && r@[1].value@ == dec_str(summary.commits as int)
            && r@[1].dy == 20,
        r@[2].label@ == "Pull Requests"@ && r@[2].value@ == dec_str(summary.pull_requests as int)
            && r@[2].dy == 40,
        r@[3].label@ == "Issues"@ && r@[3].value@ == dec_str(summary.issues as int) && r@[3].dy
            == 60,
        r@[4].label@ == "Languages"@ && r@[4].value@ == dec_str(summary.languages@.len() as int)
            && r@[4].dy == 80,
{
    let mut rows: Vec<StatRow> = Vec::new();
    rows.push(
        StatRow {
            label: String::from_str("Stars"),
            value: u64_to_dec(summary.stars_total),
            dy: 0,
        },
    );
    rows.push(
        StatRow {
            label: String::from_str("Commits (year)"),
            value: u64_to_dec(summary.commits),
            dy: 20,
        },
    );
    rows.push(
        StatRow {
            label: String::from_str("Pull Requests"),
            value: u64_to_dec(summary.pull_requests),
            dy: 40,
        },
    );
    rows.push(
        StatRow {
            label: String::from_str("Issues"),
            value: u64_to_dec(summary.issues),
            dy: 60,
        },
    );
    let lang_count: u64 = summary.languages.len() as u64;
    rows.push(
        StatRow { label: String::from_str("Languages"), value: u64_to_dec(lang_count), dy: 80 },
    );
    rows
}

/// The card title for a user.
pub fn summary_title(user: &String) -> (r: String)
    ensures
        r@ == user@ + " GitHub Stats"@,
{
    let mut s = user.clone();
    s.append(" GitHub Stats");
    s
}

/// The accessibility label for a user's card.
pub fn summary_aria_label(user: &String) -> (r: String)
    ensures
        r@ == "GitHub stats for "@ + user@,
{
    let mut s = String::from_str("GitHub stats for ");
    s.append(user.as_str());
    s
}

/// The normalized value-cache key of a request: the account identifier and
/// both resolved theme colors, any other request detail ignored.
pub open spec fn cache_key_spec(user: Seq<char>, bg: Seq<char>, text: Seq<char>) -> Seq<char> {
    "summary:"@ + user + ":"@ + bg + ":"@ + text
}

/// Derive the value-cache key for a user under a resolved theme.
pub fn value_cache_key(user: &String, theme: &Theme) -> (r: String)
    ensures
        r@ == cache_key_spec(user@, theme.background_color@, theme.text_color@),
{
    let mut s = String::from_str("summary:");
    s.append(user.as_str());
    s.append(":");
    s.append(theme.background_color.as_str());
    s.append(":");
    s.append(theme.text_color.as_str());
    proof {
        assert(s@ =~= cache_key_spec(user@, theme.background_color@, theme.text_color@));
    }
    s
}

/// Why an aggregation failed: the transport failed outright, or the
/// upstream answered outside the success range, with its status and body
/// kept for diagnostics.
pub enum UpstreamError {
    Transport(String),
    Status(u16, String),
}

/// The human-readable message of an upstream failure.
pub open spec fn upstream_error_message_spec(e: UpstreamError) -> Seq<char> {
    match e {
        UpstreamError::Transport(m) => m@,
        UpstreamError::Status(status, body) => "GitHub API error "@ + dec_str(status as int)
            + ": "@ + body@,
    }
}

/// Render an upstream failure as the message of an error card.
pub fn upstream_error_message(err: &UpstreamError) -> (r: String)
    ensures
        r@ == upstream_error_message_spec(*err),
{
    match err {
        UpstreamError::Transport(m) => m.clone(),
        UpstreamError::Status(status, body) => {
            let mut s = String::from_str("GitHub API error ");
            let d = u64_to_dec(*status as u64);
            s.append(d.as_str());
            s.append(": ");
            s.append(body.as_str());
            proof {
                assert(s@ =~= upstream_error_message_spec(*err));
            }
            s
        },
    }
}

/// Whether an upstream status code counts as success.
pub fn status_is_success(status: u16) -> (r: bool)
    ensures
        r == (200 <= status < 300),
{
    200 <= status && status < 300
}

/// One write into the value cache.
pub struct CacheWrite {
    pub key: String,
    pub value: String,
    pub ttl_secs: u64,
}

/// What the handler tells its surroundings to send and to store: the card
/// markup, its content type and cache-control header, whether the response
/// belongs in the edge cache, and at most one value-cache write.
pub struct ResponseDirective {
    pub body: String,
    pub content_type: String,
    pub cache_control: String,
    pub store_edge: bool,
    pub value_store: Option<CacheWrite>,
}

/// A successful card response: long-lived cache directives, stored in the
/// edge cache.
pub open spec fn success_directive(d: ResponseDirective, body: Seq<char>) -> bool {
    &&& d.body@ == body
    &&& d.content_type@ == "image/svg+xml"@
    &&& d.cache_control@ == "public, s-maxage=86400, stale-while-revalidate=3600"@
    &&& d.store_edge
}

/// An error card response: no-store directives and nothing written to
/// either cache tier.
pub open spec fn error_directive(d: ResponseDirective, body: Seq<char>) -> bool {
    &&& d.body@ == body
    &&& d.content_type@ == "image/svg+xml"@
    &&& d.cache_control@ == "no-store"@
    &&& !d.store_edge
    &&& d.value_store is None
}

/// Respond with freshly rendered markup: stored in the edge cache and
/// written to the value cache under the request's key with the fixed TTL.
pub fn finish_success(key: &String, svg: String) -> (r: ResponseDirective)
    ensures
        success_directive(r, svg@),
        r.value_store matches Some(w) && w.key@ == key@ && w.value@ == svg@ && w.ttl_secs
            == KV_TTL_SECS,
{
    let stored = svg.clone();
    ResponseDirective {
        body: svg,
        content_type: String::from_str("image/svg+xml"),
        cache_control: String::from_str("public, s-maxage=86400, stale-while-revalidate=3600"),
        store_edge: true,
        value_store: Some(
            CacheWrite { key: key.clone(), value: stored, ttl_secs: KV_TTL_SECS },
        ),
    }
}

/// Respond with markup found in the value cache: written through to the
/// edge cache, the value cache left untouched.
pub fn respond_from_value_cache(svg: String) -> (r: ResponseDirective)
    ensures
        success_directive(r, svg@),
        r.value_store is None,
{
    ResponseDirective {
        body: svg,
        content_type: String::from_str("image/svg+xml"),
        cache_control: String::from_str("public, s-maxage=86400, stale-while-revalidate=3600"),
        store_edge: true,
        value_store: None,
    }
}

/// Respond with an error card: sent with no-store directives and kept out
/// of both cache tiers, so a transient failure heals on the next request.
pub fn finish_error(svg: String) -> (r: ResponseDirective)
    ensures
        error_directive(r, svg@),
{
    ResponseDirective {
        body: svg,
        content_type: String::from_str("image/svg+xml"),
        cache_control: String::from_str("no-store"),
        store_edge: false,
        value_store: None,
    }
}

/// What to do once the theme is resolved and the edge cache has missed.
pub enum RequestPlan {
    /// No account identifier: render this message as an uncached error card.
    MissingUser(String),
    /// Look the derived key up in the value cache.
    Lookup(String),
}

/// Decide the request's path from its optional account identifier: without
/// one, the fixed error message; with one, the normalized cache key.
pub fn plan_request(user: &Option<String>, theme: &Theme) -> (r: RequestPlan)
    ensures
        match r {
            RequestPlan::MissingUser(msg) => user is None && msg@ == "user is required"@,
            RequestPlan::Lookup(key) => user matches Some(u) && key@ == cache_key_spec(
                u@,
                theme.background_color@,
                theme.text_color@,
            ),
        },
{
    match user {
        None => RequestPlan::MissingUser(String::from_str("user is required")),
        Some(u) => RequestPlan::Lookup(value_cache_key(u, theme)),
    }
}

/// What a value-cache lookup decides.
pub enum LookupPlan {
    /// A hit: respond with the stored markup, written through to the edge
    /// cache only.
    Respond(ResponseDirective),
    /// A miss: aggregate the account's summary upstream.
    FetchSummary,
}

/// What `plan_after_value_lookup` promises of its result.
pub open spec fn lookup_plan_spec(hit: Option<String>, r: LookupPlan) -> bool {
    match r {
        LookupPlan::Respond(d) => hit matches Some(svg) && success_directive(d, svg@)
            && d.value_store is None,
        LookupPlan::FetchSummary => hit is None,
    }
}

/// Decide from a value-cache lookup: a hit is served as stored, a miss
/// goes upstream.
pub fn plan_after_value_lookup(hit: Option<String>) -> (r: LookupPlan)
    ensures
        lookup_plan_spec(hit, r),
{
    match hit {
        Some(svg) => LookupPlan::Respond(respond_from_value_cache(svg)),
        None => LookupPlan::FetchSummary,
    }
}

/// Cache round trip: the markup a successful render stores under a key is
/// exactly what a later hit for that key serves back, and a hit is always
/// answered from the store, never by a new aggregation.
pub proof fn lemma_cache_round_trip(
    d: ResponseDirective,
    hit_value: String,
    plan: LookupPlan,
    svg: Seq<char>,
)
    requires
        success_directive(d, svg),
        d.value_store matches Some(w) && w.value == hit_value && w.value@ == svg,
        lookup_plan_spec(Some(hit_value), plan),
    ensures
        plan matches LookupPlan::Respond(d2) && d2.body@ == svg,
        !(plan is FetchSummary),
{
}

/// An error render is never cached: a directive for an error card stores
/// nothing in the edge cache and nothing in the value cache.
pub proof fn lemma_error_never_cached(d: ResponseDirective, body: Seq<char>)
    requires
        error_directive(d, body),
    ensures
        !d.store_edge,
        d.value_store is None,
{
}

} // verus!
