//! The calls of the web tools: what is asked of the web, and what the model is told.
use vstd::prelude::*;
use crate::json;
use crate::llm::ToolCall;
use crate::text;
use crate::time::{Duration, Instant};
use crate::web_search::cache;
use crate::web_search::cache::TtlCache;
use crate::web_search::client;
use crate::web_search::client::{truncate_chars, SearchResult};

verus! {

/// How many characters of a page the model is shown.
pub const FETCH_RESULT_MAX_CHARS: usize = 4_000;

/// What was found and fetched lately, and how many results a search gives at most.
#[derive(Debug, Clone)]
pub struct WebToolExecutor {
    max_results: usize,
    search_cache: TtlCache<Vec<SearchResult>>,
    fetch_cache: TtlCache<String>,
}

// ---------------------------------------------------------------------------
// What the model is told
// ---------------------------------------------------------------------------

pub open spec fn hit_json(h: client::Hit) -> Seq<char> {
    json::object_text(
        seq![
            ("published_at"@, json::opt_quoted(h.published_at)),
            ("snippet"@, json::json_quoted(h.snippet)),
            ("source"@, json::opt_quoted(h.source)),
            ("title"@, json::json_quoted(h.title)),
            ("url"@, json::json_quoted(h.url)),
        ],
    )
}

fn result_json(r: &SearchResult) -> (s: String)
    ensures
        s@ == hit_json(r@),
{
    let mut m: Vec<(&'static str, String)> = Vec::new();
    m.push(("published_at", json::quote_opt(&r.published_at)));
    m.push(("snippet", json::quote(r.snippet.as_str())));
    m.push(("source", json::quote_opt(&r.source)));
    m.push(("title", json::quote(r.title.as_str())));
    m.push(("url", json::quote(r.url.as_str())));
    assert(json::members_of(m@) =~= seq![
        ("published_at"@, json::opt_quoted(text::opt_view(r.published_at))),
        ("snippet"@, json::json_quoted(r.snippet@)),
        ("source"@, json::opt_quoted(text::opt_view(r.source))),
        ("title"@, json::json_quoted(r.title@)),
        ("url"@, json::json_quoted(r.url@)),
    ]);
    json::object(&m)
}

pub open spec fn bool_text(b: bool) -> Seq<char> {
    if b {
        "true"@
    } else {
        "false"@
    }
}

fn bool_str(b: bool) -> (r: &'static str)
    ensures
        r@ == bool_text(b),
{
    if b {
        "true"
    } else {
        "false"
    }
}

/// The results of a search.
pub open spec fn results_json(results: Seq<client::Hit>, cached: bool) -> Seq<char> {
    json::object_text(
        seq![
            ("cached"@, bool_text(cached)),
            (
                "results"@,
                json::array_text(Seq::new(results.len(), |i: int| hit_json(results[i]))),
            ),
        ],
    )
}

fn tell_results(results: &Vec<SearchResult>, cached: bool) -> (r: String)
    ensures
        r@ == results_json(client::hits(results@), cached),
{
    let ghost all = client::hits(results@);
    let mut parts: Vec<String> = Vec::new();
    let mut i: usize = 0;
    while i < results.len()
        invariant
            all == client::hits(results@),
            i <= results@.len(),
            parts@.len() == i,
            forall|j: int| 0 <= j < i ==> parts@[j]@ == hit_json(#[trigger] all[j]),
        decreases results@.len() - i,
    {
        assert(all[i as int] == results@[i as int]@);
        parts.push(result_json(&results[i]));
        i = i + 1;
    }
    assert(text::views(parts@) =~= Seq::new(all.len(), |j: int| hit_json(all[j])));
    let mut m: Vec<(&'static str, String)> = Vec::new();
    m.push(("cached", bool_str(cached).to_owned()));
    m.push(("results", json::array(&parts)));
    assert(json::members_of(m@) =~= seq![
        ("cached"@, bool_text(cached)),
        ("results"@, json::array_text(Seq::new(all.len(), |j: int| hit_json(all[j])))),
    ]);
    json::object(&m)
}

/// The text of a page.
pub open spec fn content_json(url: Seq<char>, content: Seq<char>, cached: bool) -> Seq<char> {
    json::object_text(
        seq![
            ("cached"@, bool_text(cached)),
            ("content"@, json::json_quoted(content)),
            ("url"@, json::json_quoted(url)),
        ],
    )
}

fn tell_content(url: &str, content: &str, cached: bool) -> (r: String)
    ensures
        r@ == content_json(url@, content@, cached),
{
    let mut m: Vec<(&'static str, String)> = Vec::new();
    m.push(("cached", bool_str(cached).to_owned()));
    m.push(("content", json::quote(content)));
    m.push(("url", json::quote(url)));
    assert(json::members_of(m@) =~= seq![
        ("cached"@, bool_text(cached)),
        ("content"@, json::json_quoted(content@)),
        ("url"@, json::json_quoted(url@)),
    ]);
    json::object(&m)
}

/// An error, with what is known of it.
pub open spec fn error_json(error: Seq<char>, details: Seq<char>) -> Seq<char> {
    json::object_text(
        seq![("details"@, json::json_quoted(details)), ("error"@, json::json_quoted(error))],
    )
}

fn tell_error(error: &str, details: &str) -> (r: String)
    ensures
        r@ == error_json(error@, details@),
{
    let mut m: Vec<(&'static str, String)> = Vec::new();
    m.push(("details", json::quote(details)));
    m.push(("error", json::quote(error)));
    assert(json::members_of(m@) =~= seq![
        ("details"@, json::json_quoted(details@)),
        ("error"@, json::json_quoted(error@)),
    ]);
    json::object(&m)
}

pub open spec fn bad_json(call: ToolCall) -> Seq<char> {
    json::object_text(
        seq![
            ("details"@, json::json_quoted(call.arguments_parse_error->0.error@)),
            ("error"@, json::json_quoted("invalid_arguments_json"@)),
            ("raw"@, json::json_quoted(call.arguments_parse_error->0.raw@)),
            ("tool"@, json::json_quoted(call.name@)),
        ],
    )
}

pub open spec fn unknown_tool(name: Seq<char>) -> Seq<char> {
    json::object_text(
        seq![
            ("error"@, json::json_quoted("unknown_tool"@)),
            ("tool"@, json::json_quoted(name)),
        ],
    )
}

// ---------------------------------------------------------------------------
// What is asked of the web
// ---------------------------------------------------------------------------

/// What a call leads to.
#[derive(Debug, Clone)]
pub enum WebStep {
    /// The model is told this.
    Answer(String),
    /// The web is searched; the results go under the key.
    Search { query: String, max_results: usize, key: String },
    /// A page is fetched; its text goes under the key.
    Fetch { url: String, key: String },
}

#[verifier::ext_equal]
pub ghost enum Step {
    Answer(Seq<char>),
    Search { query: Seq<char>, max_results: usize, key: Seq<char> },
    Fetch { url: Seq<char>, key: Seq<char> },
}

impl WebStep {
    pub open spec fn view(&self) -> Step {
        match *self {
            WebStep::Answer(s) => Step::Answer(s@),
            WebStep::Search { query, max_results, key } => Step::Search {
                query: query@,
                max_results,
                key: key@,
            },
            WebStep::Fetch { url, key } => Step::Fetch { url: url@, key: key@ },
        }
    }
}

/// How many results are asked for: what the call says, from 1 up to the most that is
/// allowed.
pub open spec fn effective_max(arguments: Seq<char>, max: usize) -> usize {
    match json::unsigned_member(arguments, "max_results"@) {
        Some(n) => if n < 1 {
            1
        } else if n > max {
            max
        } else {
            n as usize
        },
        None => max,
    }
}

/// The key of a search.
pub open spec fn search_key(query: Seq<char>, max: usize) -> Seq<char> {
    text::collapse(query) + "::"@ + text::decimal(max as nat)
}

/// The key of a page.
pub open spec fn fetch_key(url: Seq<char>) -> Seq<char> {
    text::lower(text::trim(url))
}

/// Whether there is something to search for.
pub open spec fn has_query(arguments: Seq<char>) -> bool {
    json::string_member(arguments, "query"@) matches Some(query) && text::trim(query).len() > 0
}

/// What a call for a search leads to, given what is in the cache.
pub open spec fn search_step(
    arguments: Seq<char>,
    max: usize,
    slots: Seq<cache::Slot<Vec<SearchResult>>>,
) -> Step {
    match json::string_member(arguments, "query"@) {
        None => Step::Answer(
            error_json("invalid_arguments"@, "web_search requires string field 'query'"@),
        ),
        Some(query) => if text::trim(query).len() == 0 {
            Step::Answer(error_json("invalid_arguments"@, "query cannot be empty"@))
        } else {
            let n = effective_max(arguments, max);
            match cache::found(slots, search_key(query, n)) {
                Some(results) => Step::Answer(results_json(client::hits(results@), true)),
                None => Step::Search { query, max_results: n, key: search_key(query, n) },
            }
        },
    }
}

/// What the model is shown of a page.
pub open spec fn shown(content: Seq<char>) -> Seq<char> {
    client::shortened(content, FETCH_RESULT_MAX_CHARS as nat)
}

/// What a call for a page leads to, given what is in the cache.
pub open spec fn fetch_step(arguments: Seq<char>, slots: Seq<cache::Slot<String>>) -> Step {
    match json::string_member(arguments, "url"@) {
        None => Step::Answer(
            error_json("invalid_arguments"@, "fetch_url requires string field 'url'"@),
        ),
        Some(url) => match cache::found(slots, fetch_key(url)) {
            Some(content) => Step::Answer(content_json(url, content@, true)),
            None => Step::Fetch { url, key: fetch_key(url) },
        },
    }
}

/// What a call leads to, given what is in the caches.
pub open spec fn step_of(
    call: ToolCall,
    max: usize,
    searches: Seq<cache::Slot<Vec<SearchResult>>>,
    pages: Seq<cache::Slot<String>>,
) -> Step {
    if call.arguments_parse_error is Some {
        Step::Answer(bad_json(call))
    } else if call.name@ == "web_search"@ {
        search_step(call.arguments@, max, searches)
    } else if call.name@ == "fetch_url"@ {
        fetch_step(call.arguments@, pages)
    } else {
        Step::Answer(unknown_tool(call.name@))
    }
}

pub fn normalize_query(query: &str) -> (r: String)
    ensures
        r@ == text::collapse(query@),
{
    text::collapse_ws(query)
}

pub fn normalize_url(url: &str) -> (r: String)
    ensures
        r@ == fetch_key(url@),
{
    let bare = text::trimmed(url);
    text::to_ascii_lowercase(bare.as_str())
}

impl WebToolExecutor {
    pub closed spec fn wf(&self) -> bool {
        self.search_cache.wf() && self.fetch_cache.wf() && self.max_results >= 1
    }

    pub closed spec fn most(&self) -> usize {
        self.max_results
    }

    pub closed spec fn searches(&self) -> Seq<cache::Slot<Vec<SearchResult>>> {
        self.search_cache@
    }

    pub closed spec fn pages(&self) -> Seq<cache::Slot<String>> {
        self.fetch_cache@
    }

    pub closed spec fn ttl(&self) -> int {
        self.search_cache.lifetime()
    }

    /// How many searches, and how many pages, there is room for.
    pub closed spec fn room(&self) -> nat {
        self.search_cache.room()
    }

    /// Whether both caches are made alike.
    pub closed spec fn even(&self) -> bool {
        self.search_cache.lifetime() == self.fetch_cache.lifetime() && self.search_cache.room()
            == self.fetch_cache.room()
    }

    pub fn new(max_results: usize, cache_ttl: Duration, cache_capacity: usize) -> (r:
        WebToolExecutor)
        requires
            max_results >= 1,
        ensures
            r.wf(),
            r.even(),
            r.most() == max_results,
            r.ttl() == cache_ttl@,
            r.room() == cache_capacity,
            r.searches() == Seq::<cache::Slot<Vec<SearchResult>>>::empty(),
            r.pages() == Seq::<cache::Slot<String>>::empty(),
    {
        WebToolExecutor {
            max_results,
            search_cache: TtlCache::new(cache_ttl, cache_capacity),
            fetch_cache: TtlCache::new(cache_ttl, cache_capacity),
        }
    }

    pub fn max_results(&self) -> (r: usize)
        ensures
            r == self.most(),
    {
        self.max_results
    }

    fn begin_search(&mut self, call: &ToolCall, now: Instant) -> (r: WebStep)
        requires
            old(self).wf(),
            old(self).even(),
        ensures
            final(self).wf(),
            final(self).even(),
            final(self).most() == old(self).most(),
            final(self).ttl() == old(self).ttl(),
            final(self).room() == old(self).room(),
            final(self).pages() == old(self).pages(),
            final(self).searches() == if has_query(call.arguments@) {
                cache::fresh(old(self).searches(), old(self).ttl(), now@)
            } else {
                old(self).searches()
            },
            r@ == search_step(
                call.arguments@,
                old(self).most(),
                cache::fresh(old(self).searches(), old(self).ttl(), now@),
            ),
    {
        let query = match json::get_string(call.arguments.as_str(), "query") {
            Some(q) => q,
            None => {
                return WebStep::Answer(
                    tell_error("invalid_arguments", "web_search requires string field 'query'"),
                );
            },
        };
        let bare = text::trimmed(query.as_str());
        if text::char_count(bare.as_str()) == 0 {
            return WebStep::Answer(tell_error("invalid_arguments", "query cannot be empty"));
        }
        let n: usize = match json::get_unsigned(call.arguments.as_str(), "max_results") {
            Some(n) => if n < 1 {
                1
            } else if n > self.max_results as u64 {
                self.max_results
            } else {
                n as usize
            },
            None => self.max_results,
        };
        let mut key = normalize_query(query.as_str());
        key.push_str("::");
        key.push_str(text::from_usize(n).as_str());
        match self.search_cache.get(key.as_str(), now) {
            Some(results) => WebStep::Answer(tell_results(results, true)),
            None => WebStep::Search { query, max_results: n, key },
        }
    }

    fn begin_fetch(&mut self, call: &ToolCall, now: Instant) -> (r: WebStep)
        requires
            old(self).wf(),
            old(self).even(),
        ensures
            final(self).wf(),
            final(self).even(),
            final(self).most() == old(self).most(),
            final(self).ttl() == old(self).ttl(),
            final(self).room() == old(self).room(),
            final(self).searches() == old(self).searches(),
            final(self).pages() == if json::string_member(call.arguments@, "url"@) is Some {
                cache::fresh(old(self).pages(), old(self).ttl(), now@)
            } else {
                old(self).pages()
            },
            r@ == fetch_step(
                call.arguments@,
                cache::fresh(old(self).pages(), old(self).ttl(), now@),
            ),
    {
        let url = match json::get_string(call.arguments.as_str(), "url") {
            Some(u) => u,
            None => {
                return WebStep::Answer(
                    tell_error("invalid_arguments", "fetch_url requires string field 'url'"),
                );
            },
        };
        let key = normalize_url(url.as_str());
        match self.fetch_cache.get(key.as_str(), now) {
            Some(content) => WebStep::Answer(tell_content(url.as_str(), content.as_str(), true)),
            None => WebStep::Fetch { url, key },
        }
    }

    /// What a call leads to: an answer from the cache or to a mistake, or something that
    /// is asked of the web.
    pub fn begin(&mut self, call: &ToolCall, now: Instant) -> (r: WebStep)
        requires
            old(self).wf(),
            old(self).even(),
        ensures
            final(self).wf(),
            final(self).even(),
            final(self).most() == old(self).most(),
            final(self).ttl() == old(self).ttl(),
            final(self).room() == old(self).room(),
            final(self).searches() == if call.arguments_parse_error is None && call.name@
                == "web_search"@ && has_query(call.arguments@) {
                cache::fresh(old(self).searches(), old(self).ttl(), now@)
            } else {
                old(self).searches()
            },
            final(self).pages() == if call.arguments_parse_error is None && call.name@
                == "fetch_url"@ && json::string_member(call.arguments@, "url"@) is Some {
                cache::fresh(old(self).pages(), old(self).ttl(), now@)
            } else {
                old(self).pages()
            },
            r@ == if call.arguments_parse_error is Some {
                Step::Answer(bad_json(*call))
            } else if call.name@ == "web_search"@ {
                search_step(
                    call.arguments@,
                    old(self).most(),
                    cache::fresh(old(self).searches(), old(self).ttl(), now@),
                )
            } else if call.name@ == "fetch_url"@ {
                fetch_step(
                    call.arguments@,
                    cache::fresh(old(self).pages(), old(self).ttl(), now@),
                )
            } else {
                Step::Answer(unknown_tool(call.name@))
            },
            r@ == step_of(
                *call,
                old(self).most(),
                cache::fresh(old(self).searches(), old(self).ttl(), now@),
                cache::fresh(old(self).pages(), old(self).ttl(), now@),
            ),
    {
        if let Some(e) = &call.arguments_parse_error {
            let mut m: Vec<(&'static str, String)> = Vec::new();
            m.push(("details", json::quote(e.error.as_str())));
            m.push(("error", json::quote("invalid_arguments_json")));
            m.push(("raw", json::quote(e.raw.as_str())));
            m.push(("tool", json::quote(call.name.as_str())));
            assert(json::members_of(m@) =~= seq![
                ("details"@, json::json_quoted(call.arguments_parse_error->0.error@)),
                ("error"@, json::json_quoted("invalid_arguments_json"@)),
                ("raw"@, json::json_quoted(call.arguments_parse_error->0.raw@)),
                ("tool"@, json::json_quoted(call.name@)),
            ]);
            return WebStep::Answer(json::object(&m));
        }
        proof {
            reveal_strlit("web_search");
            reveal_strlit("fetch_url");
            assert("web_search"@.len() != "fetch_url"@.len());
        }
        if text::same(call.name.as_str(), "web_search") {
            return self.begin_search(call, now);
        }
        if text::same(call.name.as_str(), "fetch_url") {
            return self.begin_fetch(call, now);
        }
        let mut m: Vec<(&'static str, String)> = Vec::new();
        m.push(("error", json::quote("unknown_tool")));
        m.push(("tool", json::quote(call.name.as_str())));
        assert(json::members_of(m@) =~= seq![
            ("error"@, json::json_quoted("unknown_tool"@)),
            ("tool"@, json::json_quoted(call.name@)),
        ]);
        WebStep::Answer(json::object(&m))
    }

    /// Keeps the results of a search, and tells the model of them.
    pub fn finish_search(&mut self, key: String, results: Vec<SearchResult>, now: Instant) -> (r:
        String)
        requires
            old(self).wf(),
            old(self).even(),
        ensures
            final(self).wf(),
            final(self).even(),
            final(self).most() == old(self).most(),
            final(self).ttl() == old(self).ttl(),
            final(self).room() == old(self).room(),
            final(self).pages() == old(self).pages(),
            r@ == results_json(client::hits(results@), false),
            final(self).searches() == cache::inserted(
                old(self).searches(),
                old(self).ttl(),
                old(self).room(),
                key@,
                results,
                now@,
            ),
    {
        let answer = tell_results(&results, false);
        self.search_cache.insert(key, results, now);
        answer
    }

    /// Keeps the text of a page, cut to what the model is shown, and tells the model.
    pub fn finish_fetch(&mut self, url: &str, key: String, content: &str, now: Instant) -> (r:
        String)
        requires
            old(self).wf(),
            old(self).even(),
        ensures
            final(self).wf(),
            final(self).even(),
            final(self).most() == old(self).most(),
            final(self).ttl() == old(self).ttl(),
            final(self).room() == old(self).room(),
            final(self).searches() == old(self).searches(),
            r@ == content_json(
                url@,
                client::shortened(content@, FETCH_RESULT_MAX_CHARS as nat),
                false,
            ),
            r@ == content_json(url@, shown(content@), false),
            exists|kept: String|
                kept@ == client::shortened(content@, FETCH_RESULT_MAX_CHARS as nat)
                    && final(self).pages() == #[trigger] cache::inserted(
                    old(self).pages(),
                    old(self).ttl(),
                    old(self).room(),
                    key@,
                    kept,
                    now@,
                ),
    {
        let shortened = truncate_chars(content, FETCH_RESULT_MAX_CHARS);
        let answer = tell_content(url, shortened.as_str(), false);
        let ghost kept = shortened;
        let ghost k = key@;
        self.fetch_cache.insert(key, shortened, now);
        assert(self.pages() == cache::inserted(
            old(self).pages(),
            old(self).ttl(),
            old(self).room(),
            k,
            kept,
            now@,
        ));
        answer
    }
}

/// Whether one of the causes of an error speaks of a timeout.
pub open spec fn timed_out(causes: Seq<Seq<char>>) -> bool {
    exists|i: int|
        0 <= i < causes.len() && text::has(text::lower(#[trigger] causes[i]), "timed out"@)
}

/// What the model is told of a search that failed.
pub open spec fn failed_search(causes: Seq<Seq<char>>) -> Seq<char> {
    error_json(
        if timed_out(causes) {
            "search_timeout"@
        } else {
            "search_failed"@
        },
        causes[0],
    )
}

/// Tells the model of a search that failed, given the message of the error and those of
/// its causes.
pub fn search_failed(causes: &Vec<String>) -> (r: String)
    requires
        causes@.len() > 0,
    ensures
        r@ == error_json(
            if timed_out(text::views(causes@)) {
                "search_timeout"@
            } else {
                "search_failed"@
            },
            causes@[0]@,
        ),
        r@ == failed_search(text::views(causes@)),
{
    if speaks_of_timeout(causes) {
        tell_error("search_timeout", causes[0].as_str())
    } else {
        tell_error("search_failed", causes[0].as_str())
    }
}

fn speaks_of_timeout(causes: &Vec<String>) -> (r: bool)
    ensures
        r == timed_out(text::views(causes@)),
{
    let ghost all = text::views(causes@);
    let mut i: usize = 0;
    while i < causes.len()
        invariant
            all == text::views(causes@),
            i <= causes@.len(),
            forall|j: int|
                0 <= j < i ==> !text::has(text::lower(#[trigger] all[j]), "timed out"@),
        decreases causes@.len() - i,
    {
        let lower = text::to_ascii_lowercase(causes[i].as_str());
        if text::contains(lower.as_str(), "timed out") {
            assert(text::has(text::lower(all[i as int]), "timed out"@));
            return true;
        }
        i = i + 1;
    }
    false
}

/// What the model is told of a page that could not be fetched.
pub open spec fn failed_fetch(error: Seq<char>) -> Seq<char> {
    error_json(
        if text::has(text::lower(error), "blocked"@) {
            "fetch_blocked"@
        } else if text::has(text::lower(error), "timed out"@) {
            "fetch_timeout"@
        } else {
            "fetch_failed"@
        },
        error,
    )
}

/// Tells the model of a page that could not be fetched, given the message of the error.
pub fn fetch_failed(error: &str) -> (r: String)
    ensures
        r@ == error_json(
            if text::has(text::lower(error@), "blocked"@) {
                "fetch_blocked"@
            } else if text::has(text::lower(error@), "timed out"@) {
                "fetch_timeout"@
            } else {
                "fetch_failed"@
            },
            error@,
        ),
        r@ == failed_fetch(error@),
{
    let lower = text::to_ascii_lowercase(error);
    if text::contains(lower.as_str(), "blocked") {
        tell_error("fetch_blocked", error)
    } else if text::contains(lower.as_str(), "timed out") {
        tell_error("fetch_timeout", error)
    } else {
        tell_error("fetch_failed", error)
    }
}

/// However many results a call asks for, between one and the most that is allowed are
/// asked of the web.
pub proof fn law_results_are_bounded(arguments: Seq<char>, max: usize)
    requires
        max >= 1,
    ensures
        1 <= effective_max(arguments, max) <= max,
{
}


// ---------------------------------------------------------------------------
// What the model learns
// ---------------------------------------------------------------------------

/// The model is told of a result by its title, its URL, its text, its date and its source,
/// each under its name.
pub proof fn law_results_are_told(h: client::Hit)
    ensures
        text::has(hit_json(h), "\""@ + "title"@ + "\":"@ + json::json_quoted(h.title)),
        text::has(hit_json(h), "\""@ + "url"@ + "\":"@ + json::json_quoted(h.url)),
        text::has(hit_json(h), "\""@ + "snippet"@ + "\":"@ + json::json_quoted(h.snippet)),
        h.published_at matches Some(t) ==> text::has(
            hit_json(h),
            "\""@ + "published_at"@ + "\":"@ + json::json_quoted(t),
        ),
        h.source matches Some(s) ==> text::has(
            hit_json(h),
            "\""@ + "source"@ + "\":"@ + json::json_quoted(s),
        ),
{
    let o = seq![
        ("published_at"@, json::opt_quoted(h.published_at)),
        ("snippet"@, json::json_quoted(h.snippet)),
        ("source"@, json::opt_quoted(h.source)),
        ("title"@, json::json_quoted(h.title)),
        ("url"@, json::json_quoted(h.url)),
    ];
    json::law_object_holds_each(o, 0);
    json::law_object_holds_each(o, 1);
    json::law_object_holds_each(o, 2);
    json::law_object_holds_each(o, 3);
    json::law_object_holds_each(o, 4);
    assert(o[0] == ("published_at"@, json::opt_quoted(h.published_at)));
    assert(o[1] == ("snippet"@, json::json_quoted(h.snippet)));
    assert(o[2] == ("source"@, json::opt_quoted(h.source)));
    assert(o[3] == ("title"@, json::json_quoted(h.title)));
    assert(o[4] == ("url"@, json::json_quoted(h.url)));
}

/// The model is told of each result of a search, and whether they were kept from an earlier
/// one.
pub proof fn law_all_results_are_told(results: Seq<client::Hit>, i: int)
    ensures
        0 <= i < results.len() ==> text::has(results_json(results, true), hit_json(results[i]))
            && text::has(results_json(results, false), hit_json(results[i])),
        text::has(results_json(results, true), "\""@ + "cached"@ + "\":"@ + "true"@),
        text::has(results_json(results, false), "\""@ + "cached"@ + "\":"@ + "false"@),
{
    lemma_results_told(results, true, i);
    lemma_results_told(results, false, i);
}

proof fn lemma_results_told(results: Seq<client::Hit>, cached: bool, i: int)
    ensures
        0 <= i < results.len() ==> text::has(results_json(results, cached), hit_json(results[i])),
        text::has(results_json(results, cached), "\""@ + "cached"@ + "\":"@ + bool_text(cached)),
{
    broadcast use text::group_parts;

    let list = Seq::new(results.len(), |j: int| hit_json(results[j]));
    let array = json::array_text(list);
    let o = seq![("cached"@, bool_text(cached)), ("results"@, array)];
    json::law_object_holds_each(o, 0);
    json::law_object_holds_each(o, 1);
    assert(o[0] == ("cached"@, bool_text(cached)));
    assert(o[1] == ("results"@, array));
    if 0 <= i < results.len() {
        json::law_array_holds_each(list, i);
        assert(list[i] == hit_json(results[i]));
        let member = "\""@ + "results"@ + "\":"@ + array;
        text::law_part_of_part(json::object_text(o), member, array);
        text::law_part_of_part(json::object_text(o), array, hit_json(results[i]));
    }
}

/// The model is told the text of a page with its URL, and whether it was kept from earlier.
pub proof fn law_pages_are_told(url: Seq<char>, content: Seq<char>, cached: bool)
    ensures
        text::has(
            content_json(url, content, cached),
            "\""@ + "content"@ + "\":"@ + json::json_quoted(content),
        ),
        text::has(
            content_json(url, content, cached),
            "\""@ + "url"@ + "\":"@ + json::json_quoted(url),
        ),
        text::has(
            content_json(url, content, cached),
            "\""@ + "cached"@ + "\":"@ + if cached {
                "true"@
            } else {
                "false"@
            },
        ),
{
    let o = seq![
        ("cached"@, bool_text(cached)),
        ("content"@, json::json_quoted(content)),
        ("url"@, json::json_quoted(url)),
    ];
    json::law_object_holds_each(o, 0);
    json::law_object_holds_each(o, 1);
    json::law_object_holds_each(o, 2);
    assert(o[0] == ("cached"@, bool_text(cached)));
    assert(o[1] == ("content"@, json::json_quoted(content)));
    assert(o[2] == ("url"@, json::json_quoted(url)));
}

/// An error is told by its name and with what is known of it.
pub proof fn law_errors_are_told(error: Seq<char>, details: Seq<char>)
    ensures
        text::has(
            error_json(error, details),
            "\""@ + "error"@ + "\":"@ + json::json_quoted(error),
        ),
        text::has(
            error_json(error, details),
            "\""@ + "details"@ + "\":"@ + json::json_quoted(details),
        ),
{
    let o = seq![("details"@, json::json_quoted(details)), ("error"@, json::json_quoted(error))];
    json::law_object_holds_each(o, 0);
    json::law_object_holds_each(o, 1);
    assert(o[0] == ("details"@, json::json_quoted(details)));
    assert(o[1] == ("error"@, json::json_quoted(error)));
}

/// A call that cannot be read is answered with the tool, what is wrong and what was given; a
/// call of another tool with its name.
pub proof fn law_bad_calls_are_told(call: ToolCall, name: Seq<char>)
    ensures
        call.arguments_parse_error matches Some(e) ==> {
            let s = bad_json(call);
            &&& text::has(
                s,
                "\""@ + "error"@ + "\":"@ + json::json_quoted("invalid_arguments_json"@),
            )
            &&& text::has(s, "\""@ + "details"@ + "\":"@ + json::json_quoted(e.error@))
            &&& text::has(s, "\""@ + "raw"@ + "\":"@ + json::json_quoted(e.raw@))
            &&& text::has(s, "\""@ + "tool"@ + "\":"@ + json::json_quoted(call.name@))
        },
        text::has(
            unknown_tool(name),
            "\""@ + "error"@ + "\":"@ + json::json_quoted("unknown_tool"@),
        ),
        text::has(unknown_tool(name), "\""@ + "tool"@ + "\":"@ + json::json_quoted(name)),
{
    if let Some(e) = call.arguments_parse_error {
        let o = seq![
            ("details"@, json::json_quoted(e.error@)),
            ("error"@, json::json_quoted("invalid_arguments_json"@)),
            ("raw"@, json::json_quoted(e.raw@)),
            ("tool"@, json::json_quoted(call.name@)),
        ];
        json::law_object_holds_each(o, 0);
        json::law_object_holds_each(o, 1);
        json::law_object_holds_each(o, 2);
        json::law_object_holds_each(o, 3);
        assert(o[0] == ("details"@, json::json_quoted(e.error@)));
        assert(o[1] == ("error"@, json::json_quoted("invalid_arguments_json"@)));
        assert(o[2] == ("raw"@, json::json_quoted(e.raw@)));
        assert(o[3] == ("tool"@, json::json_quoted(call.name@)));
    }
    let u = seq![("error"@, json::json_quoted("unknown_tool"@)), ("tool"@, json::json_quoted(name))];
    json::law_object_holds_each(u, 0);
    json::law_object_holds_each(u, 1);
    assert(u[0] == ("error"@, json::json_quoted("unknown_tool"@)));
    assert(u[1] == ("tool"@, json::json_quoted(name)));
}

/// A search asks for as many results as the call says, where that is between one and the most
/// that is allowed; where the call does not say, for the most.
pub proof fn law_as_many_as_asked_for(arguments: Seq<char>, max: usize)
    requires
        max >= 1,
    ensures
        json::unsigned_member(arguments, "max_results"@) matches Some(n) ==> (1 <= n <= max
            ==> effective_max(arguments, max) == n) && (n == 0 ==> effective_max(arguments, max)
            == 1) && (n > max ==> effective_max(arguments, max) == max),
        json::unsigned_member(arguments, "max_results"@) is None ==> effective_max(arguments, max)
            == max,
{
}

/// A search whose results are not kept is made for the query as it was given; one whose
/// results are kept is answered with them. Without a query there is an error.
pub proof fn law_searches_are_made_once(
    arguments: Seq<char>,
    max: usize,
    slots: Seq<cache::Slot<Vec<SearchResult>>>,
)
    ensures
        json::string_member(arguments, "query"@) matches Some(q) ==> text::trim(q).len() > 0 ==> {
            let n = effective_max(arguments, max);
            let key = text::collapse(q) + "::"@ + text::decimal(n as nat);
            match cache::found(slots, key) {
                Some(results) => search_step(arguments, max, slots) == Step::Answer(
                    results_json(client::hits(results@), true),
                ),
                None => search_step(arguments, max, slots) == (Step::Search {
                    query: q,
                    max_results: n,
                    key,
                }),
            }
        },
        json::string_member(arguments, "query"@) is None ==> search_step(arguments, max, slots)
            is Answer,
        json::string_member(arguments, "query"@) matches Some(q) ==> text::trim(q).len() == 0
            ==> search_step(arguments, max, slots) is Answer,
{
}

/// A page that is not kept is fetched from the URL as it was given; one that is kept is given
/// again. Without a URL there is an error.
pub proof fn law_pages_are_fetched_once(arguments: Seq<char>, slots: Seq<cache::Slot<String>>)
    ensures
        json::string_member(arguments, "url"@) matches Some(url) ==> match cache::found(
            slots,
            text::lower(text::trim(url)),
        ) {
            Some(content) => fetch_step(arguments, slots) == Step::Answer(
                content_json(url, content@, true),
            ),
            None => fetch_step(arguments, slots) == (Step::Fetch {
                url,
                key: text::lower(text::trim(url)),
            }),
        },
        json::string_member(arguments, "url"@) is None ==> fetch_step(arguments, slots) is Answer,
{
}

/// What was found for a search is given again for the same search, until it expires.
pub proof fn law_same_search_same_results(
    arguments: Seq<char>,
    max: usize,
    slots: Seq<cache::Slot<Vec<SearchResult>>>,
    ttl: int,
    capacity: nat,
    results: Vec<SearchResult>,
    now: int,
    later: int,
)
    requires
        capacity > 0,
        now <= later <= now + ttl,
        search_step(arguments, max, slots) is Search,
    ensures
        search_step(arguments, max, slots) matches Step::Search { key, .. } ==> search_step(
            arguments,
            max,
            cache::fresh(
                cache::inserted(slots, ttl, capacity, key, results, now),
                ttl,
                later,
            ),
        ) == Step::Answer(results_json(client::hits(results@), true)),
{
    if let Step::Search { key, .. } = search_step(arguments, max, slots) {
        cache::law_inserted_is_found(slots, ttl, capacity, key, results, now, later);
    }
}

/// What was read of a page is given again for the same page, until it expires.
pub proof fn law_same_page_same_text(
    arguments: Seq<char>,
    slots: Seq<cache::Slot<String>>,
    ttl: int,
    capacity: nat,
    content: String,
    now: int,
    later: int,
)
    requires
        capacity > 0,
        now <= later <= now + ttl,
        fetch_step(arguments, slots) is Fetch,
    ensures
        fetch_step(arguments, slots) matches Step::Fetch { url, key } ==> fetch_step(
            arguments,
            cache::fresh(
                cache::inserted(slots, ttl, capacity, key, content, now),
                ttl,
                later,
            ),
        ) == Step::Answer(content_json(url, content@, true)),
{
    if let Step::Fetch { key, .. } = fetch_step(arguments, slots) {
        cache::law_inserted_is_found(slots, ttl, capacity, key, content, now, later);
    }
}

/// Each tool does what it is called for, and a call that cannot be read is not carried out.
pub proof fn law_tools_are_told_apart(
    call: ToolCall,
    max: usize,
    searches: Seq<cache::Slot<Vec<SearchResult>>>,
    pages: Seq<cache::Slot<String>>,
)
    ensures
        call.arguments_parse_error is Some ==> step_of(call, max, searches, pages) is Answer,
        step_of(call, max, searches, pages) is Search ==> call.name@ == "web_search"@,
        step_of(call, max, searches, pages) is Fetch ==> call.name@ == "fetch_url"@,
        call.arguments_parse_error is None && call.name@ == "web_search"@ ==> step_of(
            call,
            max,
            searches,
            pages,
        ) == search_step(call.arguments@, max, searches),
        call.arguments_parse_error is None && call.name@ == "fetch_url"@ ==> step_of(
            call,
            max,
            searches,
            pages,
        ) == fetch_step(call.arguments@, pages),
        call.arguments_parse_error is None && call.name@ != "web_search"@ && call.name@
            != "fetch_url"@ ==> step_of(call, max, searches, pages) == Step::Answer(
            unknown_tool(call.name@),
        ),
{
    reveal_strlit("web_search");
    reveal_strlit("fetch_url");
    assert("web_search"@.len() != "fetch_url"@.len());
}

/// The model is shown up to 4000 characters of a page: all of a shorter one, the beginning of
/// a longer one.
pub proof fn law_long_pages_are_cut(content: Seq<char>)
    ensures
        content.len() <= 4000 ==> shown(content) == content,
        content.len() > 4000 ==> text::has_prefix(shown(content), content.take(4000)) && shown(
            content,
        ).len() == 4003,
{
    client::law_long_texts_are_cut(content, 4000);
}

/// A search that failed is told with its first cause, as a timeout where one of the causes
/// speaks of one.
pub proof fn law_failed_searches_are_told(causes: Seq<Seq<char>>, i: int)
    requires
        0 <= i < causes.len(),
    ensures
        text::has(
            failed_search(causes),
            "\""@ + "details"@ + "\":"@ + json::json_quoted(causes[0]),
        ),
        text::has(text::lower(causes[i]), "timed out"@) ==> text::has(
            failed_search(causes),
            "\""@ + "error"@ + "\":"@ + json::json_quoted("search_timeout"@),
        ),
        (forall|j: int|
            0 <= j < causes.len() ==> !text::has(text::lower(#[trigger] causes[j]), "timed out"@))
            ==> text::has(
            failed_search(causes),
            "\""@ + "error"@ + "\":"@ + json::json_quoted("search_failed"@),
        ),
{
    law_errors_are_told("search_timeout"@, causes[0]);
    law_errors_are_told("search_failed"@, causes[0]);
}

/// A page that could not be fetched is told with the error: as blocked where the error says
/// so, as a timeout where it speaks of one, and as a failure otherwise.
pub proof fn law_failed_pages_are_told(error: Seq<char>)
    ensures
        text::has(failed_fetch(error), "\""@ + "details"@ + "\":"@ + json::json_quoted(error)),
        text::has(text::lower(error), "blocked"@) ==> text::has(
            failed_fetch(error),
            "\""@ + "error"@ + "\":"@ + json::json_quoted("fetch_blocked"@),
        ),
        !text::has(text::lower(error), "blocked"@) && text::has(text::lower(error), "timed out"@)
            ==> text::has(
            failed_fetch(error),
            "\""@ + "error"@ + "\":"@ + json::json_quoted("fetch_timeout"@),
        ),
        !text::has(text::lower(error), "blocked"@) && !text::has(
            text::lower(error),
            "timed out"@,
        ) ==> text::has(
            failed_fetch(error),
            "\""@ + "error"@ + "\":"@ + json::json_quoted("fetch_failed"@),
        ),
{
    law_errors_are_told("fetch_blocked"@, error);
    law_errors_are_told("fetch_timeout"@, error);
    law_errors_are_told("fetch_failed"@, error);
}

} // verus!
