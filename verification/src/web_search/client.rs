//! Searching the web and reading pages: what is asked for, which pages are allowed, and
//! what is kept of them.
use vstd::prelude::*;
use crate::text;

verus! {

/// How many results of a search are taken at most.
pub const SEARX_RESPONSE_LIMIT: usize = 10;

/// How large a page may be, in bytes.
pub const FETCH_RESPONSE_MAX_BYTES: usize = 524_288;

/// How many characters of a page are kept.
pub const FETCH_TEXT_MAX_CHARS: usize = 8_000;

// ---------------------------------------------------------------------------
// Search results
// ---------------------------------------------------------------------------

/// A result of a search.
#[derive(Debug, Clone, PartialEq, Eq)]
pub struct SearchResult {
    pub title: String,
    pub url: String,
    pub snippet: String,
    pub published_at: Option<String>,
    pub source: Option<String>,
}

/// The contents of a `SearchResult`.
#[verifier::ext_equal]
pub ghost struct Hit {
    pub title: Seq<char>,
    pub url: Seq<char>,
    pub snippet: Seq<char>,
    pub published_at: Option<Seq<char>>,
    pub source: Option<Seq<char>>,
}

impl SearchResult {
    pub open spec fn view(&self) -> Hit {
        Hit {
            title: self.title@,
            url: self.url@,
            snippet: self.snippet@,
            published_at: text::opt_view(self.published_at),
            source: text::opt_view(self.source),
        }
    }
}

pub open spec fn hits(results: Seq<SearchResult>) -> Seq<Hit> {
    Seq::new(results.len(), |i: int| results[i]@)
}

/// A result as the search engine gives it.
#[derive(Debug, Clone)]
pub struct SearxResult {
    pub title: String,
    pub url: String,
    pub content: Option<String>,
    pub published_date: Option<String>,
    pub engine: Option<String>,
}

/// A text cut to a number of characters, and marked with three dots where it was cut.
pub open spec fn shortened(s: Seq<char>, max: nat) -> Seq<char> {
    if s.len() <= max {
        s
    } else {
        s.take(max as int) + "..."@
    }
}

pub fn truncate_chars(value: &str, max_chars: usize) -> (r: String)
    ensures
        r@ == shortened(value@, max_chars as nat),
{
    let v = text::chars_of(value);
    if v.len() <= max_chars {
        return value.to_owned();
    }
    let mut s = text::string_of(&v, 0, max_chars);
    assert(v@.subrange(0, max_chars as int) =~= v@.take(max_chars as int));
    s.push_str("...");
    s
}

/// What is kept of a result.
pub open spec fn kept(r: SearxResult) -> Hit {
    Hit {
        title: shortened(text::collapse(r.title@), 200),
        url: r.url@,
        snippet: shortened(
            text::collapse(
                match r.content {
                    Some(c) => c@,
                    None => Seq::empty(),
                },
            ),
            500,
        ),
        published_at: text::opt_view(r.published_date),
        source: text::opt_view(r.engine),
    }
}

fn keep(r: &SearxResult) -> (h: SearchResult)
    ensures
        h@ == kept(*r),
{
    let title = text::collapse_ws(r.title.as_str());
    let content = match &r.content {
        Some(c) => c.clone(),
        None => String::new(),
    };
    assert(r.content is None ==> content@ =~= Seq::<char>::empty());
    let snippet = text::collapse_ws(content.as_str());
    SearchResult {
        title: truncate_chars(title.as_str(), 200),
        url: r.url.clone(),
        snippet: truncate_chars(snippet.as_str(), 500),
        published_at: text::clone_opt(&r.published_date),
        source: text::clone_opt(&r.engine),
    }
}

/// How many results are taken, of those that were asked for and those that are there.
pub open spec fn taken(wanted: nat, there: nat) -> nat {
    let most = if wanted < SEARX_RESPONSE_LIMIT {
        wanted
    } else {
        SEARX_RESPONSE_LIMIT as nat
    };
    if there < most {
        there
    } else {
        most
    }
}

/// What is kept of the first results.
pub open spec fn first_hits(results: Seq<SearxResult>, wanted: nat) -> Seq<Hit> {
    Seq::new(taken(wanted, results.len()), |i: int| kept(results[i]))
}

/// The first results, in short form.
pub fn search_results(results: &Vec<SearxResult>, max_results: usize) -> (r: Vec<SearchResult>)
    ensures
        r@.len() == taken(max_results as nat, results@.len()),
        forall|i: int| 0 <= i < r@.len() ==> (#[trigger] r@[i])@ == kept(results@[i]),
        hits(r@) == first_hits(results@, max_results as nat),
{
    let mut out: Vec<SearchResult> = Vec::new();
    let mut i: usize = 0;
    while i < results.len() && i < max_results && i < SEARX_RESPONSE_LIMIT
        invariant
            i <= results@.len(),
            i <= max_results,
            i <= SEARX_RESPONSE_LIMIT,
            out@.len() == i,
            forall|j: int| 0 <= j < i ==> (#[trigger] out@[j])@ == kept(results@[j]),
        decreases results@.len() - i,
    {
        out.push(keep(&results[i]));
        i = i + 1;
    }
    assert(hits(out@) =~= first_hits(results@, max_results as nat));
    out
}

// ---------------------------------------------------------------------------
// Content types
// ---------------------------------------------------------------------------

pub open spec fn html_types() -> Seq<Seq<char>> {
    seq!["text/html"@, "application/xhtml+xml"@, "application/xml"@, "text/xml"@]
}

/// The media type of a content type: what stands before the first semicolon.
pub open spec fn media_type(content_type: Seq<char>) -> Seq<char> {
    text::lower(text::trim(text::parts(content_type, ';')[0]))
}

/// Whether a content type is one of HTML.
pub open spec fn is_html(content_type: Seq<char>) -> bool {
    html_types().contains(media_type(content_type))
}

/// Whether a page of a content type is read as HTML.
pub fn is_html_content_type(content_type: &str) -> (r: bool)
    ensures
        r == html_types().contains(media_type(content_type@)),
        r == is_html(content_type@),
{
    let p = text::split(content_type, ';');
    proof {
        lemma_some_part(content_type@, ';');
        assert(text::views(p@).len() == p@.len());
        assert(text::views(p@)[0] == p@[0]@);
        let t = html_types();
        assert(t[0] == "text/html"@ && t[1] == "application/xhtml+xml"@ && t[2]
            == "application/xml"@ && t[3] == "text/xml"@);
    }
    let bare = text::trimmed(p[0].as_str());
    let media = text::to_ascii_lowercase(bare.as_str());
    let m = media.as_str();
    text::same(m, "text/html") || text::same(m, "application/xhtml+xml") || text::same(
        m,
        "application/xml",
    ) || text::same(m, "text/xml")
}

proof fn lemma_some_part(s: Seq<char>, c: char)
    ensures
        text::parts(s, c).len() > 0,
{
}

// ---------------------------------------------------------------------------
// Addresses
// ---------------------------------------------------------------------------

/// An IP address, as its number.
#[derive(Debug, Clone, Copy, PartialEq, Eq, Structural)]
pub enum IpAddress {
    V4(u32),
    V6(u128),
}

/// Whether an address of four numbers is not to be reached: loopback, private networks,
/// link-local, broadcast, unspecified, and those for documentation.
pub open spec fn is_blocked_v4(a: int, b: int, c: int, d: int) -> bool {
    ||| a == 127
    ||| a == 10
    ||| a == 172 && 16 <= b <= 31
    ||| a == 192 && b == 168
    ||| a == 169 && b == 254
    ||| a == 255 && b == 255 && c == 255 && d == 255
    ||| a == 0 && b == 0 && c == 0 && d == 0
    ||| a == 192 && b == 0 && c == 2
    ||| a == 198 && b == 51 && c == 100
    ||| a == 203 && b == 0 && c == 113
}

/// The first 16 bits of an address of 128.
pub open spec fn first_segment(n: u128) -> int {
    n as int / 0x1_0000_0000_0000_0000_0000_0000_0000
}

/// Whether an address is not to be reached. Of the long ones, these are loopback, unique
/// local, link-local and unspecified.
pub open spec fn is_blocked(ip: IpAddress) -> bool {
    match ip {
        IpAddress::V4(n) => is_blocked_v4(
            n as int / 0x100_0000,
            n as int / 0x1_0000 % 0x100,
            n as int / 0x100 % 0x100,
            n as int % 0x100,
        ),
        IpAddress::V6(n) => {
            ||| n == 0
            ||| n == 1
            ||| 0xfc00 <= first_segment(n) <= 0xfdff
            ||| 0xfe80 <= first_segment(n) <= 0xfebf
        },
    }
}

pub fn is_blocked_ip(ip: IpAddress) -> (r: bool)
    ensures
        r == is_blocked(ip),
{
    match ip {
        IpAddress::V4(n) => {
            let a: u32 = n / 0x100_0000;
            let b: u32 = n / 0x1_0000 % 0x100;
            let c: u32 = n / 0x100 % 0x100;
            let d: u32 = n % 0x100;
            a == 127 || a == 10 || (a == 172 && 16 <= b && b <= 31) || (a == 192 && b == 168) || (a
                == 169 && b == 254) || (a == 255 && b == 255 && c == 255 && d == 255) || (a == 0
                && b == 0 && c == 0 && d == 0) || (a == 192 && b == 0 && c == 2) || (a == 198 && b
                == 51 && c == 100) || (a == 203 && b == 0 && c == 113)
        },
        IpAddress::V6(n) => {
            let first: u128 = n / 0x1_0000_0000_0000_0000_0000_0000_0000;
            n == 0 || n == 1 || (0xfc00 <= first && first <= 0xfdff) || (0xfe80 <= first && first
                <= 0xfebf)
        },
    }
}

/// A number from 0 to 255 in decimal digits, without leading zeros.
pub open spec fn octet(s: Seq<char>) -> Option<nat> {
    if text::is_digits(s) && s.len() <= 3 && (s.len() > 1 ==> s[0] != '0') && text::digits_value(s)
        <= 255 {
        Some(text::digits_value(s))
    } else {
        None
    }
}

/// The address that four decimal numbers with dots between them stand for.
pub open spec fn dotted(s: Seq<char>) -> Option<nat> {
    let p = text::parts(s, '.');
    if p.len() == 4 && octet(p[0]) is Some && octet(p[1]) is Some && octet(p[2]) is Some && octet(
        p[3],
    ) is Some {
        Some(
            octet(p[0])->0 * 0x100_0000 + octet(p[1])->0 * 0x1_0000 + octet(p[2])->0 * 0x100
                + octet(p[3])->0,
        )
    } else {
        None
    }
}

fn parse_octet(s: &str) -> (r: Option<u32>)
    ensures
        match r {
            Some(n) => octet(s@) == Some(n as nat) && n <= 255,
            None => octet(s@) is None,
        },
{
    let v = text::chars_of(s);
    if v.len() == 0 || v.len() > 3 || (v.len() > 1 && v[0] == '0') || v[0] == '+' {
        assert(v@.len() > 0 && v@[0] == '+' ==> !text::is_digits(s@)) by {
            if v@.len() > 0 && v@[0] == '+' {
                assert(!text::is_digit(s@[0]));
            }
        }
        return None;
    }
    match text::parse_unsigned(s, 255) {
        Some(n) => Some(n as u32),
        None => None,
    }
}

/// Reads an address of four numbers.
pub fn parse_dotted(s: &str) -> (r: Option<u32>)
    ensures
        match r {
            Some(n) => dotted(s@) == Some(n as nat),
            None => dotted(s@) is None,
        },
{
    let p = text::split(s, '.');
    assert(text::views(p@).len() == p@.len());
    if p.len() != 4 {
        return None;
    }
    proof {
        assert(text::views(p@)[0] == p@[0]@);
        assert(text::views(p@)[1] == p@[1]@);
        assert(text::views(p@)[2] == p@[2]@);
        assert(text::views(p@)[3] == p@[3]@);
    }
    match (
        parse_octet(p[0].as_str()),
        parse_octet(p[1].as_str()),
        parse_octet(p[2].as_str()),
        parse_octet(p[3].as_str()),
    ) {
        (Some(a), Some(b), Some(c), Some(d)) => Some(
            a * 0x100_0000 + b * 0x1_0000 + c * 0x100 + d,
        ),
        _ => None,
    }
}

/// Whether the host of a URL is not to be reached by its name alone: it is missing, is the
/// local host, or is a blocked address.
pub open spec fn is_blocked_host(host: Option<Seq<char>>) -> bool {
    match host {
        None => true,
        Some(h) => {
            ||| text::same_ignore_case(h, "localhost"@)
            ||| text::has_suffix(text::lower(h), ".localhost"@)
            ||| (dotted(h) matches Some(n) && is_blocked(IpAddress::V4(n as u32)))
        },
    }
}

/// Whether the host of a URL is not to be reached by its name alone. An address of 128
/// bits stands in brackets there, and is looked up like a name.
pub fn is_blocked_host_literal(host: &Option<String>) -> (r: bool)
    ensures
        r == is_blocked_host(text::opt_view(*host)),
{
    let h = match host {
        None => {
            return true;
        },
        Some(h) => h.as_str(),
    };
    let lower = text::to_ascii_lowercase(h);
    if text::eq_ignore_ascii_case(h, "localhost") || text::ends_with(
        lower.as_str(),
        ".localhost",
    ) {
        return true;
    }
    match parse_dotted(h) {
        Some(n) => is_blocked_ip(IpAddress::V4(n)),
        None => false,
    }
}

/// Whether addresses that a name stands for are not to be reached.
pub open spec fn some_blocked(addresses: Seq<IpAddress>) -> bool {
    addresses.len() == 0 || exists|i: int|
        0 <= i < addresses.len() && is_blocked(#[trigger] addresses[i])
}

/// Whether a host whose name was looked up is not to be reached: one of its addresses is
/// blocked, or it has none.
pub fn resolves_to_blocked_ip(addresses: &Vec<IpAddress>) -> (r: bool)
    ensures
        r == (addresses@.len() == 0 || exists|i: int|
            0 <= i < addresses@.len() && is_blocked(#[trigger] addresses@[i])),
        r == some_blocked(addresses@),
{
    let mut i: usize = 0;
    while i < addresses.len()
        invariant
            i <= addresses@.len(),
            forall|j: int| 0 <= j < i ==> !is_blocked(#[trigger] addresses@[j]),
        decreases addresses@.len() - i,
    {
        if is_blocked_ip(addresses[i]) {
            return true;
        }
        i = i + 1;
    }
    addresses.len() == 0
}

// ---------------------------------------------------------------------------
// Fetching
// ---------------------------------------------------------------------------

/// The parts of a URL that matter here.
#[derive(Debug, Clone)]
pub struct UrlParts {
    pub scheme: String,
    pub host: Option<String>,
    pub port: Option<u16>,
}

#[verifier::ext_equal]
pub ghost struct Parts {
    pub scheme: Seq<char>,
    pub host: Option<Seq<char>>,
    pub port: Option<u16>,
}

impl UrlParts {
    pub open spec fn view(&self) -> Parts {
        Parts { scheme: self.scheme@, host: text::opt_view(self.host), port: self.port }
    }
}

pub open spec fn parts_view(r: Option<UrlParts>) -> Option<Parts> {
    match r {
        Some(u) => Some(u@),
        None => None,
    }
}

/// What `reqwest::Url` reads from a text; `None` where it is no URL.
pub uninterp spec fn url_parts(raw: Seq<char>) -> Option<Parts>;

/// Calls `reqwest::Url::parse` and reads `scheme`, `host_str` and `port_or_known_default`
/// of the result. The result is named `url_parts`.
#[verifier::external_body]
pub(crate) fn parse_url(raw: &str) -> (r: Option<UrlParts>)
    ensures
        parts_view(r) == url_parts(raw@),
{
    let url = reqwest::Url::parse(raw).ok()?;
    Some(UrlParts {
        scheme: url.scheme().to_owned(),
        host: url.host_str().map(|host| host.to_owned()),
        port: url.port_or_known_default(),
    })
}

/// Where a page is fetched from, and whether the addresses of the host are looked up and
/// checked first.
#[derive(Debug, Clone)]
pub struct FetchPlan {
    pub host: String,
    pub port: u16,
    pub look_up: bool,
}

#[verifier::ext_equal]
pub ghost struct Target {
    pub host: Seq<char>,
    pub port: u16,
    pub look_up: bool,
}

/// Where a page is fetched from, given its URL, or why it is not.
pub open spec fn target(parts: Option<Parts>) -> Result<Target, Seq<char>> {
    match parts {
        None => Err("Invalid URL"@),
        Some(u) => if u.scheme != "http"@ && u.scheme != "https"@ {
            Err("Unsupported URL scheme: "@ + u.scheme)
        } else if is_blocked_host(u.host) {
            Err("Blocked target host"@)
        } else {
            Ok(
                Target {
                    host: u.host->0,
                    port: match u.port {
                        Some(p) => p,
                        None => 80,
                    },
                    look_up: dotted(u.host->0) is None,
                },
            )
        },
    }
}

pub open spec fn plan_view(r: Result<FetchPlan, String>) -> Result<Target, Seq<char>> {
    match r {
        Ok(p) => Ok(Target { host: p.host@, port: p.port, look_up: p.look_up }),
        Err(e) => Err(e@),
    }
}

/// Decides where a page is fetched from, given the parts of its URL.
pub fn plan_parts(parts: &Option<UrlParts>) -> (r: Result<FetchPlan, String>)
    ensures
        plan_view(r) == target(parts_view(*parts)),
{
    let u = match parts {
        None => {
            return Err("Invalid URL".to_owned());
        },
        Some(u) => u,
    };
    if !text::same(u.scheme.as_str(), "http") && !text::same(u.scheme.as_str(), "https") {
        let mut e = "Unsupported URL scheme: ".to_owned();
        e.push_str(u.scheme.as_str());
        return Err(e);
    }
    if is_blocked_host_literal(&u.host) {
        return Err("Blocked target host".to_owned());
    }
    match &u.host {
        None => Err("Blocked target host".to_owned()),
        Some(host) => Ok(
            FetchPlan {
                host: host.clone(),
                port: match u.port {
                    Some(p) => p,
                    None => 80,
                },
                look_up: parse_dotted(host.as_str()).is_none(),
            },
        ),
    }
}

/// Decides where a page is fetched from.
pub fn plan_fetch(raw_url: &str) -> (r: Result<FetchPlan, String>)
    ensures
        plan_view(r) == target(url_parts(raw_url@)),
{
    let parts = parse_url(raw_url);
    plan_parts(&parts)
}

/// Whether so many bytes are too many.
pub open spec fn too_large(length: nat) -> bool {
    length > FETCH_RESPONSE_MAX_BYTES
}

/// What is made of a page of a length.
pub open spec fn page(content_type: Seq<char>, length: nat, body: Seq<char>) -> Result<
    Seq<char>,
    Seq<char>,
> {
    if too_large(length) {
        Err("Response too large"@)
    } else {
        page_text(content_type, body)
    }
}

/// Whether a page of a length is too large.
pub fn is_too_large(length: u64) -> (r: bool)
    ensures
        r == (length > FETCH_RESPONSE_MAX_BYTES),
        r == too_large(length as nat),
{
    length > FETCH_RESPONSE_MAX_BYTES as u64
}

// ---------------------------------------------------------------------------
// Reading pages
// ---------------------------------------------------------------------------

pub const ARTICLE_SELECTOR: &'static str = "article, main";

pub const BODY_SELECTOR: &'static str = "body";

pub const PARAGRAPH_SELECTOR: &'static str = "p, h1, h2, h3, li, blockquote";

/// The texts in a page: for each element that the first selector picks, for each element
/// in it that the second picks, the text nodes.
pub uninterp spec fn html_texts(html: Seq<char>, outer: Seq<char>, inner: Seq<char>) -> Seq<
    Seq<Seq<Seq<char>>>,
>;

pub open spec fn views2(v: Seq<Vec<String>>) -> Seq<Seq<Seq<char>>> {
    Seq::new(v.len(), |i: int| text::views(v[i]@))
}

pub open spec fn views3(v: Seq<Vec<Vec<String>>>) -> Seq<Seq<Seq<Seq<char>>>> {
    Seq::new(v.len(), |i: int| views2(v[i]@))
}

/// Calls `scraper::Html::parse_document`, `Html::select` with the first selector,
/// `ElementRef::select` with the second, and `ElementRef::text`. The result is named
/// `html_texts`. The selectors are ones that `scraper::Selector::parse` takes.
#[verifier::external_body]
pub(crate) fn select_texts(html: &str, outer: &str, inner: &str) -> (r: Vec<Vec<Vec<String>>>)
    requires
        outer@ == ARTICLE_SELECTOR@ || outer@ == BODY_SELECTOR@,
        inner@ == PARAGRAPH_SELECTOR@,
    ensures
        views3(r@) == html_texts(html@, outer@, inner@),
{
    let doc = scraper::Html::parse_document(html);
    let outer = scraper::Selector::parse(outer).unwrap();
    let inner = scraper::Selector::parse(inner).unwrap();
    doc.select(&outer)
        .map(|o| o.select(&inner).map(|i| i.text().map(|t| t.to_owned()).collect()).collect())
        .collect()
}

/// The text nodes of a page.
pub uninterp spec fn root_texts(html: Seq<char>) -> Seq<Seq<char>>;

/// Calls `scraper::Html::parse_document`, `Html::root_element` and `ElementRef::text`. The
/// result is named `root_texts`.
#[verifier::external_body]
pub(crate) fn all_texts(html: &str) -> (r: Vec<String>)
    ensures
        text::views(r@) == root_texts(html@),
{
    let doc = scraper::Html::parse_document(html);
    doc.root_element().text().map(|t| t.to_owned()).collect()
}

/// The text of an element in one line.
pub open spec fn one_line(texts: Seq<Seq<char>>) -> Seq<char> {
    text::collapse(text::join(texts, " "@))
}

/// The lines of some elements, without empty ones.
pub open spec fn chunks(elements: Seq<Seq<Seq<char>>>) -> Seq<Seq<char>>
    decreases elements.len(),
{
    if elements.len() == 0 {
        Seq::empty()
    } else {
        let rest = chunks(elements.drop_last());
        let line = one_line(elements.last());
        if line.len() == 0 {
            rest
        } else {
            rest.push(line)
        }
    }
}

/// The lines of some groups of elements.
pub open spec fn all_chunks(groups: Seq<Seq<Seq<Seq<char>>>>) -> Seq<Seq<char>>
    decreases groups.len(),
{
    if groups.len() == 0 {
        Seq::empty()
    } else {
        all_chunks(groups.drop_last()) + chunks(groups.last())
    }
}

/// The readable text of a page, given the texts in its articles, in its bodies, and in
/// all of it: the paragraphs of the articles; where there are none, those of the body;
/// and where there are none, everything.
pub open spec fn readable(
    articles: Seq<Seq<Seq<Seq<char>>>>,
    bodies: Seq<Seq<Seq<Seq<char>>>>,
    everything: Seq<Seq<char>>,
) -> Seq<char> {
    let of_articles = all_chunks(articles);
    let of_body = if bodies.len() == 0 {
        Seq::empty()
    } else {
        chunks(bodies[0])
    };
    if of_articles.len() > 0 {
        text::join(of_articles, "\n"@)
    } else if of_body.len() > 0 {
        text::join(of_body, "\n"@)
    } else {
        one_line(everything)
    }
}

/// The readable text of a page.
pub open spec fn readable_text(html: Seq<char>) -> Seq<char> {
    readable(
        html_texts(html, ARTICLE_SELECTOR@, PARAGRAPH_SELECTOR@),
        html_texts(html, BODY_SELECTOR@, PARAGRAPH_SELECTOR@),
        root_texts(html),
    )
}

fn make_line(texts: &Vec<String>) -> (r: String)
    ensures
        r@ == one_line(text::views(texts@)),
{
    let joined = text::joined(texts, " ");
    text::collapse_ws(joined.as_str())
}

fn chunks_of(elements: &Vec<Vec<String>>) -> (r: Vec<String>)
    ensures
        text::views(r@) == chunks(views2(elements@)),
{
    let ghost all = views2(elements@);
    let mut out: Vec<String> = Vec::new();
    let mut i: usize = 0;
    proof {
        assert(all.take(0) =~= Seq::<Seq<Seq<char>>>::empty());
        assert(text::views(out@) =~= Seq::<Seq<char>>::empty());
    }
    while i < elements.len()
        invariant
            all == views2(elements@),
            i <= elements@.len(),
            text::views(out@) == chunks(all.take(i as int)),
        decreases elements@.len() - i,
    {
        let ghost before = text::views(out@);
        proof {
            assert(all.take(i + 1).drop_last() =~= all.take(i as int));
            assert(all.take(i + 1).last() == text::views(elements@[i as int]@));
        }
        let line = make_line(&elements[i]);
        let ghost l = line@;
        if text::char_count(line.as_str()) > 0 {
            out.push(line);
            assert(text::views(out@) =~= before.push(l));
        }
        i = i + 1;
    }
    assert(all.take(i as int) =~= all);
    out
}

fn all_chunks_of(groups: &Vec<Vec<Vec<String>>>) -> (r: Vec<String>)
    ensures
        text::views(r@) == all_chunks(views3(groups@)),
{
    let ghost all = views3(groups@);
    let mut out: Vec<String> = Vec::new();
    let mut i: usize = 0;
    proof {
        assert(all.take(0) =~= Seq::<Seq<Seq<Seq<char>>>>::empty());
        assert(text::views(out@) =~= Seq::<Seq<char>>::empty());
    }
    while i < groups.len()
        invariant
            all == views3(groups@),
            i <= groups@.len(),
            text::views(out@) == all_chunks(all.take(i as int)),
        decreases groups@.len() - i,
    {
        let ghost before = text::views(out@);
        proof {
            assert(all.take(i + 1).drop_last() =~= all.take(i as int));
            assert(all.take(i + 1).last() == views2(groups@[i as int]@));
        }
        let mut more = chunks_of(&groups[i]);
        let ghost m = text::views(more@);
        let ghost old_out = out@;
        let ghost old_more = more@;
        out.append(&mut more);
        proof {
            assert(out@ =~= old_out + old_more);
            assert(text::views(out@) =~= before + m);
        }
        i = i + 1;
    }
    assert(all.take(i as int) =~= all);
    out
}

/// Puts together the readable text of a page, given the texts in it.
pub fn readable_from(
    articles: &Vec<Vec<Vec<String>>>,
    bodies: &Vec<Vec<Vec<String>>>,
    everything: &Vec<String>,
) -> (r: String)
    ensures
        r@ == readable(views3(articles@), views3(bodies@), text::views(everything@)),
{
    let of_articles = all_chunks_of(articles);
    assert(text::views(of_articles@).len() == of_articles@.len());
    if of_articles.len() > 0 {
        return text::joined(&of_articles, "\n");
    }
    assert(views3(bodies@).len() == bodies@.len());
    if bodies.len() > 0 {
        assert(views3(bodies@)[0] == views2(bodies@[0]@));
        let of_body = chunks_of(&bodies[0]);
        assert(text::views(of_body@).len() == of_body@.len());
        if of_body.len() > 0 {
            return text::joined(&of_body, "\n");
        }
    }
    make_line(everything)
}

/// The readable text of a page in HTML.
pub fn extract_readable_text(html: &str) -> (r: String)
    ensures
        r@ == readable_text(html@),
{
    let articles = select_texts(html, ARTICLE_SELECTOR, PARAGRAPH_SELECTOR);
    let bodies = select_texts(html, BODY_SELECTOR, PARAGRAPH_SELECTOR);
    let everything = all_texts(html);
    readable_from(&articles, &bodies, &everything)
}

/// What is kept of a page.
pub open spec fn page_text(content_type: Seq<char>, body: Seq<char>) -> Result<
    Seq<char>,
    Seq<char>,
> {
    let s = if html_types().contains(media_type(content_type)) {
        readable_text(body)
    } else {
        text::collapse(body)
    };
    if s.len() == 0 {
        Err("No readable content extracted"@)
    } else {
        Ok(shortened(s, FETCH_TEXT_MAX_CHARS as nat))
    }
}

/// Reads a page, given its content type and its length in bytes.
pub fn read_page(content_type: &str, length: usize, body: &str) -> (r: Result<String, String>)
    ensures
        crate::json::result_view(r) == if length > FETCH_RESPONSE_MAX_BYTES {
            Err("Response too large"@)
        } else {
            page_text(content_type@, body@)
        },
        crate::json::result_view(r) == page(content_type@, length as nat, body@),
{
    if length > FETCH_RESPONSE_MAX_BYTES {
        return Err("Response too large".to_owned());
    }
    let s = if is_html_content_type(content_type) {
        extract_readable_text(body)
    } else {
        text::collapse_ws(body)
    };
    if text::char_count(s.as_str()) == 0 {
        return Err("No readable content extracted".to_owned());
    }
    Ok(truncate_chars(s.as_str(), FETCH_TEXT_MAX_CHARS))
}

/// What is kept of a page is not empty, and no longer than the limit and three dots.
pub proof fn law_page_is_bounded(content_type: Seq<char>, body: Seq<char>)
    ensures
        page_text(content_type, body) matches Ok(s) ==> 0 < s.len() <= FETCH_TEXT_MAX_CHARS + 3,
{
    reveal_strlit("...");
}

/// A page is only fetched over HTTP, and never from the local host or from an address
/// that is blocked.
pub proof fn law_target_is_allowed(parts: Parts)
    ensures
        target(Some(parts)) matches Ok(t) ==> {
            &&& parts.scheme == "http"@ || parts.scheme == "https"@
            &&& parts.host == Some(t.host)
            &&& !text::same_ignore_case(t.host, "localhost"@)
            &&& dotted(t.host) matches Some(n) ==> !is_blocked(IpAddress::V4(n as u32))
            &&& !t.look_up ==> dotted(t.host) is Some
        },
{
}


// ---------------------------------------------------------------------------
// What is found, and what is let through
// ---------------------------------------------------------------------------

/// A text that is short enough is kept as it is; of a longer one the beginning, and three
/// dots.
pub proof fn law_long_texts_are_cut(s: Seq<char>, max: nat)
    ensures
        s.len() <= max ==> shortened(s, max) == s,
        s.len() > max ==> shortened(s, max).len() == max + 3 && text::has_prefix(
            shortened(s, max),
            s.take(max as int),
        ) && text::has_suffix(shortened(s, max), "..."@),
{
    broadcast use text::group_parts;

    reveal_strlit("...");
}

/// Of the results of a search the first are kept, in their order: as many as are wanted and
/// there, but ten at most. Each keeps its URL, its date and its source, and of its title and
/// its text the first 200 and 500 characters.
pub proof fn law_first_results_are_kept(results: Seq<SearxResult>, wanted: nat, i: int)
    ensures
        first_hits(results, wanted).len() <= wanted,
        first_hits(results, wanted).len() <= results.len(),
        first_hits(results, wanted).len() <= 10,
        first_hits(results, wanted).len() == wanted || first_hits(results, wanted).len()
            == results.len() || first_hits(results, wanted).len() == 10,
        0 <= i < first_hits(results, wanted).len() ==> {
            let h = first_hits(results, wanted)[i];
            let title = text::collapse(results[i].title@);
            &&& h.url == results[i].url@
            &&& h.published_at == text::opt_view(results[i].published_date)
            &&& h.source == text::opt_view(results[i].engine)
            &&& if title.len() <= 200 {
                h.title == title
            } else {
                text::has_prefix(h.title, title.take(200)) && h.title.len() == 203
            }
            &&& match results[i].content {
                None => h.snippet.len() == 0,
                Some(c) => if text::collapse(c@).len() <= 500 {
                    h.snippet == text::collapse(c@)
                } else {
                    text::has_prefix(h.snippet, text::collapse(c@).take(500)) && h.snippet.len()
                        == 503
                },
            }
        },
{
    if 0 <= i < first_hits(results, wanted).len() {
        law_long_texts_are_cut(text::collapse(results[i].title@), 200);
        match results[i].content {
            Some(c) => {
                law_long_texts_are_cut(text::collapse(c@), 500);
            },
            None => {
                let none = Seq::<char>::empty();
                assert(text::words(none) =~= Seq::<Seq<char>>::empty());
                assert(text::collapse(none).len() == 0);
            },
        }
    }
}

/// A page is HTML by its media type, in whatever case and whatever parameters follow it.
pub proof fn law_media_type_decides(kind: Seq<char>, parameters: Seq<char>)
    requires
        !kind.contains(';'),
        text::trim(kind) == kind,
    ensures
        is_html(kind + seq![';'] + parameters) == is_html(kind),
        text::same_ignore_case(kind, "text/html"@) ==> is_html(kind),
        text::same_ignore_case(kind, "application/xhtml+xml"@) ==> is_html(kind),
        text::same_ignore_case(kind, "application/xml"@) ==> is_html(kind),
        text::same_ignore_case(kind, "text/xml"@) ==> is_html(kind),
        is_html(kind) ==> text::has_suffix(text::lower(kind), "html"@) || text::has_suffix(
            text::lower(kind),
            "xml"@,
        ),
{
    text::law_first_part(kind, ';', parameters);
    reveal_strlit("text/html");
    reveal_strlit("application/xhtml+xml");
    reveal_strlit("application/xml");
    reveal_strlit("text/xml");
    reveal_strlit("html");
    reveal_strlit("xml");
    assert(text::lower("text/html"@) =~= "text/html"@);
    assert(text::lower("application/xhtml+xml"@) =~= "application/xhtml+xml"@);
    assert(text::lower("application/xml"@) =~= "application/xml"@);
    assert(text::lower("text/xml"@) =~= "text/xml"@);
    let t = html_types();
    assert(t[0] == "text/html"@);
    assert(t[1] == "application/xhtml+xml"@);
    assert(t[2] == "application/xml"@);
    assert(t[3] == "text/xml"@);
    assert(text::has_suffix("text/html"@, "html"@)) by {
        assert("text/html"@.subrange(5, 9) =~= "html"@);
    }
    assert(text::has_suffix("application/xhtml+xml"@, "xml"@)) by {
        assert("application/xhtml+xml"@.subrange(18, 21) =~= "xml"@);
    }
    assert(text::has_suffix("application/xml"@, "xml"@)) by {
        assert("application/xml"@.subrange(12, 15) =~= "xml"@);
    }
    assert(text::has_suffix("text/xml"@, "xml"@)) by {
        assert("text/xml"@.subrange(5, 8) =~= "xml"@);
    }
}

/// Which addresses of four numbers are not to be reached: those of the machine itself, of
/// private and link-local networks, of documentation, and the broadcast and the unspecified
/// address.
pub proof fn law_local_addresses_are_blocked(a: u8, b: u8, c: u8, d: u8)
    ensures
        ({
            let ip = IpAddress::V4(
                (a * 0x100_0000 + b * 0x1_0000 + c * 0x100 + d) as u32,
            );
            &&& a == 127 || a == 10 || (a == 192 && b == 168) || (a == 169 && b == 254)
                ==> is_blocked(ip)
            &&& a == 172 ==> (is_blocked(ip) <==> 16 <= b < 32)
            &&& (a == 0 && b == 0 && c == 0 && d == 0) || (a == 255 && b == 255 && c == 255 && d
                == 255) ==> is_blocked(ip)
            &&& (a == 192 && b == 0 && c == 2) || (a == 198 && b == 51 && c == 100) || (a == 203
                && b == 0 && c == 113) ==> is_blocked(ip)
            &&& is_blocked(ip) ==> a == 0 || a == 10 || a == 127 || a == 169 || a == 172 || a
                == 192 || a == 198 || a == 203 || a == 255
            &&& a == 192 && is_blocked(ip) ==> b == 168 || (b == 0 && c == 2)
            &&& a == 169 && is_blocked(ip) ==> b == 254
            &&& a == 198 && is_blocked(ip) ==> b == 51 && c == 100
            &&& a == 203 && is_blocked(ip) ==> b == 0 && c == 113
            &&& a == 0 && is_blocked(ip) ==> b == 0 && c == 0 && d == 0
            &&& a == 255 && is_blocked(ip) ==> b == 255 && c == 255 && d == 255
        }),
{
}

/// Of the long addresses, those of the machine itself, the unspecified one, and those that
/// begin with the bits of unique local (`fc00::/7`) and of link-local (`fe80::/10`) networks
/// are not to be reached.
pub proof fn law_long_local_addresses_are_blocked(n: u128)
    ensures
        n <= 1 ==> is_blocked(IpAddress::V6(n)),
        n as int / 0x200_0000_0000_0000_0000_0000_0000_0000 == 0x7e ==> is_blocked(
            IpAddress::V6(n),
        ),
        n as int / 0x40_0000_0000_0000_0000_0000_0000_0000 == 0x3fa ==> is_blocked(
            IpAddress::V6(n),
        ),
        is_blocked(IpAddress::V6(n)) ==> n <= 1 || n as int
            / 0x200_0000_0000_0000_0000_0000_0000_0000 == 0x7e || n as int
            / 0x40_0000_0000_0000_0000_0000_0000_0000 == 0x3fa,
{
}

/// A name is reached only if it stands for an address and for none that is blocked.
pub proof fn law_one_blocked_address_is_enough(addresses: Seq<IpAddress>, i: int)
    ensures
        addresses.len() == 0 ==> some_blocked(addresses),
        0 <= i < addresses.len() && is_blocked(addresses[i]) ==> some_blocked(addresses),
        some_blocked(addresses) && addresses.len() > 0 ==> exists|j: int|
            0 <= j < addresses.len() && is_blocked(#[trigger] addresses[j]),
{
}

proof fn lemma_octet(n: nat)
    requires
        n <= 255,
    ensures
        octet(text::decimal(n)) == Some(n),
        !text::decimal(n).contains('.'),
{
    text::law_decimal_is_read_back(n);
    let s = text::decimal(n);
    reveal_with_fuel(text::decimal, 3);
    if s.contains('.') {
        let i = s.index_of('.');
        assert(text::is_digit(s[i]));
    }
}

/// Four numbers up to 255 with dots between them are read as the address that they stand
/// for, and are blocked as a host where the address is.
pub proof fn law_addresses_are_read(a: u8, b: u8, c: u8, d: u8)
    ensures
        ({
            let s = text::decimal(a as nat) + seq!['.'] + (text::decimal(b as nat) + seq!['.'] + (
            text::decimal(c as nat) + seq!['.'] + text::decimal(d as nat)));
            let n = (a * 0x100_0000 + b * 0x1_0000 + c * 0x100 + d) as nat;
            &&& dotted(s) == Some(n)
            &&& is_blocked(IpAddress::V4(n as u32)) ==> is_blocked_host(Some(s))
        }),
{
    let (w, x, y, z) = (
        text::decimal(a as nat),
        text::decimal(b as nat),
        text::decimal(c as nat),
        text::decimal(d as nat),
    );
    lemma_octet(a as nat);
    lemma_octet(b as nat);
    lemma_octet(c as nat);
    lemma_octet(d as nat);
    let r1 = y + seq!['.'] + z;
    let r2 = x + seq!['.'] + r1;
    text::law_first_part(z, '.', z);
    text::law_first_part(y, '.', z);
    text::law_first_part(x, '.', r1);
    text::law_first_part(w, '.', r2);
    let p = text::parts(w + seq!['.'] + r2, '.');
    assert(p =~= seq![w, x, y, z]);
}

/// A page is fetched from the host and the port of its URL, port 80 if it names none; a host
/// that is no address is looked up.
pub proof fn law_pages_are_fetched(parts: Parts, host: Seq<char>)
    requires
        parts.host == Some(host),
        parts.scheme == "http"@ || parts.scheme == "https"@,
        !is_blocked_host(Some(host)),
    ensures
        target(Some(parts)) matches Ok(t) && t.host == host && (parts.port matches Some(p)
            ==> t.port == p) && (parts.port is None ==> t.port == 80) && t.look_up == (dotted(host)
            is None),
{
}

/// Nothing is fetched without a host, from the machine itself by any of its names, or with
/// another scheme.
pub proof fn law_local_pages_are_refused(parts: Parts, name: Seq<char>)
    ensures
        target(None) == Err::<Target, Seq<char>>("Invalid URL"@),
        parts.host is None ==> target(Some(parts)) is Err,
        parts.host matches Some(h) && text::same_ignore_case(h, "localhost"@) ==> target(
            Some(parts),
        ) is Err,
        parts.host matches Some(h) && h == name + ".localhost"@ ==> target(Some(parts)) is Err,
        parts.scheme != "http"@ && parts.scheme != "https"@ ==> (target(Some(parts)) matches Err(e)
            && text::has_suffix(e, parts.scheme)),
{
    broadcast use text::group_parts;

    reveal_strlit(".localhost");
    let l = ".localhost"@;
    let h = name + l;
    assert(text::lower(h) =~= text::lower(name) + l) by {
        assert forall|i: int| 0 <= i < h.len() implies text::lower(h)[i] == (text::lower(name) + l)[
            i] by {
            if i >= name.len() {
                assert(h[i] == l[i - name.len()]);
                assert(text::lower_char(l[i - name.len()]) == l[i - name.len()]);
            }
        }
    }
}

/// A page of more than 512 KiB is refused, and no smaller one.
pub proof fn law_large_pages_are_refused(content_type: Seq<char>, length: nat, body: Seq<char>)
    ensures
        too_large(length) <==> length > 512 * 1024,
        length > 512 * 1024 ==> page(content_type, length, body) == Err::<Seq<char>, Seq<char>>(
            "Response too large"@,
        ),
        length <= 512 * 1024 ==> page(content_type, length, body) == page_text(content_type, body),
{
}

/// Each element with a text gives a line, in the order of the elements; empty ones give none.
pub proof fn law_elements_give_lines(elements: Seq<Seq<Seq<char>>>, texts: Seq<Seq<char>>)
    ensures
        chunks(Seq::empty()) == Seq::<Seq<char>>::empty(),
        one_line(texts).len() > 0 ==> chunks(elements.push(texts)) == chunks(elements).push(
            text::collapse(text::join(texts, " "@)),
        ),
        one_line(texts).len() == 0 ==> chunks(elements.push(texts)) == chunks(elements),
{
    assert(elements.push(texts).drop_last() =~= elements);
}

/// The lines of all groups stand one after the other.
pub proof fn law_groups_follow_each_other(
    groups: Seq<Seq<Seq<Seq<char>>>>,
    group: Seq<Seq<Seq<char>>>,
)
    ensures
        all_chunks(groups.push(group)) == all_chunks(groups) + chunks(group),
        all_chunks(Seq::empty()) == Seq::<Seq<char>>::empty(),
{
    assert(groups.push(group).drop_last() =~= groups);
}

/// What is read of a page: each line of its articles; without any, each of its body; and
/// without any, all of its text in one line.
pub proof fn law_articles_are_read_first(
    articles: Seq<Seq<Seq<Seq<char>>>>,
    bodies: Seq<Seq<Seq<Seq<char>>>>,
    everything: Seq<Seq<char>>,
    i: int,
)
    ensures
        0 <= i < all_chunks(articles).len() ==> text::has(
            readable(articles, bodies, everything),
            all_chunks(articles)[i],
        ),
        all_chunks(articles).len() > 0 ==> readable(articles, bodies, everything) == text::join(
            all_chunks(articles),
            "\n"@,
        ),
        all_chunks(articles).len() == 0 && bodies.len() > 0 && 0 <= i < chunks(bodies[0]).len()
            ==> text::has(readable(articles, bodies, everything), chunks(bodies[0])[i]),
        all_chunks(articles).len() == 0 && (bodies.len() == 0 || chunks(bodies[0]).len() == 0)
            ==> readable(articles, bodies, everything) == text::collapse(
            text::join(everything, " "@),
        ),
{
    if 0 <= i < all_chunks(articles).len() {
        text::law_joined_holds_each(all_chunks(articles), "\n"@, i);
    }
    if bodies.len() > 0 && 0 <= i < chunks(bodies[0]).len() {
        text::law_joined_holds_each(chunks(bodies[0]), "\n"@, i);
    }
}

/// HTML is read for its paragraphs, anything else as it is; a text of up to 8000 characters is
/// kept whole, of a longer one the first 8000; and a page without text is refused.
pub proof fn law_pages_are_read(content_type: Seq<char>, body: Seq<char>)
    ensures
        ({
            let s = if is_html(content_type) {
                readable_text(body)
            } else {
                text::collapse(body)
            };
            &&& s.len() == 0 ==> page_text(content_type, body) is Err
            &&& 0 < s.len() <= 8000 ==> page_text(content_type, body) == Ok::<Seq<char>, Seq<char>>(
                s,
            )
            &&& s.len() > 8000 ==> (page_text(content_type, body) matches Ok(t) && text::has_prefix(
                t,
                s.take(8000),
            ) && t.len() == 8003)
        }),
        readable_text(body) == readable(
            html_texts(body, "article, main"@, "p, h1, h2, h3, li, blockquote"@),
            html_texts(body, "body"@, "p, h1, h2, h3, li, blockquote"@),
            root_texts(body),
        ),
{
    let s = if is_html(content_type) {
        readable_text(body)
    } else {
        text::collapse(body)
    };
    law_long_texts_are_cut(s, 8000);
}


/// Nothing but four numbers up to 255, without leading zeros and with dots between them, is
/// read as an address.
pub proof fn law_only_addresses_are_read(s: Seq<char>, i: int)
    requires
        dotted(s) is Some,
    ensures
        text::parts(s, '.').len() == 4,
        0 <= i < 4 ==> {
            let p = text::parts(s, '.')[i];
            &&& text::is_digits(p)
            &&& 1 <= p.len() <= 3
            &&& text::digits_value(p) <= 255
            &&& p.len() > 1 ==> p[0] != '0'
        },
{
    let p = text::parts(s, '.');
    assert(octet(p[0]) is Some && octet(p[1]) is Some && octet(p[2]) is Some && octet(p[3])
        is Some);
}

} // verus!
