//! The emotes of 7TV: which of them a model is told about.
use vstd::prelude::*;
use crate::text;
use crate::time;
use crate::time::{Duration, Instant};

verus! {

pub const DEFAULT_BASE_URL: &'static str = "https://7tv.io/v3";

/// How long a request may take, in seconds.
pub const REQUEST_TIMEOUT_SECS: u64 = 5;

pub const PROMPT_HEAD: &'static str =
    "\n\n7TV emotes available in this channel:\nUse only these exact emote codes, only when they naturally match the tone. Do not explain emotes. Use at most one or two emotes per response, and skip emotes for serious topics.\n";

/// An entry of the glossary.
#[derive(Debug, Clone)]
pub struct GlossaryEmote {
    pub name: String,
    pub meaning: String,
    pub usage: Option<String>,
    pub avoid: Option<String>,
}

/// An emote of the catalog.
#[derive(Debug, Clone)]
pub struct SevenTvEmote {
    pub name: String,
}

// ---------------------------------------------------------------------------
// The catalog
// ---------------------------------------------------------------------------

/// The names of some emotes, each once, added to some names. Blank names are left out.
pub open spec fn merged(names: Seq<Seq<char>>, emotes: Seq<SevenTvEmote>) -> Seq<Seq<char>>
    decreases emotes.len(),
{
    if emotes.len() == 0 {
        names
    } else {
        let rest = merged(names, emotes.drop_last());
        let name = emotes.last().name@;
        if text::trim(name).len() == 0 || rest.contains(name) {
            rest
        } else {
            rest.push(name)
        }
    }
}

fn add_emotes(names: &mut Vec<String>, emotes: &Vec<SevenTvEmote>)
    requires
        text::views(old(names)@).no_duplicates(),
    ensures
        text::views(final(names)@) == merged(text::views(old(names)@), emotes@),
        text::views(final(names)@).no_duplicates(),
{
    let ghost start = text::views(names@);
    let mut i: usize = 0;
    assert(emotes@.take(0) =~= Seq::<SevenTvEmote>::empty());
    while i < emotes.len()
        invariant
            i <= emotes@.len(),
            text::views(names@) == merged(start, emotes@.take(i as int)),
            text::views(names@).no_duplicates(),
        decreases emotes@.len() - i,
    {
        let ghost before = text::views(names@);
        assert(emotes@.take(i + 1).drop_last() =~= emotes@.take(i as int));
        let bare = text::trimmed(emotes[i].name.as_str());
        if text::char_count(bare.as_str()) > 0 && !text::is_one_of(
            emotes[i].name.as_str(),
            names,
        ) {
            names.push(emotes[i].name.clone());
            assert(text::views(names@) =~= before.push(emotes@[i as int].name@));
        }
        i = i + 1;
    }
    assert(emotes@.take(i as int) =~= emotes@);
}

/// The names of all emotes, global ones and those of the channel, each once.
pub fn merge_emote_sets(global: &Vec<SevenTvEmote>, channel: &Vec<SevenTvEmote>) -> (r: Vec<String>)
    ensures
        text::views(r@) == merged(merged(Seq::empty(), global@), channel@),
        text::views(r@).no_duplicates(),
{
    let mut names: Vec<String> = Vec::new();
    assert(text::views(names@) =~= Seq::<Seq<char>>::empty());
    add_emotes(&mut names, global);
    add_emotes(&mut names, channel);
    names
}

pub open spec fn emotes_in(fetched: Option<Vec<SevenTvEmote>>) -> Seq<SevenTvEmote> {
    match fetched {
        Some(e) => e@,
        None => Seq::empty(),
    }
}

/// The names of all emotes, given what was fetched, where there is a catalog.
pub open spec fn catalog(
    global: Option<Vec<SevenTvEmote>>,
    channel: Option<Vec<SevenTvEmote>>,
) -> Option<Seq<Seq<char>>> {
    if (global is None || channel is None) && emotes_in(global).len() == 0 && emotes_in(
        channel,
    ).len() == 0 {
        None
    } else {
        Some(merged(merged(Seq::empty(), emotes_in(global)), emotes_in(channel)))
    }
}

/// The names of all emotes, given what was fetched; `None` stands for a failure. Where
/// something failed and nothing came, there is no catalog.
pub fn collect_catalog(
    global: &Option<Vec<SevenTvEmote>>,
    channel: &Option<Vec<SevenTvEmote>>,
) -> (r: Option<Vec<String>>)
    ensures
        match r {
            None => (*global is None || *channel is None) && emotes_in(*global).len() == 0
                && emotes_in(*channel).len() == 0,
            Some(names) => {
                &&& !((*global is None || *channel is None) && emotes_in(*global).len() == 0
                    && emotes_in(*channel).len() == 0)
                &&& text::views(names@) == merged(
                    merged(Seq::empty(), emotes_in(*global)),
                    emotes_in(*channel),
                )
            },
        },
        match r {
            None => catalog(*global, *channel) is None,
            Some(names) => catalog(*global, *channel) == Some(text::views(names@)),
        },
{
    let none: Vec<SevenTvEmote> = Vec::new();
    let failed = global.is_none() || channel.is_none();
    let g = match global {
        Some(e) => e,
        None => &none,
    };
    let c = match channel {
        Some(e) => e,
        None => &none,
    };
    assert(g@ =~= emotes_in(*global));
    assert(c@ =~= emotes_in(*channel));
    if g.len() == 0 && c.len() == 0 && failed {
        return None;
    }
    Some(merge_emote_sets(g, c))
}

// ---------------------------------------------------------------------------
// The prompt
// ---------------------------------------------------------------------------

/// An optional field with its label, where it says something.
pub open spec fn labelled(label: Seq<char>, field: Option<String>) -> Seq<char> {
    match field {
        Some(f) => if text::collapse(f@).len() == 0 {
            Seq::empty()
        } else {
            label + text::collapse(f@)
        },
        None => Seq::empty(),
    }
}

/// The line of an entry.
pub open spec fn emote_line(e: GlossaryEmote) -> Seq<char> {
    "- "@ + text::trim(e.name@) + ": meaning="@ + text::collapse(e.meaning@) + labelled(
        "; use="@,
        e.usage,
    ) + labelled("; avoid="@, e.avoid)
}

/// Whether an entry has a line: it is the first with its name, the emote is available, and
/// it has a meaning.
pub open spec fn has_line(glossary: Seq<GlossaryEmote>, i: int, available: Seq<Seq<char>>) -> bool {
    let name = text::trim(glossary[i].name@);
    &&& name.len() > 0
    &&& forall|j: int| 0 <= j < i ==> text::trim((#[trigger] glossary[j]).name@) != name
    &&& available.contains(name)
    &&& text::collapse(glossary[i].meaning@).len() > 0
}

/// The lines of the first `n` entries. Nothing is added once there are enough.
pub open spec fn lines(
    glossary: Seq<GlossaryEmote>,
    n: int,
    available: Seq<Seq<char>>,
    max: nat,
) -> Seq<Seq<char>>
    decreases n,
{
    if n <= 0 {
        Seq::empty()
    } else {
        let rest = lines(glossary, n - 1, available, max);
        if rest.len() > 0 && rest.len() >= max {
            rest
        } else if has_line(glossary, n - 1, available) {
            rest.push(emote_line(glossary[n - 1]))
        } else {
            rest
        }
    }
}

/// What a model is told of the emotes.
pub open spec fn prompt_block(
    glossary: Seq<GlossaryEmote>,
    available: Seq<Seq<char>>,
    max: nat,
) -> Option<Seq<char>> {
    let all = lines(glossary, glossary.len() as int, available, max);
    if all.len() == 0 {
        None
    } else {
        Some(PROMPT_HEAD@ + text::join(all, "\n"@))
    }
}

fn push_labelled(s: &mut String, label: &str, field: &Option<String>)
    ensures
        final(s)@ == old(s)@ + labelled(label@, *field),
{
    if let Some(f) = field {
        let value = text::collapse_ws(f.as_str());
        if text::char_count(value.as_str()) > 0 {
            s.push_str(label);
            s.push_str(value.as_str());
        }
    }
    assert(s@ =~= old(s)@ + labelled(label@, *field));
}

fn make_line(e: &GlossaryEmote) -> (r: String)
    ensures
        r@ == emote_line(*e),
{
    let mut s = "- ".to_owned();
    s.push_str(text::trimmed(e.name.as_str()).as_str());
    s.push_str(": meaning=");
    s.push_str(text::collapse_ws(e.meaning.as_str()).as_str());
    push_labelled(&mut s, "; use=", &e.usage);
    push_labelled(&mut s, "; avoid=", &e.avoid);
    s
}

fn seen_before(glossary: &Vec<GlossaryEmote>, i: usize, name: &str) -> (r: bool)
    requires
        i <= glossary@.len(),
    ensures
        !r == forall|j: int| 0 <= j < i ==> text::trim((#[trigger] glossary@[j]).name@) != name@,
{
    let mut j: usize = 0;
    while j < i
        invariant
            j <= i <= glossary@.len(),
            forall|k: int| 0 <= k < j ==> text::trim((#[trigger] glossary@[k]).name@) != name@,
        decreases i - j,
    {
        let other = text::trimmed(glossary[j].name.as_str());
        if text::same(other.as_str(), name) {
            return true;
        }
        j = j + 1;
    }
    false
}

fn is_listed(glossary: &Vec<GlossaryEmote>, i: usize, available: &Vec<String>) -> (r: bool)
    requires
        i < glossary@.len(),
    ensures
        r == has_line(glossary@, i as int, text::views(available@)),
{
    let name = text::trimmed(glossary[i].name.as_str());
    let meaning = text::collapse_ws(glossary[i].meaning.as_str());
    text::char_count(name.as_str()) > 0 && !seen_before(glossary, i, name.as_str())
        && text::is_one_of(name.as_str(), available) && text::char_count(meaning.as_str()) > 0
}

/// What a model is told of the emotes: one line for each entry of the glossary whose emote
/// is available, up to a number.
pub fn build_prompt_block(
    glossary: &Vec<GlossaryEmote>,
    available: &Vec<String>,
    max_prompt_emotes: usize,
) -> (r: Option<String>)
    ensures
        text::opt_view(r) == prompt_block(
            glossary@,
            text::views(available@),
            max_prompt_emotes as nat,
        ),
{
    let ghost names = text::views(available@);
    let mut out: Vec<String> = Vec::new();
    let mut i: usize = 0;
    assert(text::views(out@) =~= Seq::<Seq<char>>::empty());
    while i < glossary.len()
        invariant
            names == text::views(available@),
            i <= glossary@.len(),
            text::views(out@) == lines(glossary@, i as int, names, max_prompt_emotes as nat),
        decreases glossary@.len() - i,
    {
        let ghost before = text::views(out@);
        assert(before.len() == out@.len());
        let enough = out.len() > 0 && out.len() >= max_prompt_emotes;
        if !enough && is_listed(glossary, i, available) {
            out.push(make_line(&glossary[i]));
            assert(text::views(out@) =~= before.push(emote_line(glossary@[i as int])));
        }
        i = i + 1;
    }
    assert(text::views(out@).len() == out@.len());
    if out.len() == 0 {
        return None;
    }
    let mut s = PROMPT_HEAD.to_owned();
    s.push_str(text::joined(&out, "\n").as_str());
    Some(s)
}

/// There are never more lines than are allowed, or than one where none is.
pub proof fn law_prompt_is_bounded(
    glossary: Seq<GlossaryEmote>,
    n: int,
    available: Seq<Seq<char>>,
    max: nat,
)
    ensures
        lines(glossary, n, available, max).len() <= if max > 0 {
            max
        } else {
            1
        },
    decreases n,
{
    if n > 0 {
        law_prompt_is_bounded(glossary, n - 1, available, max);
    }
}

/// Every line is that of an entry whose emote is available.
pub proof fn law_only_available_emotes(
    glossary: Seq<GlossaryEmote>,
    n: int,
    available: Seq<Seq<char>>,
    max: nat,
    k: int,
)
    requires
        0 <= n <= glossary.len(),
        0 <= k < lines(glossary, n, available, max).len(),
    ensures
        exists|i: int|
            0 <= i < n && available.contains(text::trim((#[trigger] glossary[i]).name@)) && lines(
                glossary,
                n,
                available,
                max,
            )[k] == emote_line(glossary[i]),
    decreases n,
{
    let rest = lines(glossary, n - 1, available, max);
    if k < rest.len() {
        law_only_available_emotes(glossary, n - 1, available, max, k);
    } else {
        assert(available.contains(text::trim(glossary[n - 1].name@)));
    }
}

// ---------------------------------------------------------------------------
// The cache of the prompt
// ---------------------------------------------------------------------------

/// Whether something that was made at some time is to be made anew.
pub open spec fn is_old(last: Option<int>, interval: int, now: int) -> bool {
    match last {
        Some(t) => time::passed(now, t) >= interval,
        None => true,
    }
}

/// A prompt is made at first, and anew once the interval is over; not before.
pub proof fn law_prompt_is_made_anew(last: int, interval: int, now: int)
    requires
        last <= now,
    ensures
        is_old(None, interval, now),
        is_old(Some(last), interval, now) <==> now >= last + interval,
{
}

/// The prompt, and when it was last made.
#[derive(Debug, Clone)]
pub struct PromptCache {
    pub last_refresh: Option<Instant>,
    pub prompt: Option<String>,
}

impl PromptCache {
    pub fn new() -> (r: PromptCache)
        ensures
            r.last_refresh is None,
            r.prompt is None,
    {
        PromptCache { last_refresh: None, prompt: None }
    }

    /// Whether the prompt is to be made anew.
    pub fn is_stale(&self, refresh_interval: Duration, now: Instant) -> (r: bool)
        ensures
            r == match self.last_refresh {
                Some(last) => time::passed(now@, last@) >= refresh_interval@,
                None => true,
            },
            r == is_old(
                match self.last_refresh {
                    Some(last) => Some(last@),
                    None => None,
                },
                refresh_interval@,
                now@,
            ),
    {
        match self.last_refresh {
            Some(last) => now.since(&last).nanos >= refresh_interval.nanos,
            None => true,
        }
    }

    /// Takes a prompt that was made.
    pub fn refreshed(&mut self, prompt: Option<String>, now: Instant)
        ensures
            final(self).last_refresh == Some(now),
            final(self).prompt == prompt,
    {
        self.last_refresh = Some(now);
        self.prompt = prompt;
    }

    /// Notes that no prompt could be made; the last one stays.
    pub fn failed(&mut self, now: Instant)
        ensures
            final(self).last_refresh == Some(now),
            final(self).prompt == old(self).prompt,
    {
        self.last_refresh = Some(now);
    }
}

// ---------------------------------------------------------------------------
// Addresses
// ---------------------------------------------------------------------------

/// The address of the API: the configured one, or the usual one.
pub open spec fn base_of(configured: Option<Seq<char>>) -> Seq<char> {
    match configured {
        Some(url) => text::strip_trailing(url, '/'),
        None => text::strip_trailing(DEFAULT_BASE_URL@, '/'),
    }
}

/// Where the emotes of all channels, or those of one, are.
pub open spec fn emotes_url(base: Seq<char>, channel_id: Option<Seq<char>>) -> Seq<char> {
    match channel_id {
        Some(id) => base + "/users/twitch/"@ + id,
        None => base + "/emote-sets/global"@,
    }
}

/// The address of the API without a slash at its end.
pub fn base_url(configured: &Option<String>) -> (r: String)
    ensures
        r@ == text::strip_trailing(
            match *configured {
                Some(url) => url@,
                None => DEFAULT_BASE_URL@,
            },
            '/',
        ),
        r@ == base_of(text::opt_view(*configured)),
{
    match configured {
        Some(url) => text::trim_end_matches(url.as_str(), '/'),
        None => text::trim_end_matches(DEFAULT_BASE_URL, '/'),
    }
}

pub fn global_url(base: &str) -> (r: String)
    ensures
        r@ == base@ + "/emote-sets/global"@,
        r@ == emotes_url(base@, None),
{
    let mut s = base.to_owned();
    s.push_str("/emote-sets/global");
    s
}

pub fn channel_url(base: &str, twitch_channel_id: &str) -> (r: String)
    ensures
        r@ == base@ + "/users/twitch/"@ + twitch_channel_id@,
        r@ == emotes_url(base@, Some(twitch_channel_id@)),
{
    let mut s = base.to_owned();
    s.push_str("/users/twitch/");
    s.push_str(twitch_channel_id);
    s
}


/// Emotes are added by name, but for blank names and those that are there; none is lost.
pub proof fn law_emotes_are_merged(names: Seq<Seq<char>>, emotes: Seq<SevenTvEmote>, name: Seq<char>)
    ensures
        merged(names, emotes).contains(name) <==> names.contains(name) || (text::trim(name).len() > 0
            && exists|i: int| 0 <= i < emotes.len() && (#[trigger] emotes[i]).name@ == name),
        names.no_duplicates() ==> merged(names, emotes).no_duplicates(),
    decreases emotes.len(),
{
    if emotes.len() > 0 {
        let shorter = emotes.drop_last();
        law_emotes_are_merged(names, shorter, name);
        let rest = merged(names, shorter);
        let all = merged(names, emotes);
        let last = emotes.last().name@;
        if rest.contains(name) {
            let i = rest.index_of(name);
            assert(all[i] == name);
        }
        if all.contains(name) && !rest.contains(name) {
            let i = all.index_of(name);
            if i < rest.len() {
                assert(rest[i] == name);
            }
            assert(emotes[emotes.len() - 1].name@ == name);
        }
        if exists|i: int| 0 <= i < emotes.len() && (#[trigger] emotes[i]).name@ == name {
            let i = choose|i: int| 0 <= i < emotes.len() && (#[trigger] emotes[i]).name@ == name;
            if i < shorter.len() {
                assert(shorter[i].name@ == name);
            } else if text::trim(name).len() > 0 && !rest.contains(name) {
                assert(all[all.len() - 1] == name);
            }
        }
        if exists|i: int| 0 <= i < shorter.len() && (#[trigger] shorter[i]).name@ == name {
            let i = choose|i: int| 0 <= i < shorter.len() && (#[trigger] shorter[i]).name@ == name;
            assert(emotes[i].name@ == name);
        }
    }
}

/// The catalog holds the emotes of all channels and those of the channel, as far as they could
/// be fetched; only where something failed and nothing came, there is none.
pub proof fn law_catalog_holds_both(
    global: Option<Vec<SevenTvEmote>>,
    channel: Option<Vec<SevenTvEmote>>,
    i: int,
)
    ensures
        global matches Some(e) ==> 0 <= i < e@.len() && text::trim(e@[i].name@).len() > 0 ==> (
        catalog(global, channel) matches Some(c) && c.contains(e@[i].name@)),
        channel matches Some(e) ==> 0 <= i < e@.len() && text::trim(e@[i].name@).len() > 0 ==> (
        catalog(global, channel) matches Some(c) && c.contains(e@[i].name@)),
        global is Some && channel is Some ==> catalog(global, channel) is Some,
        global is None && channel is None ==> catalog(global, channel) is None,
{
    let g = merged(Seq::empty(), emotes_in(global));
    if let Some(e) = global {
        if 0 <= i < e@.len() {
            law_emotes_are_merged(Seq::empty(), e@, e@[i].name@);
            law_emotes_are_merged(g, emotes_in(channel), e@[i].name@);
        }
    }
    if let Some(e) = channel {
        if 0 <= i < e@.len() {
            law_emotes_are_merged(g, e@, e@[i].name@);
        }
    }
}

/// The line of an emote tells its name and what it means, when to use it and when not, as far
/// as the glossary says so.
pub proof fn law_emote_line_tells_all(e: GlossaryEmote)
    ensures
        text::has_prefix(
            emote_line(e),
            "- "@ + text::trim(e.name@) + ": meaning="@ + text::collapse(e.meaning@),
        ),
        e.usage matches Some(u) ==> text::collapse(u@).len() > 0 ==> text::has(
            emote_line(e),
            "; use="@ + text::collapse(u@),
        ),
        e.avoid matches Some(a) ==> text::collapse(a@).len() > 0 ==> text::has_suffix(
            emote_line(e),
            "; avoid="@ + text::collapse(a@),
        ),
{
    broadcast use text::group_parts;

}

/// Each entry of an emote that is available and has a meaning gets a line, unless an earlier
/// entry has its name or there are enough lines; the prompt holds all lines behind its head.
pub proof fn law_available_emotes_are_told(
    glossary: Seq<GlossaryEmote>,
    available: Seq<Seq<char>>,
    max: nat,
    n: int,
)
    requires
        0 <= n < glossary.len(),
    ensures
        ({
            let name = text::trim(glossary[n].name@);
            let before = lines(glossary, n, available, max);
            let listed = name.len() > 0 && available.contains(name) && text::collapse(
                glossary[n].meaning@,
            ).len() > 0 && forall|j: int|
                0 <= j < n ==> text::trim((#[trigger] glossary[j]).name@) != name;
            &&& listed && (before.len() == 0 || before.len() < max) ==> lines(
                glossary,
                n + 1,
                available,
                max,
            ) == before.push(emote_line(glossary[n]))
            &&& !listed || before.len() > 0 && before.len() >= max ==> lines(
                glossary,
                n + 1,
                available,
                max,
            ) == before
        }),
        ({
            let all = lines(glossary, glossary.len() as int, available, max);
            &&& all.len() == 0 <==> prompt_block(glossary, available, max) is None
            &&& 0 <= n < all.len() ==> text::has(prompt_block(glossary, available, max)->0, all[n])
        }),
{
    broadcast use text::group_parts;

    let all = lines(glossary, glossary.len() as int, available, max);
    if 0 <= n < all.len() {
        text::law_joined_holds_each(all, "\n"@, n);
    }
}

/// Emotes are fetched from the configured address, whether it ends with a slash or not.
pub proof fn law_emotes_are_fetched_from(base: Seq<char>, id: Seq<char>)
    requires
        base.len() > 0,
        base.last() != '/',
    ensures
        base_of(Some(base)) == base,
        base_of(Some(base.push('/'))) == base,
        emotes_url(base, None) == base + "/emote-sets/global"@,
        emotes_url(base, Some(id)) == base + "/users/twitch/"@ + id,
{
    assert(base.push('/').drop_last() =~= base);
    reveal_with_fuel(text::strip_trailing, 3);
}

} // verus!
