//! The configuration of the bot: its sections, their defaults, and the checks on it.
use vstd::prelude::*;
use crate::berlin;
use crate::schedule::{Schedule, ScheduleConfig};
use crate::text;

verus! {

pub const DEFAULT_EXPECTED_LATENCY: u32 = 100;

pub const DEFAULT_SYSTEM_PROMPT: &'static str =
    "You are a helpful Twitch chat bot assistant. Keep responses brief (2-3 sentences max) since they'll appear in chat. Be friendly and casual. Respond in the same language the user writes in (German or English).";

pub const DEFAULT_INSTRUCTION_TEMPLATE: &'static str = "{chat_history}\n{message}";

pub const DEFAULT_AI_TIMEOUT: u64 = 30;

pub const DEFAULT_MAX_USER: usize = 50;

pub const DEFAULT_RUN_AT: &'static str = "04:00";

pub const DEFAULT_CONSOLIDATION_TIMEOUT: u64 = 120;

/// The channel the bot serves, and its account there.
#[derive(Debug, Clone)]
pub struct TwitchConfiguration {
    pub channel: String,
    pub username: String,
    /// In milliseconds.
    pub expected_latency: u32,
    pub hidden_admins: Vec<String>,
    pub admin_channel: Option<String>,
}

/// Which LLM backend to use.
#[derive(Debug, Clone, Copy, PartialEq, Eq, Structural)]
pub enum AiBackend {
    OpenAi,
    Ollama,
}

/// Per-scope caps and decay policy for the memory store.
#[derive(Debug, Clone, Copy, PartialEq, Eq, Structural)]
pub struct MemoryConfigSection {
    /// Enable persistent memory.
    pub enabled: bool,
    pub max_user: usize,
    pub max_lore: usize,
    pub max_pref: usize,
    pub half_life_days: u32,
}

impl Default for MemoryConfigSection {
    fn default() -> (r: Self)
        ensures
            r == (MemoryConfigSection {
                enabled: false,
                max_user: DEFAULT_MAX_USER,
                max_lore: 50,
                max_pref: 50,
                half_life_days: 30,
            }),
    {
        MemoryConfigSection {
            enabled: false,
            max_user: DEFAULT_MAX_USER,
            max_lore: 50,
            max_pref: 50,
            half_life_days: 30,
        }
    }
}

/// Knobs for the memory extractor that runs after each turn. `model` and `timeout` fall
/// back to the main values where they are missing.
#[derive(Debug, Clone)]
pub struct ExtractionConfigSection {
    pub enabled: bool,
    pub model: Option<String>,
    pub timeout: Option<u64>,
    pub max_rounds: usize,
    /// Passed on to the model as it is.
    pub reasoning_effort: Option<String>,
}

impl Default for ExtractionConfigSection {
    fn default() -> (r: Self)
        ensures
            r.enabled,
            r.model is None,
            r.timeout is None,
            r.max_rounds == 3,
            r.reasoning_effort is None,
    {
        ExtractionConfigSection {
            enabled: true,
            model: None,
            timeout: None,
            max_rounds: 3,
            reasoning_effort: None,
        }
    }
}

/// Knobs for the daily memory consolidation.
#[derive(Debug, Clone)]
pub struct ConsolidationConfigSection {
    pub enabled: bool,
    pub model: Option<String>,
    pub run_at: String,
    pub timeout: u64,
    /// Passed on to the model as it is.
    pub reasoning_effort: Option<String>,
}

impl Default for ConsolidationConfigSection {
    fn default() -> (r: Self)
        ensures
            r.enabled,
            r.model is None,
            r.run_at@ == DEFAULT_RUN_AT@,
            r.timeout == DEFAULT_CONSOLIDATION_TIMEOUT,
            r.reasoning_effort is None,
    {
        ConsolidationConfigSection {
            enabled: true,
            model: None,
            run_at: DEFAULT_RUN_AT.to_owned(),
            timeout: DEFAULT_CONSOLIDATION_TIMEOUT,
            reasoning_effort: None,
        }
    }
}

/// Where chat history is loaded from at startup.
#[derive(Debug, Clone)]
pub struct HistoryPrefillConfig {
    pub base_url: String,
    /// In millionths, rounded away from zero.
    pub threshold: i64,
    /// The threshold as it was written.
    pub threshold_text: String,
}

/// The largest threshold, in millionths.
pub const MAX_THRESHOLD: i64 = 1_000_000;

/// The settings of the AI commands. The key itself is not held here.
#[derive(Debug, Clone)]
pub struct AiConfig {
    pub backend: AiBackend,
    pub has_api_key: bool,
    pub base_url: Option<String>,
    pub model: String,
    pub system_prompt: String,
    /// Template for the user message, with `{message}` and `{chat_history}` as
    /// placeholders.
    pub instruction_template: String,
    /// In seconds.
    pub timeout: u64,
    /// Passed on to the model as it is.
    pub reasoning_effort: Option<String>,
    /// Number of recent chat messages to give as context; none for 0, at most 100.
    pub history_length: u64,
    pub history_prefill: Option<HistoryPrefillConfig>,
    pub memory: MemoryConfigSection,
    pub extraction: ExtractionConfigSection,
    pub consolidation: ConsolidationConfigSection,
    /// Replaced by `memory.max_user`.
    pub max_memories: Option<usize>,
}

/// Cooldowns of commands, in seconds.
#[derive(Debug, Clone, Copy, PartialEq, Eq, Structural)]
pub struct CooldownsConfig {
    pub ai: u64,
    pub up: u64,
    pub feedback: u64,
}

impl Default for CooldownsConfig {
    fn default() -> (r: Self)
        ensures
            r == (CooldownsConfig { ai: 30, up: 30, feedback: 300 }),
    {
        CooldownsConfig { ai: 30, up: 30, feedback: 300 }
    }
}

/// The cooldown of pings, in seconds, and whether anyone may trigger them.
#[derive(Debug, Clone, Copy, PartialEq, Eq, Structural)]
pub struct PingsConfig {
    pub cooldown: u64,
    pub public: bool,
}

impl Default for PingsConfig {
    fn default() -> (r: Self)
        ensures
            r == (PingsConfig { cooldown: 300, public: false }),
    {
        PingsConfig { cooldown: 300, public: false }
    }
}

/// How long a command is suspended where no duration is given.
#[derive(Debug, Clone, Copy, PartialEq, Eq, Structural)]
pub struct SuspendConfig {
    pub default_duration_secs: u64,
}

impl Default for SuspendConfig {
    fn default() -> (r: Self)
        ensures
            r == (SuspendConfig { default_duration_secs: 600 }),
    {
        SuspendConfig { default_duration_secs: 600 }
    }
}

/// The whole configuration.
#[derive(Debug, Clone)]
pub struct Configuration {
    pub twitch: TwitchConfiguration,
    pub pings: PingsConfig,
    pub cooldowns: CooldownsConfig,
    pub suspend: SuspendConfig,
    pub ai: Option<AiConfig>,
    pub schedules: Vec<ScheduleConfig>,
}

impl Configuration {
    /// A minimal configuration: the channel `test_chan`, the account `bot`, no AI, no
    /// schedules, and defaults for the rest.
    pub fn test_default() -> (r: Configuration)
        ensures
            r.twitch.channel@ == "test_chan"@,
            r.twitch.username@ == "bot"@,
            r.twitch.expected_latency == DEFAULT_EXPECTED_LATENCY,
            r.twitch.hidden_admins@.len() == 0,
            r.twitch.admin_channel is None,
            r.pings == (PingsConfig { cooldown: 300, public: false }),
            r.cooldowns == (CooldownsConfig { ai: 30, up: 30, feedback: 300 }),
            r.suspend == (SuspendConfig { default_duration_secs: 600 }),
            r.ai is None,
            r.schedules@.len() == 0,
    {
        Configuration {
            twitch: TwitchConfiguration {
                channel: "test_chan".to_owned(),
                username: "bot".to_owned(),
                expected_latency: DEFAULT_EXPECTED_LATENCY,
                hidden_admins: Vec::new(),
                admin_channel: None,
            },
            pings: PingsConfig::default(),
            cooldowns: CooldownsConfig::default(),
            suspend: SuspendConfig::default(),
            ai: None,
            schedules: Vec::new(),
        }
    }
}

// ---------------------------------------------------------------------------
// Validation
// ---------------------------------------------------------------------------

pub open spec fn is_blank(s: Seq<char>) -> bool {
    text::trim(s).len() == 0
}

fn blank(s: &str) -> (r: bool)
    ensures
        r == is_blank(s@),
{
    let t = text::trimmed(s);
    text::char_count(t.as_str()) == 0
}

/// What is wrong with the section on Twitch.
pub open spec fn twitch_fault(c: TwitchConfiguration) -> Option<Seq<char>> {
    if is_blank(c.channel@) {
        Some("twitch.channel cannot be empty"@)
    } else if is_blank(c.username@) {
        Some("twitch.username cannot be empty"@)
    } else if c.expected_latency > 1000 {
        Some(
            "twitch.expected_latency must be <= 1000ms (got "@ + text::decimal(
                c.expected_latency as nat,
            ) + ")"@,
        )
    } else {
        match c.admin_channel {
            None => None,
            Some(a) => if is_blank(a@) {
                Some("twitch.admin_channel cannot be empty when specified"@)
            } else if a@ == c.channel@ {
                Some("twitch.admin_channel must be different from twitch.channel"@)
            } else {
                None
            },
        }
    }
}

/// What is wrong with the duration of suspensions.
pub open spec fn suspend_fault(c: SuspendConfig) -> Option<Seq<char>> {
    if 1 <= c.default_duration_secs <= 604_800 {
        None
    } else {
        Some(
            "suspend.default_duration_secs must be between 1 and 604800 (7 days) (got "@
                + text::decimal(c.default_duration_secs as nat) + ")"@,
        )
    }
}

/// What is wrong with the place that history is loaded from.
pub open spec fn prefill_fault(c: HistoryPrefillConfig) -> Option<Seq<char>> {
    if is_blank(c.base_url@) {
        Some("ai.history_prefill.base_url cannot be empty"@)
    } else if !(0 <= c.threshold <= MAX_THRESHOLD) {
        Some(
            "ai.history_prefill.threshold must be between 0.0 and 1.0 (got "@
                + c.threshold_text@ + ")"@,
        )
    } else {
        None
    }
}

/// What is wrong with the section on AI.
pub open spec fn ai_fault(c: AiConfig) -> Option<Seq<char>> {
    if c.backend == AiBackend::OpenAi && !c.has_api_key {
        Some("AI backend 'openai' requires an api_key"@)
    } else if c.history_length > 100 {
        Some(
            "ai.history_length must be <= 100 (got "@ + text::decimal(c.history_length as nat)
                + ")"@,
        )
    } else if c.history_prefill is Some && prefill_fault(c.history_prefill->0) is Some {
        prefill_fault(c.history_prefill->0)
    } else if c.history_prefill is Some && c.history_length == 0 {
        Some("ai.history_prefill requires history_length > 0"@)
    } else if c.memory.enabled && c.max_memories is Some && !(1 <= c.max_memories->0 <= 200) {
        Some(
            "ai.max_memories must be between 1 and 200 (got "@ + text::decimal(
                c.max_memories->0 as nat,
            ) + ")"@,
        )
    } else if berlin::clock_value(c.consolidation.run_at@, berlin::CLOCK_FORMAT@) is None {
        Some(
            "ai.consolidation.run_at must be HH:MM (got "@ + text::debug_quoted(
                c.consolidation.run_at@,
            ) + ")"@,
        )
    } else {
        None
    }
}

/// What is wrong with a scheduled message.
pub open spec fn schedule_fault(c: ScheduleConfig) -> Option<Seq<char>> {
    if is_blank(c.name@) {
        Some("Schedule name cannot be empty"@)
    } else if is_blank(c.message@) {
        Some("Schedule '"@ + c.name@ + "' message cannot be empty"@)
    } else if is_blank(c.interval@) {
        Some("Schedule '"@ + c.name@ + "' interval cannot be empty"@)
    } else {
        match crate::schedule::interval_secs(c.interval@) {
            Ok(n) => None,
            Err(e) => Some("Schedule '"@ + c.name@ + "' has invalid interval format: "@ + e),
        }
    }
}

/// The first thing that is wrong with some scheduled messages.
pub open spec fn schedules_fault(list: Seq<ScheduleConfig>) -> Option<Seq<char>>
    decreases list.len(),
{
    if list.len() == 0 {
        None
    } else {
        match schedules_fault(list.drop_last()) {
            Some(e) => Some(e),
            None => schedule_fault(list.last()),
        }
    }
}

/// The first thing that is wrong with a configuration.
pub open spec fn config_fault(c: Configuration) -> Option<Seq<char>> {
    if twitch_fault(c.twitch) is Some {
        twitch_fault(c.twitch)
    } else if suspend_fault(c.suspend) is Some {
        suspend_fault(c.suspend)
    } else if c.ai is Some && ai_fault(c.ai->0) is Some {
        ai_fault(c.ai->0)
    } else {
        schedules_fault(c.schedules@)
    }
}

fn check_twitch(c: &TwitchConfiguration) -> (r: Option<String>)
    ensures
        text::opt_view(r) == twitch_fault(*c),
{
    if blank(c.channel.as_str()) {
        return Some("twitch.channel cannot be empty".to_owned());
    }
    if blank(c.username.as_str()) {
        return Some("twitch.username cannot be empty".to_owned());
    }
    if c.expected_latency > 1000 {
        let mut e = "twitch.expected_latency must be <= 1000ms (got ".to_owned();
        let n = text::from_u64(c.expected_latency as u64);
        e.push_str(n.as_str());
        e.push_str(")");
        return Some(e);
    }
    match &c.admin_channel {
        None => None,
        Some(a) => {
            if blank(a.as_str()) {
                return Some("twitch.admin_channel cannot be empty when specified".to_owned());
            }
            if text::same(a.as_str(), c.channel.as_str()) {
                return Some(
                    "twitch.admin_channel must be different from twitch.channel".to_owned(),
                );
            }
            None
        },
    }
}

fn check_suspend(c: &SuspendConfig) -> (r: Option<String>)
    ensures
        text::opt_view(r) == suspend_fault(*c),
{
    if 1 <= c.default_duration_secs && c.default_duration_secs <= 604_800 {
        return None;
    }
    let mut e =
        "suspend.default_duration_secs must be between 1 and 604800 (7 days) (got ".to_owned();
    let n = text::from_u64(c.default_duration_secs);
    e.push_str(n.as_str());
    e.push_str(")");
    Some(e)
}

fn check_prefill(c: &HistoryPrefillConfig) -> (r: Option<String>)
    ensures
        text::opt_view(r) == prefill_fault(*c),
{
    if blank(c.base_url.as_str()) {
        return Some("ai.history_prefill.base_url cannot be empty".to_owned());
    }
    if c.threshold < 0 || c.threshold > MAX_THRESHOLD {
        let mut e = "ai.history_prefill.threshold must be between 0.0 and 1.0 (got ".to_owned();
        e.push_str(c.threshold_text.as_str());
        e.push_str(")");
        return Some(e);
    }
    None
}

fn check_ai(c: &AiConfig) -> (r: Option<String>)
    ensures
        text::opt_view(r) == ai_fault(*c),
{
    if c.backend == AiBackend::OpenAi && !c.has_api_key {
        return Some("AI backend 'openai' requires an api_key".to_owned());
    }
    if c.history_length > 100 {
        let mut e = "ai.history_length must be <= 100 (got ".to_owned();
        let n = text::from_u64(c.history_length);
        e.push_str(n.as_str());
        e.push_str(")");
        return Some(e);
    }
    if let Some(p) = &c.history_prefill {
        let e = check_prefill(p);
        if e.is_some() {
            return e;
        }
        if c.history_length == 0 {
            return Some("ai.history_prefill requires history_length > 0".to_owned());
        }
    }
    if c.memory.enabled {
        if let Some(max) = c.max_memories {
            if max < 1 || max > 200 {
                let mut e = "ai.max_memories must be between 1 and 200 (got ".to_owned();
                let n = text::from_usize(max);
                e.push_str(n.as_str());
                e.push_str(")");
                return Some(e);
            }
        }
    }
    if berlin::parse_clock(c.consolidation.run_at.as_str()).is_none() {
        let mut e = "ai.consolidation.run_at must be HH:MM (got ".to_owned();
        let q = text::debug_str(c.consolidation.run_at.as_str());
        e.push_str(q.as_str());
        e.push_str(")");
        return Some(e);
    }
    None
}

fn about_schedule(name: &str, what: &str) -> (r: String)
    ensures
        r@ == "Schedule '"@ + name@ + what@,
{
    let mut e = "Schedule '".to_owned();
    e.push_str(name);
    e.push_str(what);
    e
}

fn check_schedule(c: &ScheduleConfig) -> (r: Option<String>)
    ensures
        text::opt_view(r) == schedule_fault(*c),
{
    if blank(c.name.as_str()) {
        return Some("Schedule name cannot be empty".to_owned());
    }
    if blank(c.message.as_str()) {
        return Some(about_schedule(c.name.as_str(), "' message cannot be empty"));
    }
    if blank(c.interval.as_str()) {
        return Some(about_schedule(c.name.as_str(), "' interval cannot be empty"));
    }
    match Schedule::parse_interval(c.interval.as_str()) {
        Ok(_) => None,
        Err(cause) => {
            let mut e = about_schedule(c.name.as_str(), "' has invalid interval format: ");
            e.push_str(cause.as_str());
            Some(e)
        },
    }
}

proof fn lemma_first_fault(list: Seq<ScheduleConfig>, n: int)
    requires
        0 <= n <= list.len(),
        schedules_fault(list.take(n)) is Some,
    ensures
        schedules_fault(list) == schedules_fault(list.take(n)),
    decreases list.len() - n,
{
    if n < list.len() {
        assert(list.take(n + 1).drop_last() =~= list.take(n));
        lemma_first_fault(list, n + 1);
    } else {
        assert(list.take(n) =~= list);
    }
}

fn check_schedules(list: &Vec<ScheduleConfig>) -> (r: Option<String>)
    ensures
        text::opt_view(r) == schedules_fault(list@),
{
    let mut i: usize = 0;
    assert(list@.take(0) =~= Seq::<ScheduleConfig>::empty());
    while i < list.len()
        invariant
            i <= list@.len(),
            schedules_fault(list@.take(i as int)) is None,
        decreases list@.len() - i,
    {
        assert(list@.take(i + 1).drop_last() =~= list@.take(i as int));
        let e = check_schedule(&list[i]);
        if e.is_some() {
            proof {
                lemma_first_fault(list@, i + 1);
            }
            return e;
        }
        i = i + 1;
    }
    assert(list@.take(i as int) =~= list@);
    None
}

/// Checks what the types of the fields cannot express. The error is the first that is
/// found.
pub fn validate_config(config: &Configuration) -> (r: Result<(), String>)
    ensures
        crate::schedule::fault_view(r) == config_fault(*config),
{
    if let Some(e) = check_twitch(&config.twitch) {
        return Err(e);
    }
    if let Some(e) = check_suspend(&config.suspend) {
        return Err(e);
    }
    if let Some(ai) = &config.ai {
        if let Some(e) = check_ai(ai) {
            return Err(e);
        }
    }
    match check_schedules(&config.schedules) {
        Some(e) => Err(e),
        None => Ok(()),
    }
}

proof fn lemma_each_schedule(list: Seq<ScheduleConfig>, i: int)
    requires
        schedules_fault(list) is None,
        0 <= i < list.len(),
    ensures
        schedule_fault(list[i]) is None,
    decreases list.len(),
{
    if i < list.len() - 1 {
        lemma_each_schedule(list.drop_last(), i);
    }
}

/// In a configuration that is in order, every scheduled message has an interval that can
/// be read, the suspension lies within a week, and the time of consolidation can be read.
pub proof fn law_valid_config_can_run(c: Configuration)
    requires
        config_fault(c) is None,
    ensures
        forall|i: int|
            0 <= i < c.schedules@.len() ==> crate::schedule::interval_secs(
                (#[trigger] c.schedules@[i]).interval@,
            ) is Ok,
        1 <= c.suspend.default_duration_secs <= crate::suspend::MAX_SUSPEND_DURATION,
        c.ai is Some ==> berlin::clock_value(
            c.ai->0.consolidation.run_at@,
            berlin::CLOCK_FORMAT@,
        ) is Some,
        c.ai is Some && c.ai->0.history_prefill is Some ==> 1 <= c.ai->0.history_length <= 100,
{
    assert forall|i: int| 0 <= i < c.schedules@.len() implies crate::schedule::interval_secs(
        (#[trigger] c.schedules@[i]).interval@,
    ) is Ok by {
        lemma_each_schedule(c.schedules@, i);
    }
}


/// The section on Twitch is in order just where the channel and the account are not blank,
/// the latency is at most a second, and the channel for admins, where there is one, is not
/// blank and another one.
pub proof fn law_twitch_section_is_checked(c: TwitchConfiguration)
    ensures
        twitch_fault(c) is None <==> {
            &&& text::trim(c.channel@).len() > 0
            &&& text::trim(c.username@).len() > 0
            &&& c.expected_latency <= 1000
            &&& c.admin_channel matches Some(a) ==> text::trim(a@).len() > 0 && a@ != c.channel@
        },
{
}

/// A suspension lasts from a second to a week.
pub proof fn law_suspend_section_is_checked(c: SuspendConfig)
    ensures
        suspend_fault(c) is None <==> 1 <= c.default_duration_secs <= 604_800,
        suspend_fault(c) matches Some(e) ==> text::has(
            e,
            text::decimal(c.default_duration_secs as nat),
        ),
{
    broadcast use text::group_parts;

}

/// The section on AI is in order just where OpenAI has a key, the history has at most 100
/// messages, it is loaded only where there is one, from a place with a part from 0 to 1, the
/// old bound on memories lies from 1 to 200 where the memory is on, and the time of the
/// consolidation can be read.
pub proof fn law_ai_section_is_checked(c: AiConfig)
    ensures
        ai_fault(c) is None <==> {
            &&& c.backend == AiBackend::OpenAi ==> c.has_api_key
            &&& c.history_length <= 100
            &&& c.history_prefill matches Some(p) ==> text::trim(p.base_url@).len() > 0 && 0
                <= p.threshold <= 1_000_000 && c.history_length > 0
            &&& c.memory.enabled ==> (c.max_memories matches Some(n) ==> 1 <= n <= 200)
            &&& berlin::clock_value(c.consolidation.run_at@, "%H:%M"@) is Some
        },
{
}

/// A scheduled message is in order where its name and its message are not blank and its
/// interval can be read; of several, all have to be.
pub proof fn law_schedules_are_checked(list: Seq<ScheduleConfig>, c: ScheduleConfig)
    ensures
        schedule_fault(c) is None <==> {
            &&& text::trim(c.name@).len() > 0
            &&& text::trim(c.message@).len() > 0
            &&& crate::schedule::interval_secs(c.interval@) is Ok
        },
        schedules_fault(list.push(c)) is None <==> schedules_fault(list) is None
            && schedule_fault(c) is None,
        schedules_fault(list) is Some ==> schedules_fault(list.push(c)) == schedules_fault(list),
        schedules_fault(Seq::empty()) is None,
{
    assert(list.push(c).drop_last() =~= list);
}

/// A configuration is in order just where all its sections are; the first fault is told.
pub proof fn law_all_sections_are_checked(c: Configuration)
    ensures
        config_fault(c) is None <==> {
            &&& twitch_fault(c.twitch) is None
            &&& suspend_fault(c.suspend) is None
            &&& c.ai matches Some(ai) ==> ai_fault(ai) is None
            &&& schedules_fault(c.schedules@) is None
        },
        twitch_fault(c.twitch) is Some ==> config_fault(c) == twitch_fault(c.twitch),
{
}

} // verus!
