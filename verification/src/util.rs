//! Small helpers: chat replies of limited length, flight times, paths.
use vstd::prelude::*;
use crate::text;
use crate::time::Duration;

verus! {

/// Maximum length of a chat reply, in characters.
pub const MAX_RESPONSE_LENGTH: usize = 500;

/// The data directory where none is configured.
pub const DEFAULT_DATA_DIR: &'static str = "/var/lib/twitch-1337";

pub const CONFIG_FILENAME: &'static str = "config.toml";

/// The data directory: the configured one, or the default.
pub open spec fn data_dir_of(configured: Option<Seq<char>>) -> Seq<char> {
    match configured {
        Some(dir) => dir,
        None => DEFAULT_DATA_DIR@,
    }
}

/// The data directory, from the value of `DATA_DIR` where it is set.
pub fn get_data_dir(configured: Option<String>) -> (r: String)
    ensures
        r@ == data_dir_of(text::opt_view(configured)),
{
    match configured {
        Some(dir) => dir,
        None => DEFAULT_DATA_DIR.to_owned(),
    }
}

/// A file name behind a directory, with one slash between them.
pub open spec fn path_join(dir: Seq<char>, name: Seq<char>) -> Seq<char> {
    if dir.len() == 0 || dir.last() == '/' {
        dir + name
    } else {
        dir.push('/') + name
    }
}

/// The path of the config file within the data directory.
pub fn get_config_path(data_dir: &str) -> (r: String)
    ensures
        r@ == path_join(data_dir@, CONFIG_FILENAME@),
{
    let v = text::chars_of(data_dir);
    let mut s = data_dir.to_owned();
    if v.len() > 0 && v[v.len() - 1] != '/' {
        s.push('/');
    }
    s.push_str(CONFIG_FILENAME);
    s
}

// ---------------------------------------------------------------------------
// Replies of limited length
// ---------------------------------------------------------------------------

/// The position of the last space of a text.
pub open spec fn last_space(s: Seq<char>) -> Option<int>
    decreases s.len(),
{
    if s.len() == 0 {
        None
    } else if s.last() == ' ' {
        Some(s.len() - 1)
    } else {
        last_space(s.drop_last())
    }
}

/// The mark behind a text that was cut: three dots, or as many as there may be characters.
pub open spec fn dots(max: int) -> Seq<char> {
    if max >= 3 {
        "..."@
    } else {
        "..."@.take(max)
    }
}

/// The beginning of a text in which the space is looked for that it is cut at: with the
/// dots in place of that space and what follows, the text has room.
pub open spec fn head_of(s: Seq<char>, max: int) -> Seq<char> {
    if max >= 3 {
        s.take(max - 2)
    } else {
        Seq::empty()
    }
}

/// A text cut so that it has, with the dots that mark the cut, at most a number of
/// characters. It is cut at the last space that leaves room for the dots; where there is
/// none, within a word.
pub open spec fn cut_short(s: Seq<char>, max: int) -> Seq<char> {
    match last_space(head_of(s, max)) {
        Some(i) => s.take(i) + dots(max),
        None => if max >= 3 {
            s.take(max - 3) + dots(max)
        } else {
            dots(max)
        },
    }
}

/// A text with single spaces between its words, cut at a word boundary where it is
/// longer than a number of characters.
pub open spec fn truncated(s: Seq<char>, max: nat) -> Seq<char> {
    let c = text::collapse(s);
    if c.len() <= max {
        c
    } else {
        cut_short(c, max as int)
    }
}

proof fn lemma_last_space(s: Seq<char>)
    ensures
        match last_space(s) {
            Some(i) => 0 <= i < s.len() && s[i] == ' ' && forall|j: int|
                i < j < s.len() ==> #[trigger] s[j] != ' ',
            None => forall|j: int| 0 <= j < s.len() ==> #[trigger] s[j] != ' ',
        },
    decreases s.len(),
{
    if s.len() > 0 && s.last() != ' ' {
        lemma_last_space(s.drop_last());
        match last_space(s) {
            Some(i) => {
                assert forall|j: int| i < j < s.len() implies #[trigger] s[j] != ' ' by {
                    if j < s.len() - 1 {
                        assert(s[j] == s.drop_last()[j]);
                    }
                }
            },
            None => {
                assert forall|j: int| 0 <= j < s.len() implies #[trigger] s[j] != ' ' by {
                    if j < s.len() - 1 {
                        assert(s[j] == s.drop_last()[j]);
                    }
                }
            },
        }
    }
}

/// A reply is never longer than the limit, and one within it keeps all of its words.
pub proof fn law_truncated_is_short(s: Seq<char>, max: nat)
    ensures
        truncated(s, max).len() <= max,
        text::collapse(s).len() <= max ==> truncated(s, max) == text::collapse(s),
{
    reveal_strlit("...");
    let c = text::collapse(s);
    if c.len() > max {
        lemma_last_space(head_of(c, max as int));
    }
}

/// Where a text is cut at a space, what is left of it is a beginning that ends with a
/// whole word, and no longer such beginning would leave room for the dots.
pub proof fn law_cut_is_at_word_boundary(s: Seq<char>, max: int)
    requires
        0 <= max <= s.len(),
        last_space(head_of(s, max)) is Some,
    ensures
        ({
            let i = last_space(head_of(s, max))->0;
            &&& 0 <= i <= max - 3
            &&& cut_short(s, max) == s.take(i) + "..."@
            &&& s[i] == ' '
            &&& forall|j: int| i < j <= max - 3 ==> #[trigger] s[j] != ' '
        }),
{
    let head = head_of(s, max);
    lemma_last_space(head);
    let i = last_space(head)->0;
    assert forall|j: int| i < j <= max - 3 implies #[trigger] s[j] != ' ' by {
        assert(head[j] == s[j]);
    }
}

/// Collapses white space and truncates a text to a number of characters at a word
/// boundary, with three dots behind it, which count as characters.
pub fn truncate_response(s: &str, max_chars: usize) -> (r: String)
    ensures
        r@ == truncated(s@, max_chars as nat),
        r@.len() <= max_chars,
{
    proof {
        law_truncated_is_short(s@, max_chars as nat);
    }
    let collapsed = text::collapse_ws(s);
    let v = text::chars_of(collapsed.as_str());
    if v.len() <= max_chars {
        return collapsed;
    }
    if max_chars < 3 {
        let marks = text::chars_of("...");
        proof {
            reveal_strlit("...");
            assert(last_space(head_of(v@, max_chars as int)) is None);
            assert(marks@.subrange(0, max_chars as int) =~= dots(max_chars as int));
        }
        return text::string_of(&marks, 0, max_chars);
    }
    let room: usize = max_chars - 2;
    let ghost head = head_of(v@, max_chars as int);
    let mut i: usize = room;
    assert(head.take(room as int) =~= head);
    while i > 0 && v[i - 1] != ' '
        invariant
            i <= room < v@.len(),
            head == v@.take(room as int),
            last_space(head) == last_space(head.take(i as int)),
        decreases i,
    {
        assert(head.take(i as int).drop_last() =~= head.take(i - 1));
        i = i - 1;
    }
    let end: usize = if i > 0 {
        assert(head.take(i as int).last() == ' ');
        i - 1
    } else {
        assert(last_space(head.take(0)) is None);
        max_chars - 3
    };
    let mut out = text::string_of(&v, 0, end);
    out.push_str("...");
    proof {
        assert(v@.subrange(0, end as int) =~= v@.take(end as int));
    }
    out
}

// ---------------------------------------------------------------------------
// Flight times
// ---------------------------------------------------------------------------

/// The state of reading a flight time: the seconds so far and the digits since the last
/// unit; `None` once it cannot be read.
pub open spec fn flight_scan(s: Seq<char>) -> Option<(nat, Seq<char>)>
    decreases s.len(),
{
    if s.len() == 0 {
        Some((0nat, Seq::empty()))
    } else {
        match flight_scan(s.drop_last()) {
            None => None,
            Some((total, digits)) => {
                let c = text::lower_char(s.last());
                if text::is_digit(s.last()) {
                    Some((total, digits.push(s.last())))
                } else if c == 'h' || c == 'm' {
                    match text::unsigned_value(digits, u64::MAX as nat) {
                        Some(n) => {
                            let sum = total + n * if c == 'h' {
                                3600nat
                            } else {
                                60nat
                            };
                            if sum <= u64::MAX {
                                Some((sum, Seq::empty()))
                            } else {
                                None
                            }
                        },
                        None => None,
                    }
                } else {
                    None
                }
            },
        }
    }
}

/// The seconds that a flight time such as `2h30m` stands for. Every number has a unit,
/// and nothing and zero are not flight times; nor is what does not fit in 64 bits.
pub open spec fn flight_secs(s: Seq<char>) -> Option<nat> {
    match flight_scan(text::trim(s)) {
        Some((total, digits)) => if digits.len() == 0 && total > 0 {
            Some(total)
        } else {
            None
        },
        None => None,
    }
}

proof fn lemma_flight_scan_fails(s: Seq<char>, n: int)
    requires
        0 <= n <= s.len(),
        flight_scan(s.take(n)) is None,
    ensures
        flight_scan(s) is None,
    decreases s.len() - n,
{
    if n < s.len() {
        assert(s.take(n + 1).drop_last() =~= s.take(n));
        lemma_flight_scan_fails(s, n + 1);
    } else {
        assert(s.take(n) =~= s);
    }
}

pub open spec fn opt_secs(d: Option<Duration>) -> Option<nat> {
    match d {
        Some(d) => Some((d@ / 1_000_000_000) as nat),
        None => None,
    }
}

/// Parses a compact flight time like `1h`, `30m` or `2h30m`.
pub fn parse_flight_duration(s: &str) -> (r: Option<Duration>)
    ensures
        opt_secs(r) == flight_secs(s@),
        r matches Some(d) ==> d@ > 0 && d@ == flight_secs(s@)->0 * 1_000_000_000,
{
    let t = text::trimmed(s);
    let v = text::chars_of(t.as_str());
    let mut total: u64 = 0;
    let mut digits = String::new();
    let mut i: usize = 0;
    proof {
        assert(v@.take(0) =~= Seq::<char>::empty());
    }
    while i < v.len()
        invariant
            v@ == text::trim(s@),
            i <= v@.len(),
            flight_scan(v@.take(i as int)) == Some((total as nat, digits@)),
        decreases v@.len() - i,
    {
        proof {
            assert(v@.take(i + 1).drop_last() =~= v@.take(i as int));
            assert(v@.take(i + 1).last() == v@[i as int]);
        }
        let ch = v[i];
        if text::is_ascii_digit(ch) {
            digits.push(ch);
        } else {
            let c = text::ascii_lower_char(ch);
            if c != 'h' && c != 'm' {
                proof {
                    lemma_flight_scan_fails(v@, i + 1);
                }
                return None;
            }
            let n: u64 = match text::parse_unsigned(digits.as_str(), u64::MAX) {
                Some(n) => n,
                None => {
                    proof {
                        lemma_flight_scan_fails(v@, i + 1);
                    }
                    return None;
                },
            };
            let unit: u128 = if c == 'h' {
                3600
            } else {
                60
            };
            let sum: u128 = total as u128 + n as u128 * unit;
            if sum > u64::MAX as u128 {
                proof {
                    lemma_flight_scan_fails(v@, i + 1);
                }
                return None;
            }
            total = sum as u64;
            digits = String::new();
        }
        i = i + 1;
    }
    assert(v@.take(i as int) =~= v@);
    if text::char_count(digits.as_str()) > 0 || total == 0 {
        return None;
    }
    Some(Duration::from_secs(total))
}


/// A flight time adds up numbers with units: an hour counts 3600 seconds and a minute 60,
/// whatever the case of the unit.
pub proof fn law_flight_times_are_added_up(
    s: Seq<char>,
    digits: Seq<char>,
    unit: char,
    total: nat,
)
    requires
        flight_scan(s) == Some((total, Seq::<char>::empty())),
        text::is_digits(digits),
        total + 3600 * text::digits_value(digits) <= u64::MAX,
    ensures
        unit == 'h' || unit == 'H' ==> flight_scan((s + digits).push(unit)) == Some(
            (total + 3600 * text::digits_value(digits), Seq::<char>::empty()),
        ),
        unit == 'm' || unit == 'M' ==> flight_scan((s + digits).push(unit)) == Some(
            (total + 60 * text::digits_value(digits), Seq::<char>::empty()),
        ),
        flight_scan(Seq::empty()) == Some((0nat, Seq::<char>::empty())),
{
    lemma_flight_digits(s, digits, total);
    assert((s + digits).push(unit).drop_last() =~= s + digits);
    assert(text::is_digit(digits[0]));
    let v = text::digits_value(digits);
    assert(v * 3600 == 3600 * v && v * 60 == 60 * v);
}

proof fn lemma_flight_digits(s: Seq<char>, digits: Seq<char>, total: nat)
    requires
        flight_scan(s) == Some((total, Seq::<char>::empty())),
        forall|i: int| 0 <= i < digits.len() ==> text::is_digit(#[trigger] digits[i]),
    ensures
        flight_scan(s + digits) == Some((total, digits)),
    decreases digits.len(),
{
    if digits.len() == 0 {
        assert(s + digits =~= s);
        assert(digits =~= Seq::empty());
    } else {
        lemma_flight_digits(s, digits.drop_last(), total);
        assert((s + digits).drop_last() =~= s + digits.drop_last());
        assert((s + digits).last() == digits.last());
        assert(digits.drop_last().push(digits.last()) =~= digits);
    }
}

/// A flight time is the sum of its parts, where nothing is left over and it is more than
/// nothing.
pub proof fn law_flight_time_is_the_sum(s: Seq<char>)
    ensures
        flight_secs(s) matches Some(secs) ==> secs > 0 && (flight_scan(
            text::trim(s),
        ) matches Some(r) && r.0 == secs && r.1.len() == 0),
        flight_scan(text::trim(s)) matches Some(r) ==> r.0 > 0 && r.1.len() == 0 ==> flight_secs(s)
            == Some(r.0),
{
}

/// A text that is cut begins as the whole text does and ends with three dots.
pub proof fn law_cut_text_begins_as_the_whole(s: Seq<char>, max: nat)
    requires
        max >= 3,
        text::collapse(s).len() > max,
    ensures
        exists|n: int|
            0 <= n <= max - 3 && truncated(s, max) == #[trigger] text::collapse(s).take(n)
                + "..."@,
{
    let c = text::collapse(s);
    lemma_last_space(head_of(c, max as int));
    match last_space(head_of(c, max as int)) {
        Some(i) => {
            assert(truncated(s, max) == c.take(i) + "..."@);
        },
        None => {
            assert(truncated(s, max) == c.take(max - 3) + "..."@);
        },
    }
}

/// A file stands in its directory, with one slash between them.
pub proof fn law_paths_are_joined(dir: Seq<char>, name: Seq<char>)
    ensures
        text::has_prefix(path_join(dir, name), dir),
        text::has_suffix(path_join(dir, name), name),
        dir.len() > 0 && dir.last() != '/' ==> path_join(dir, name) == dir + seq!['/'] + name,
        dir.len() > 0 && dir.last() == '/' ==> path_join(dir, name) == dir + name,
        data_dir_of(Some(dir)) == dir,
{
    broadcast use text::group_parts;

    assert(dir.push('/') =~= dir + seq!['/']);
    assert(text::has_prefix(dir + seq!['/'] + name, dir));
}

} // verus!
