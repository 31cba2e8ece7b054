//! Text as a sequence of characters: the string operations that the rest of the
//! library is built on, each with a specification over `Seq<char>`.
use vstd::prelude::*;

verus! {

/// `String::push` appends one character to the end of the string.
pub assume_specification[ String::push ](s: &mut String, c: char)
    ensures
        final(s)@ == old(s)@.push(c),
;

/// `String::push_str` appends a string slice to the end of the string.
pub assume_specification[ String::push_str ](s: &mut String, t: &str)
    ensures
        final(s)@ == old(s)@ + t@,
;

/// The characters of each string in a sequence.
pub open spec fn views(v: Seq<String>) -> Seq<Seq<char>> {
    Seq::new(v.len(), |i: int| v[i]@)
}

/// The characters of an optional string.
pub open spec fn opt_view(s: Option<String>) -> Option<Seq<char>> {
    match s {
        Some(t) => Some(t@),
        None => None,
    }
}

/// A copy of an optional string.
pub fn clone_opt(s: &Option<String>) -> (r: Option<String>)
    ensures
        opt_view(r) == opt_view(*s),
{
    match s {
        Some(t) => Some(t.clone()),
        None => None,
    }
}

/// A copy of a list of strings.
pub fn copy_list(list: &Vec<String>) -> (r: Vec<String>)
    ensures
        views(r@) == views(list@),
{
    let mut out: Vec<String> = Vec::new();
    let mut i: usize = 0;
    while i < list.len()
        invariant
            i <= list@.len(),
            views(out@) == views(list@).take(i as int),
        decreases list@.len() - i,
    {
        let ghost before = views(out@);
        out.push(list[i].clone());
        proof {
            assert(views(out@) =~= before.push(list@[i as int]@));
            assert(views(list@).take(i + 1) =~= views(list@).take(i as int).push(
                list@[i as int]@,
            ));
        }
        i = i + 1;
    }
    assert(views(list@).take(i as int) =~= views(list@));
    out
}

/// The characters of an optional borrowed string.
pub open spec fn opt_str_view(s: Option<&str>) -> Option<Seq<char>> {
    match s {
        Some(t) => Some(t@),
        None => None,
    }
}

// ---------------------------------------------------------------------------
// Character classes
// ---------------------------------------------------------------------------

/// The characters with the Unicode property `White_Space`.
pub open spec fn is_white(c: char) -> bool {
    ||| 0x9 <= c as int <= 0xd
    ||| c as int == 0x20
    ||| c as int == 0x85
    ||| c as int == 0xa0
    ||| c as int == 0x1680
    ||| 0x2000 <= c as int <= 0x200a
    ||| c as int == 0x2028
    ||| c as int == 0x2029
    ||| c as int == 0x202f
    ||| c as int == 0x205f
    ||| c as int == 0x3000
}

pub fn is_white_space(c: char) -> (r: bool)
    ensures
        r == is_white(c),
{
    let x: u32 = c as u32;
    (0x9 <= x && x <= 0xd) || x == 0x20 || x == 0x85 || x == 0xa0 || x == 0x1680 || (0x2000 <= x
        && x <= 0x200a) || x == 0x2028 || x == 0x2029 || x == 0x202f || x == 0x205f || x == 0x3000
}

/// The control characters (Unicode general category `Cc`).
pub open spec fn is_control(c: char) -> bool {
    c as int <= 0x1f || 0x7f <= c as int <= 0x9f
}

pub fn is_control_char(c: char) -> (r: bool)
    ensures
        r == is_control(c),
{
    let x: u32 = c as u32;
    x <= 0x1f || (0x7f <= x && x <= 0x9f)
}

pub open spec fn is_digit(c: char) -> bool {
    '0' <= c <= '9'
}

pub fn is_ascii_digit(c: char) -> (r: bool)
    ensures
        r == is_digit(c),
{
    '0' <= c && c <= '9'
}

pub open spec fn is_upper(c: char) -> bool {
    'A' <= c <= 'Z'
}

pub fn is_ascii_upper(c: char) -> (r: bool)
    ensures
        r == is_upper(c),
{
    'A' <= c && c <= 'Z'
}

pub open spec fn is_lower(c: char) -> bool {
    'a' <= c <= 'z'
}

pub open spec fn is_letter(c: char) -> bool {
    is_upper(c) || is_lower(c)
}

pub fn is_ascii_letter(c: char) -> (r: bool)
    ensures
        r == is_letter(c),
{
    ('A' <= c && c <= 'Z') || ('a' <= c && c <= 'z')
}

pub open spec fn is_hex(c: char) -> bool {
    is_digit(c) || 'a' <= c <= 'f' || 'A' <= c <= 'F'
}

pub fn is_ascii_hex(c: char) -> (r: bool)
    ensures
        r == is_hex(c),
{
    ('0' <= c && c <= '9') || ('a' <= c && c <= 'f') || ('A' <= c && c <= 'F')
}

/// An ASCII letter in lower case; every other character unchanged.
pub open spec fn lower_char(c: char) -> char {
    if is_upper(c) {
        (c as int + 32) as char
    } else {
        c
    }
}

pub fn ascii_lower_char(c: char) -> (r: char)
    ensures
        r == lower_char(c),
{
    if 'A' <= c && c <= 'Z' {
        (c as u8 + 32) as char
    } else {
        c
    }
}

/// A text with its ASCII letters in lower case.
pub open spec fn lower(s: Seq<char>) -> Seq<char> {
    s.map_values(|c: char| lower_char(c))
}

/// An ASCII letter in upper case; every other character unchanged.
pub open spec fn upper_char(c: char) -> char {
    if is_lower(c) {
        (c as int - 32) as char
    } else {
        c
    }
}

/// A text with its ASCII letters in upper case.
pub open spec fn upper(s: Seq<char>) -> Seq<char> {
    s.map_values(|c: char| upper_char(c))
}

/// Whether a text holds ASCII characters only.
pub open spec fn all_ascii(s: Seq<char>) -> bool {
    forall|i: int| 0 <= i < s.len() ==> (#[trigger] s[i]) as int <= 0x7f
}

// ---------------------------------------------------------------------------
// Case mapping beyond ASCII
// ---------------------------------------------------------------------------

/// What `str::to_lowercase` returns for a text.
pub uninterp spec fn unicode_lower(s: Seq<char>) -> Seq<char>;

/// Calls `str::to_lowercase`. The result is a function of the text alone, named
/// `unicode_lower`; on a text of ASCII characters it is the ASCII lower case.
#[verifier::external_body]
pub(crate) fn to_lowercase(s: &str) -> (r: String)
    ensures
        r@ == unicode_lower(s@),
        all_ascii(s@) ==> r@ == lower(s@),
{
    s.to_lowercase()
}

/// That the lower case of a text is known where it holds ASCII characters only.
pub open spec fn lower_known(s: Seq<char>) -> bool {
    all_ascii(s) ==> unicode_lower(s) == lower(s)
}

/// What `str::to_uppercase` returns for a text.
pub uninterp spec fn unicode_upper(s: Seq<char>) -> Seq<char>;

/// Calls `str::to_uppercase`. The result is a function of the text alone, named
/// `unicode_upper`; on a text of ASCII characters it is the ASCII upper case.
#[verifier::external_body]
pub(crate) fn to_uppercase(s: &str) -> (r: String)
    ensures
        r@ == unicode_upper(s@),
        all_ascii(s@) ==> r@ == upper(s@),
{
    s.to_uppercase()
}

/// That the upper case of a text is known where it holds ASCII characters only.
pub open spec fn upper_known(s: Seq<char>) -> bool {
    all_ascii(s) ==> unicode_upper(s) == upper(s)
}

/// What the `Debug` form of a text is: quoted, with escapes.
pub uninterp spec fn debug_quoted(s: Seq<char>) -> Seq<char>;

/// Formats a text with `{:?}` of `str`. The result is a function of the text alone,
/// named `debug_quoted`.
#[verifier::external_body]
pub(crate) fn debug_str(s: &str) -> (r: String)
    ensures
        r@ == debug_quoted(s@),
{
    format!("{:?}", s)
}

// ---------------------------------------------------------------------------
// Building blocks
// ---------------------------------------------------------------------------

/// The characters of a string.
pub fn chars_of(s: &str) -> (r: Vec<char>)
    ensures
        r@ == s@,
{
    let mut out: Vec<char> = Vec::new();
    for c in it: s.chars()
        invariant
            out@ == s@.take(it.index() as int),
            it.seq() == s@,
    {
        out.push(c);
        assert(s@.take(it.index() + 1) =~= s@.take(it.index() as int).push(c));
    }
    assert(s@.take(s@.len() as int) =~= s@);
    out
}

/// The string made of the characters `from..to`.
pub fn string_of(v: &Vec<char>, from: usize, to: usize) -> (r: String)
    requires
        from <= to <= v@.len(),
    ensures
        r@ == v@.subrange(from as int, to as int),
{
    let mut out = String::new();
    let mut i: usize = from;
    while i < to
        invariant
            from <= i <= to <= v@.len(),
            out@ == v@.subrange(from as int, i as int),
        decreases to - i,
    {
        out.push(v[i]);
        assert(v@.subrange(from as int, i + 1) =~= v@.subrange(from as int, i as int).push(
            v@[i as int],
        ));
        i = i + 1;
    }
    out
}

/// Whether two texts are the same.
pub fn same(a: &str, b: &str) -> (r: bool)
    ensures
        r == (a@ == b@),
{
    let x = chars_of(a);
    let y = chars_of(b);
    if x.len() != y.len() {
        return false;
    }
    let mut i: usize = 0;
    while i < x.len()
        invariant
            x@ == a@,
            y@ == b@,
            x@.len() == y@.len(),
            i <= x@.len(),
            forall|j: int| 0 <= j < i ==> x@[j] == y@[j],
        decreases x@.len() - i,
    {
        if x[i] != y[i] {
            return false;
        }
        i = i + 1;
    }
    assert(a@ =~= b@);
    true
}

/// Whether a text is one of the texts in a list.
pub fn is_one_of(s: &str, list: &Vec<String>) -> (r: bool)
    ensures
        r == views(list@).contains(s@),
{
    let mut i: usize = 0;
    while i < list.len()
        invariant
            i <= list@.len(),
            forall|j: int| 0 <= j < i ==> list@[j]@ != s@,
        decreases list@.len() - i,
    {
        if same(s, list[i].as_str()) {
            assert(views(list@)[i as int] == s@);
            return true;
        }
        i = i + 1;
    }
    false
}

/// The ASCII lower case of a text.
pub fn to_ascii_lowercase(s: &str) -> (r: String)
    ensures
        r@ == lower(s@),
{
    let v = chars_of(s);
    let mut out = String::new();
    let mut i: usize = 0;
    while i < v.len()
        invariant
            v@ == s@,
            i <= v@.len(),
            out@ == lower(v@.take(i as int)),
        decreases v@.len() - i,
    {
        out.push(ascii_lower_char(v[i]));
        assert(lower(v@.take(i + 1)) =~= lower(v@.take(i as int)).push(lower_char(v@[i as int])));
        i = i + 1;
    }
    assert(v@.take(v@.len() as int) =~= v@);
    out
}

/// Equality up to the case of ASCII letters.
pub open spec fn same_ignore_case(a: Seq<char>, b: Seq<char>) -> bool {
    lower(a) == lower(b)
}

pub fn eq_ignore_ascii_case(a: &str, b: &str) -> (r: bool)
    ensures
        r == same_ignore_case(a@, b@),
{
    let x = to_ascii_lowercase(a);
    let y = to_ascii_lowercase(b);
    same(x.as_str(), y.as_str())
}

/// The number of characters of a text.
pub fn char_count(s: &str) -> (r: usize)
    ensures
        r == s@.len(),
{
    chars_of(s).len()
}

// ---------------------------------------------------------------------------
// Trimming and words
// ---------------------------------------------------------------------------

/// The number of white-space characters at the start of a text.
pub open spec fn leading_white(s: Seq<char>) -> nat
    decreases s.len(),
{
    if s.len() > 0 && is_white(s[0]) {
        1 + leading_white(s.drop_first())
    } else {
        0
    }
}

/// A text without the white space at its start.
pub open spec fn trim_start(s: Seq<char>) -> Seq<char> {
    s.skip(leading_white(s) as int)
}

/// The length of a text without the white space at its end.
pub open spec fn trimmed_len(s: Seq<char>) -> nat
    decreases s.len(),
{
    if s.len() > 0 && is_white(s.last()) {
        trimmed_len(s.drop_last())
    } else {
        s.len()
    }
}

/// A text without the white space at its end.
pub open spec fn trim_end(s: Seq<char>) -> Seq<char> {
    s.take(trimmed_len(s) as int)
}

/// A text without the white space at either end.
pub open spec fn trim(s: Seq<char>) -> Seq<char> {
    trim_end(trim_start(s))
}

pub proof fn lemma_leading_white(s: Seq<char>)
    ensures
        leading_white(s) <= s.len(),
        forall|i: int| 0 <= i < leading_white(s) ==> is_white(#[trigger] s[i]),
        leading_white(s) < s.len() ==> !is_white(s[leading_white(s) as int]),
    decreases s.len(),
{
    if s.len() > 0 && is_white(s[0]) {
        lemma_leading_white(s.drop_first());
        assert forall|i: int| 0 <= i < leading_white(s) implies is_white(#[trigger] s[i]) by {
            if i > 0 {
                assert(s[i] == s.drop_first()[i - 1]);
            }
        }
        assert(leading_white(s) < s.len() ==> s[leading_white(s) as int]
            == s.drop_first()[leading_white(s) - 1]);
    }
}

pub proof fn lemma_leading_white_is(s: Seq<char>, n: nat)
    requires
        n <= s.len(),
        forall|i: int| 0 <= i < n ==> is_white(#[trigger] s[i]),
        n < s.len() ==> !is_white(s[n as int]),
    ensures
        leading_white(s) == n,
{
    lemma_leading_white(s);
    if leading_white(s) < n {
        assert(is_white(s[leading_white(s) as int]));
    }
    if n < leading_white(s) {
        assert(is_white(s[n as int]));
    }
}

pub proof fn lemma_trimmed_len(s: Seq<char>)
    ensures
        trimmed_len(s) <= s.len(),
        forall|i: int| trimmed_len(s) <= i < s.len() ==> is_white(#[trigger] s[i]),
        trimmed_len(s) > 0 ==> !is_white(s[trimmed_len(s) - 1]),
    decreases s.len(),
{
    if s.len() > 0 && is_white(s.last()) {
        lemma_trimmed_len(s.drop_last());
        assert forall|i: int| trimmed_len(s) <= i < s.len() implies is_white(#[trigger] s[i]) by {
            if i < s.len() - 1 {
                assert(s[i] == s.drop_last()[i]);
            }
        }
        assert(trimmed_len(s) > 0 ==> s[trimmed_len(s) - 1] == s.drop_last()[trimmed_len(s) - 1]);
    }
}

pub proof fn lemma_trimmed_len_is(s: Seq<char>, n: nat)
    requires
        n <= s.len(),
        forall|i: int| n <= i < s.len() ==> is_white(#[trigger] s[i]),
        n > 0 ==> !is_white(s[n - 1]),
    ensures
        trimmed_len(s) == n,
{
    lemma_trimmed_len(s);
    if trimmed_len(s) < n {
        assert(is_white(s[n - 1]));
    }
    if n < trimmed_len(s) {
        assert(is_white(s[trimmed_len(s) - 1]));
    }
}

/// Trimming a second time changes nothing.
pub proof fn lemma_trim_idempotent(s: Seq<char>)
    ensures
        trim(trim(s)) == trim(s),
{
    let a = trim_start(s);
    let t = trim(s);
    lemma_leading_white(s);
    lemma_trimmed_len(a);
    if t.len() > 0 {
        assert(t[0] == a[0]);
        assert(a[0] == s[leading_white(s) as int]);
        lemma_leading_white_is(t, 0);
        assert(t.skip(0) =~= t);
        assert(t[t.len() - 1] == a[trimmed_len(a) - 1]);
        lemma_trimmed_len_is(t, t.len());
        assert(t.take(t.len() as int) =~= t);
    } else {
        lemma_leading_white_is(t, 0);
        assert(t.skip(0) =~= t);
        assert(trimmed_len(t) == 0);
        assert(t.take(0) =~= t);
    }
}

/// The text without the white space at either end.
pub fn trimmed(s: &str) -> (r: String)
    ensures
        r@ == trim(s@),
{
    let v = chars_of(s);
    let mut from: usize = 0;
    while from < v.len() && is_white_space(v[from])
        invariant
            from <= v@.len(),
            forall|i: int| 0 <= i < from ==> is_white(#[trigger] v@[i]),
        decreases v@.len() - from,
    {
        from = from + 1;
    }
    proof {
        lemma_leading_white_is(v@, from as nat);
    }
    let mut to: usize = v.len();
    while to > from && is_white_space(v[to - 1])
        invariant
            from <= to <= v@.len(),
            forall|i: int| to <= i < v@.len() ==> is_white(#[trigger] v@[i]),
        decreases to,
    {
        to = to - 1;
    }
    proof {
        let t = v@.skip(from as int);
        let n = (to - from) as nat;
        assert forall|i: int| n <= i < t.len() implies is_white(#[trigger] t[i]) by {
            assert(t[i] == v@[i + from]);
        }
        assert(n > 0 ==> t[n - 1] == v@[to - 1]);
        lemma_trimmed_len_is(t, n);
        assert(t.take(n as int) =~= v@.subrange(from as int, to as int));
    }
    string_of(&v, from, to)
}

/// A text without the white space that it starts with.
pub fn trimmed_start(s: &str) -> (r: String)
    ensures
        r@ == trim_start(s@),
{
    let v = chars_of(s);
    let mut from: usize = 0;
    while from < v.len() && is_white_space(v[from])
        invariant
            from <= v@.len(),
            forall|i: int| 0 <= i < from ==> is_white(#[trigger] v@[i]),
        decreases v@.len() - from,
    {
        from = from + 1;
    }
    proof {
        lemma_leading_white_is(v@, from as nat);
        assert(v@.subrange(from as int, v@.len() as int) =~= v@.skip(from as int));
    }
    string_of(&v, from, v.len())
}

/// The number of characters before the first white space of a text.
pub open spec fn word_len(s: Seq<char>) -> nat
    decreases s.len(),
{
    if s.len() > 0 && !is_white(s[0]) {
        1 + word_len(s.drop_first())
    } else {
        0
    }
}

/// The maximal runs of characters that are not white space, in order.
pub open spec fn words(s: Seq<char>) -> Seq<Seq<char>>
    decreases s.len(),
{
    let n = leading_white(s);
    let t = s.skip(n as int);
    if n >= s.len() {
        Seq::empty()
    } else {
        let k = word_len(t);
        if k == 0 || k > t.len() {
            Seq::empty()
        } else {
            seq![t.take(k as int)] + words(t.skip(k as int))
        }
    }
}

pub proof fn lemma_word_len(s: Seq<char>)
    ensures
        word_len(s) <= s.len(),
        forall|i: int| 0 <= i < word_len(s) ==> !is_white(#[trigger] s[i]),
        word_len(s) < s.len() ==> is_white(s[word_len(s) as int]),
    decreases s.len(),
{
    if s.len() > 0 && !is_white(s[0]) {
        lemma_word_len(s.drop_first());
        assert forall|i: int| 0 <= i < word_len(s) implies !is_white(#[trigger] s[i]) by {
            if i > 0 {
                assert(s[i] == s.drop_first()[i - 1]);
            }
        }
        assert(word_len(s) < s.len() ==> s[word_len(s) as int] == s.drop_first()[word_len(s) - 1]);
    }
}

pub proof fn lemma_word_len_is(s: Seq<char>, n: nat)
    requires
        n <= s.len(),
        forall|i: int| 0 <= i < n ==> !is_white(#[trigger] s[i]),
        n < s.len() ==> is_white(s[n as int]),
    ensures
        word_len(s) == n,
{
    lemma_word_len(s);
    if word_len(s) < n {
        assert(!is_white(s[word_len(s) as int]));
    }
    if n < word_len(s) {
        assert(!is_white(s[n as int]));
    }
}

/// The words of a text: its maximal runs of characters that are not white space.
pub fn split_words(s: &str) -> (r: Vec<String>)
    ensures
        views(r@) == words(s@),
{
    let v = chars_of(s);
    let mut out: Vec<String> = Vec::new();
    let mut i: usize = 0;
    proof {
        assert(v@.skip(0) =~= v@);
        assert(views(out@) + words(v@) =~= words(v@));
    }
    while i < v.len()
        invariant
            i <= v@.len(),
            views(out@) + words(v@.skip(i as int)) == words(v@),
        decreases v@.len() - i,
    {
        let ghost rest = v@.skip(i as int);
        let ghost before = views(out@);
        let mut a: usize = i;
        while a < v.len() && is_white_space(v[a])
            invariant
                i <= a <= v@.len(),
                forall|j: int| i <= j < a ==> is_white(#[trigger] v@[j]),
            decreases v@.len() - a,
        {
            a = a + 1;
        }
        proof {
            assert forall|j: int| 0 <= j < a - i implies is_white(#[trigger] rest[j]) by {
                assert(rest[j] == v@[j + i]);
            }
            assert(a < v@.len() ==> rest[a - i] == v@[a as int]);
            lemma_leading_white_is(rest, (a - i) as nat);
        }
        if a == v.len() {
            assert(words(rest) =~= Seq::<Seq<char>>::empty());
            assert(v@.skip(a as int) =~= Seq::<char>::empty());
            assert(words(v@.skip(a as int)) =~= Seq::<Seq<char>>::empty());
            i = a;
        } else {
            let mut b: usize = a;
            while b < v.len() && !is_white_space(v[b])
                invariant
                    a <= b <= v@.len(),
                    forall|j: int| a <= j < b ==> !is_white(#[trigger] v@[j]),
                decreases v@.len() - b,
            {
                b = b + 1;
            }
            let ghost t = rest.skip(a - i);
            proof {
                assert(t =~= v@.skip(a as int));
                assert forall|j: int| 0 <= j < b - a implies !is_white(#[trigger] t[j]) by {
                    assert(t[j] == v@[j + a]);
                }
                assert(b < v@.len() ==> t[b - a] == v@[b as int]);
                lemma_word_len_is(t, (b - a) as nat);
                assert(t[0] == v@[a as int]);
                assert(b > a);
                assert(t.skip(b - a) =~= v@.skip(b as int));
                assert(t.take(b - a) =~= v@.subrange(a as int, b as int));
            }
            let word = string_of(&v, a, b);
            out.push(word);
            proof {
                assert(views(out@) =~= before.push(word@));
                assert(before.push(word@) + words(v@.skip(b as int)) =~= before + (seq![word@]
                    + words(v@.skip(b as int))));
            }
            i = b;
        }
    }
    proof {
        assert(v@.skip(i as int) =~= Seq::<char>::empty());
        assert(words(v@.skip(i as int)) =~= Seq::<Seq<char>>::empty());
        assert(views(out@) + Seq::<Seq<char>>::empty() =~= views(out@));
    }
    out
}

// ---------------------------------------------------------------------------
// Joining
// ---------------------------------------------------------------------------

/// The parts one after the other, with a separator between neighbours.
pub open spec fn join(parts: Seq<Seq<char>>, sep: Seq<char>) -> Seq<char>
    decreases parts.len(),
{
    if parts.len() == 0 {
        Seq::empty()
    } else if parts.len() == 1 {
        parts[0]
    } else {
        join(parts.drop_last(), sep) + sep + parts.last()
    }
}

pub fn joined(parts: &Vec<String>, sep: &str) -> (r: String)
    ensures
        r@ == join(views(parts@), sep@),
{
    let mut out = String::new();
    let mut i: usize = 0;
    while i < parts.len()
        invariant
            i <= parts@.len(),
            out@ == join(views(parts@).take(i as int), sep@),
        decreases parts@.len() - i,
    {
        let ghost all = views(parts@);
        if i > 0 {
            out.push_str(sep);
        }
        out.push_str(parts[i].as_str());
        proof {
            assert(all.take(i + 1).drop_last() =~= all.take(i as int));
            assert(all.take(i + 1).last() == parts@[i as int]@);
            if i == 0 {
                assert(out@ =~= parts@[0]@);
            }
        }
        i = i + 1;
    }
    assert(views(parts@).take(i as int) =~= views(parts@));
    out
}

/// The words of a text, joined by single spaces.
pub open spec fn collapse(s: Seq<char>) -> Seq<char> {
    join(words(s), seq![' '])
}

pub fn collapse_ws(s: &str) -> (r: String)
    ensures
        r@ == collapse(s@),
{
    let parts = split_words(s);
    proof {
        reveal_strlit(" ");
        assert(" "@ =~= seq![' ']);
    }
    joined(&parts, " ")
}

// ---------------------------------------------------------------------------
// Searching
// ---------------------------------------------------------------------------

/// Whether `pat` stands in `s` at position `i`.
pub open spec fn matches_at(s: Seq<char>, pat: Seq<char>, i: int) -> bool {
    0 <= i && i + pat.len() <= s.len() && s.subrange(i, i + pat.len()) == pat
}

/// Whether a text begins with another.
pub open spec fn has_prefix(s: Seq<char>, pat: Seq<char>) -> bool {
    matches_at(s, pat, 0)
}

/// Whether a text ends with another.
pub open spec fn has_suffix(s: Seq<char>, pat: Seq<char>) -> bool {
    matches_at(s, pat, s.len() - pat.len())
}

/// Whether a text holds another.
pub open spec fn has(s: Seq<char>, pat: Seq<char>) -> bool {
    exists|i: int| #[trigger] matches_at(s, pat, i)
}

fn match_at(v: &Vec<char>, pat: &Vec<char>, i: usize) -> (r: bool)
    requires
        i <= v@.len(),
    ensures
        r == matches_at(v@, pat@, i as int),
{
    if pat.len() > v.len() - i {
        return false;
    }
    let mut k: usize = 0;
    assert(v@.len() == v.len());
    while k < pat.len()
        invariant
            i + pat@.len() <= v@.len() <= usize::MAX,
            k <= pat@.len(),
            forall|j: int| 0 <= j < k ==> v@[i + j] == pat@[j],
        decreases pat@.len() - k,
    {
        if v[i + k] != pat[k] {
            assert(v@.subrange(i as int, i + pat@.len())[k as int] != pat@[k as int]);
            return false;
        }
        k = k + 1;
    }
    assert(v@.subrange(i as int, i + pat@.len()) =~= pat@);
    true
}

pub fn starts_with(s: &str, pat: &str) -> (r: bool)
    ensures
        r == has_prefix(s@, pat@),
{
    let v = chars_of(s);
    let p = chars_of(pat);
    match_at(&v, &p, 0)
}

pub fn ends_with(s: &str, pat: &str) -> (r: bool)
    ensures
        r == has_suffix(s@, pat@),
{
    let v = chars_of(s);
    let p = chars_of(pat);
    if p.len() > v.len() {
        return false;
    }
    match_at(&v, &p, v.len() - p.len())
}

pub fn contains(s: &str, pat: &str) -> (r: bool)
    ensures
        r == has(s@, pat@),
{
    let v = chars_of(s);
    let p = chars_of(pat);
    let mut i: usize = 0;
    while i < v.len()
        invariant
            v@ == s@,
            p@ == pat@,
            i <= v@.len(),
            forall|j: int| 0 <= j < i ==> !#[trigger] matches_at(v@, p@, j),
        decreases v@.len() - i,
    {
        if match_at(&v, &p, i) {
            return true;
        }
        i = i + 1;
    }
    match_at(&v, &p, i)
}

/// What follows a prefix, where the text begins with it.
pub open spec fn after_prefix(s: Seq<char>, pat: Seq<char>) -> Option<Seq<char>> {
    if has_prefix(s, pat) {
        Some(s.skip(pat.len() as int))
    } else {
        None
    }
}

pub fn strip_prefix(s: &str, pat: &str) -> (r: Option<String>)
    ensures
        opt_view(r) == after_prefix(s@, pat@),
{
    let v = chars_of(s);
    let p = chars_of(pat);
    if match_at(&v, &p, 0) {
        assert(v@.subrange(p@.len() as int, v@.len() as int) =~= s@.skip(p@.len() as int));
        Some(string_of(&v, p.len(), v.len()))
    } else {
        None
    }
}

/// A text without the run of one character that it starts with.
pub open spec fn strip_leading(s: Seq<char>, c: char) -> Seq<char>
    decreases s.len(),
{
    if s.len() > 0 && s[0] == c {
        strip_leading(s.drop_first(), c)
    } else {
        s
    }
}

pub fn trim_start_matches(s: &str, c: char) -> (r: String)
    ensures
        r@ == strip_leading(s@, c),
{
    let v = chars_of(s);
    let mut i: usize = 0;
    assert(v@.skip(0) =~= v@);
    while i < v.len() && v[i] == c
        invariant
            i <= v@.len(),
            v@ == s@,
            strip_leading(s@, c) == strip_leading(v@.skip(i as int), c),
        decreases v@.len() - i,
    {
        assert(v@.skip(i as int).drop_first() =~= v@.skip(i + 1));
        i = i + 1;
    }
    assert(v@.subrange(i as int, v@.len() as int) =~= v@.skip(i as int));
    string_of(&v, i, v.len())
}

/// A text without the run of one character that it ends with.
pub open spec fn strip_trailing(s: Seq<char>, c: char) -> Seq<char>
    decreases s.len(),
{
    if s.len() > 0 && s.last() == c {
        strip_trailing(s.drop_last(), c)
    } else {
        s
    }
}

pub fn trim_end_matches(s: &str, c: char) -> (r: String)
    ensures
        r@ == strip_trailing(s@, c),
{
    let v = chars_of(s);
    let mut n: usize = v.len();
    assert(v@.take(n as int) =~= v@);
    while n > 0 && v[n - 1] == c
        invariant
            n <= v@.len(),
            v@ == s@,
            strip_trailing(s@, c) == strip_trailing(v@.take(n as int), c),
        decreases n,
    {
        assert(v@.take(n as int).drop_last() =~= v@.take(n - 1));
        n = n - 1;
    }
    assert(v@.subrange(0, n as int) =~= v@.take(n as int));
    string_of(&v, 0, n)
}

/// The first position of a character at or after `from`, or the length of the text.
pub open spec fn position(s: Seq<char>, c: char, from: int) -> int
    decreases s.len() - from,
{
    if from < 0 || from >= s.len() || s[from] == c {
        from
    } else {
        position(s, c, from + 1)
    }
}

pub proof fn lemma_position(s: Seq<char>, c: char, from: int)
    requires
        0 <= from <= s.len(),
    ensures
        from <= position(s, c, from) <= s.len(),
        forall|j: int| from <= j < position(s, c, from) ==> #[trigger] s[j] != c,
        position(s, c, from) < s.len() ==> s[position(s, c, from)] == c,
    decreases s.len() - from,
{
    if from < s.len() && s[from] != c {
        lemma_position(s, c, from + 1);
    }
}

fn find_char(v: &Vec<char>, c: char, from: usize) -> (r: usize)
    requires
        from <= v@.len(),
    ensures
        r == position(v@, c, from as int),
        from <= r <= v@.len(),
{
    let mut i: usize = from;
    while i < v.len() && v[i] != c
        invariant
            from <= i <= v@.len(),
            position(v@, c, from as int) == position(v@, c, i as int),
        decreases v@.len() - i,
    {
        i = i + 1;
    }
    i
}

/// What stands before and after the first occurrence of a character.
pub open spec fn cut(s: Seq<char>, c: char) -> Option<(Seq<char>, Seq<char>)> {
    let i = position(s, c, 0);
    if i < s.len() {
        Some((s.take(i), s.skip(i + 1)))
    } else {
        None
    }
}

pub open spec fn pair_view(p: Option<(String, String)>) -> Option<(Seq<char>, Seq<char>)> {
    match p {
        Some((a, b)) => Some((a@, b@)),
        None => None,
    }
}

/// Splits a text at the first occurrence of a character.
pub fn split_once(s: &str, c: char) -> (r: Option<(String, String)>)
    ensures
        pair_view(r) == cut(s@, c),
{
    let v = chars_of(s);
    let i: usize = find_char(&v, c, 0);
    if i < v.len() {
        assert(v@.subrange(0, i as int) =~= s@.take(i as int));
        assert(v@.subrange(i + 1, v@.len() as int) =~= s@.skip(i + 1));
        Some((string_of(&v, 0, i), string_of(&v, i + 1, v.len())))
    } else {
        None
    }
}

/// The parts of a text between the occurrences of a character.
pub open spec fn parts(s: Seq<char>, c: char) -> Seq<Seq<char>>
    decreases s.len(),
{
    let i = position(s, c, 0);
    if 0 <= i < s.len() {
        seq![s.take(i)] + parts(s.skip(i + 1), c)
    } else {
        seq![s]
    }
}

pub fn split(s: &str, c: char) -> (r: Vec<String>)
    ensures
        views(r@) == parts(s@, c),
{
    let v = chars_of(s);
    let mut out: Vec<String> = Vec::new();
    let mut from: usize = 0;
    proof {
        assert(v@.skip(0) =~= v@);
        assert(views(out@) + parts(v@, c) =~= parts(v@, c));
    }
    loop
        invariant
            from <= v@.len(),
            views(out@) + parts(v@.skip(from as int), c) == parts(v@, c),
            v@ == s@,
        decreases v@.len() - from,
    {
        let i: usize = find_char(&v, c, from);
        let ghost rest = v@.skip(from as int);
        let ghost before = views(out@);
        proof {
            lemma_position(rest, c, 0);
            lemma_position(v@, c, from as int);
            let k = position(rest, c, 0);
            if k < i - from {
                assert(v@[from + k] == rest[k]);
            }
            if i - from < k {
                assert(rest[i - from] == v@[i as int]);
            }
            assert(k == i - from);
            assert(v@.subrange(from as int, i as int) =~= rest.take(k));
        }
        let part = string_of(&v, from, i);
        out.push(part);
        assert(views(out@) =~= before.push(part@));
        if i == v.len() {
            proof {
                assert(rest.take(i - from) =~= rest);
                assert(before + seq![part@] =~= views(out@));
            }
            return out;
        }
        proof {
            assert(rest.skip(i - from + 1) =~= v@.skip(i + 1));
            assert(before.push(part@) + parts(v@.skip(i + 1), c) =~= before + (seq![part@] + parts(
                v@.skip(i + 1),
                c,
            )));
        }
        from = i + 1;
    }
}

// ---------------------------------------------------------------------------
// Replacing
// ---------------------------------------------------------------------------

/// A text with every occurrence of `pat`, taken from the left and without overlap,
/// replaced by `with`. An empty pattern replaces nothing.
pub open spec fn substitute(s: Seq<char>, pat: Seq<char>, with: Seq<char>) -> Seq<char>
    decreases s.len(),
{
    if s.len() == 0 || pat.len() == 0 {
        s
    } else if has_prefix(s, pat) {
        with + substitute(s.skip(pat.len() as int), pat, with)
    } else {
        seq![s[0]] + substitute(s.drop_first(), pat, with)
    }
}

pub fn replace(s: &str, pat: &str, with: &str) -> (r: String)
    requires
        pat@.len() > 0,
    ensures
        r@ == substitute(s@, pat@, with@),
{
    let v = chars_of(s);
    let p = chars_of(pat);
    let mut out = String::new();
    let mut i: usize = 0;
    proof {
        assert(v@.skip(0) =~= v@);
        assert(out@ + substitute(v@, p@, with@) =~= substitute(v@, p@, with@));
    }
    while i < v.len()
        invariant
            v@ == s@,
            p@ == pat@,
            p@.len() > 0,
            i <= v@.len(),
            out@ + substitute(v@.skip(i as int), p@, with@) == substitute(v@, p@, with@),
        decreases v@.len() - i,
    {
        let ghost rest = v@.skip(i as int);
        let ghost before = out@;
        if match_at(&v, &p, i) {
            proof {
                assert(v@.subrange(i as int, i + p@.len()) =~= rest.subrange(0, p@.len() as int));
                assert(has_prefix(rest, p@));
                assert(rest.skip(p@.len() as int) =~= v@.skip(i + p@.len()));
            }
            out.push_str(with);
            i = i + p.len();
            assert(out@ + substitute(v@.skip(i as int), p@, with@) =~= before + (with@ + substitute(
                v@.skip(i as int),
                p@,
                with@,
            )));
        } else {
            proof {
                if has_prefix(rest, p@) {
                    assert(v@.subrange(i as int, i + p@.len()) =~= rest.subrange(
                        0,
                        p@.len() as int,
                    ));
                }
                assert(rest.drop_first() =~= v@.skip(i + 1));
            }
            out.push(v[i]);
            i = i + 1;
            assert(out@ + substitute(v@.skip(i as int), p@, with@) =~= before + (seq![rest[0]]
                + substitute(v@.skip(i as int), p@, with@)));
        }
    }
    assert(v@.skip(i as int) =~= Seq::<char>::empty());
    assert(out@ + Seq::<char>::empty() =~= out@);
    out
}

// ---------------------------------------------------------------------------
// Numbers
// ---------------------------------------------------------------------------

/// The decimal digit of a number below ten.
pub open spec fn digit(d: nat) -> char {
    (48 + d) as char
}

/// A number in decimal digits, without leading zeros.
pub open spec fn decimal(n: nat) -> Seq<char>
    decreases n,
{
    if n < 10 {
        seq![digit(n)]
    } else {
        decimal(n / 10).push(digit(n % 10))
    }
}

/// A signed number in decimal digits, with `-` before a negative one.
pub open spec fn signed_decimal(n: int) -> Seq<char> {
    if n < 0 {
        seq!['-'] + decimal((-n) as nat)
    } else {
        decimal(n as nat)
    }
}

fn digit_char(d: u8) -> (r: char)
    requires
        d < 10,
    ensures
        r == digit(d as nat),
{
    (48 + d) as char
}

pub fn from_u128(n: u128) -> (r: String)
    ensures
        r@ == decimal(n as nat),
    decreases n,
{
    if n < 10 {
        let mut s = String::new();
        s.push(digit_char(n as u8));
        assert(s@ =~= decimal(n as nat));
        s
    } else {
        let mut s = from_u128(n / 10);
        s.push(digit_char((n % 10) as u8));
        s
    }
}

pub fn from_u64(n: u64) -> (r: String)
    ensures
        r@ == decimal(n as nat),
{
    from_u128(n as u128)
}

pub fn from_usize(n: usize) -> (r: String)
    ensures
        r@ == decimal(n as nat),
{
    from_u128(n as u128)
}

pub fn from_i64(n: i64) -> (r: String)
    ensures
        r@ == signed_decimal(n as int),
{
    if n < 0 {
        let mut s = String::new();
        s.push('-');
        let m: i128 = -(n as i128);
        let d = from_u128(m as u128);
        s.push_str(d.as_str());
        assert(s@ =~= signed_decimal(n as int));
        s
    } else {
        from_u128(n as u128)
    }
}

/// A number in decimal digits, padded on the left with zeros to two digits.
pub open spec fn two_digits(n: nat) -> Seq<char> {
    if n < 10 {
        seq!['0'] + decimal(n)
    } else {
        decimal(n)
    }
}

pub fn from_two_digits(n: u64) -> (r: String)
    ensures
        r@ == two_digits(n as nat),
{
    if n < 10 {
        let mut s = String::new();
        s.push('0');
        let d = from_u64(n);
        s.push_str(d.as_str());
        assert(s@ =~= two_digits(n as nat));
        s
    } else {
        from_u64(n)
    }
}

/// The value of a text of decimal digits, most significant first.
pub open spec fn digits_value(s: Seq<char>) -> nat
    decreases s.len(),
{
    if s.len() == 0 {
        0
    } else {
        10 * digits_value(s.drop_last()) + (s.last() as int - 48) as nat
    }
}

/// Whether a text is a non-empty run of decimal digits.
pub open spec fn is_digits(s: Seq<char>) -> bool {
    s.len() > 0 && forall|i: int| 0 <= i < s.len() ==> is_digit(#[trigger] s[i])
}

/// A text without one leading `+`.
pub open spec fn without_plus(s: Seq<char>) -> Seq<char> {
    if s.len() > 0 && s[0] == '+' {
        s.drop_first()
    } else {
        s
    }
}

/// What an unsigned integer with the given maximum is parsed to: decimal digits with
/// an optional leading `+`, and no value above the maximum.
pub open spec fn unsigned_value(s: Seq<char>, max: nat) -> Option<nat> {
    let d = without_plus(s);
    if is_digits(d) && digits_value(d) <= max {
        Some(digits_value(d))
    } else {
        None
    }
}

/// What a signed integer with the given magnitude limits is parsed to: decimal digits
/// with an optional leading `+` or `-`.
pub open spec fn signed_value(s: Seq<char>, min: int, max: int) -> Option<int> {
    if s.len() > 0 && s[0] == '-' {
        let d = s.drop_first();
        if is_digits(d) && -digits_value(d) >= min {
            Some(-digits_value(d))
        } else {
            None
        }
    } else {
        match unsigned_value(s, max as nat) {
            Some(n) => Some(n as int),
            None => None,
        }
    }
}

proof fn lemma_digits_value_grows(s: Seq<char>, n: int)
    requires
        0 <= n <= s.len(),
        forall|i: int| 0 <= i < s.len() ==> is_digit(#[trigger] s[i]),
    ensures
        digits_value(s.take(n)) <= digits_value(s),
    decreases s.len(),
{
    if n == s.len() {
        assert(s.take(n) =~= s);
    } else {
        lemma_digits_value_grows(s.drop_last(), n);
        assert(s.drop_last().take(n) =~= s.take(n));
    }
}

/// Reads the characters from `from` on as decimal digits, up to a maximum.
fn read_digits(v: &Vec<char>, from: usize, max: u128) -> (r: Option<u128>)
    requires
        from <= v@.len(),
        max <= 0xffff_ffff_ffff_ffff,
    ensures
        match r {
            Some(n) => is_digits(v@.skip(from as int)) && digits_value(v@.skip(from as int)) == n
                && n <= max,
            None => !(is_digits(v@.skip(from as int)) && digits_value(v@.skip(from as int)) <= max),
        },
{
    let ghost d = v@.skip(from as int);
    if from == v.len() {
        return None;
    }
    let mut value: u128 = 0;
    let mut i: usize = from;
    while i < v.len()
        invariant
            from <= i <= v@.len(),
            d == v@.skip(from as int),
            max <= 0xffff_ffff_ffff_ffff,
            value <= max,
            value == digits_value(d.take(i - from)),
            forall|j: int| 0 <= j < i - from ==> is_digit(#[trigger] d[j]),
        decreases v@.len() - i,
    {
        if !is_ascii_digit(v[i]) {
            assert(!is_digit(d[i - from]));
            return None;
        }
        let ghost before = value;
        value = value * 10 + (v[i] as u32 - 48) as u128;
        proof {
            assert(d[i - from] == v@[i as int]);
            assert(d.take(i - from + 1).drop_last() =~= d.take(i - from));
            assert(value == digits_value(d.take(i - from + 1)));
        }
        if value > max {
            proof {
                if is_digits(d) {
                    lemma_digits_value_grows(d, i - from + 1);
                }
            }
            return None;
        }
        i = i + 1;
    }
    assert(d.take(i - from) =~= d);
    Some(value)
}

pub open spec fn opt_nat(v: Option<u64>) -> Option<nat> {
    match v {
        Some(n) => Some(n as nat),
        None => None,
    }
}

pub open spec fn opt_int(v: Option<i64>) -> Option<int> {
    match v {
        Some(n) => Some(n as int),
        None => None,
    }
}

/// Parses an unsigned integer up to a maximum.
pub fn parse_unsigned(s: &str, max: u64) -> (r: Option<u64>)
    ensures
        opt_nat(r) == unsigned_value(s@, max as nat),
{
    let v = chars_of(s);
    let from: usize = if v.len() > 0 && v[0] == '+' {
        1
    } else {
        0
    };
    proof {
        assert(v@.skip(0) =~= v@);
        assert(v@.len() > 0 ==> v@.skip(1) =~= v@.drop_first());
        assert(without_plus(s@) =~= v@.skip(from as int));
    }
    match read_digits(&v, from, max as u128) {
        Some(n) => Some(n as u64),
        None => None,
    }
}

/// Parses a signed 64-bit integer.
pub fn parse_i64(s: &str) -> (r: Option<i64>)
    ensures
        opt_int(r) == signed_value(s@, i64::MIN as int, i64::MAX as int),
{
    let v = chars_of(s);
    if v.len() > 0 && v[0] == '-' {
        assert(v@.skip(1) =~= v@.drop_first());
        match read_digits(&v, 1, 0x8000_0000_0000_0000) {
            Some(n) => Some((-(n as i128)) as i64),
            None => None,
        }
    } else {
        match parse_unsigned(s, i64::MAX as u64) {
            Some(n) => Some(n as i64),
            None => None,
        }
    }
}

// ---------------------------------------------------------------------------
// Order
// ---------------------------------------------------------------------------

/// The lexicographic order of two texts by their code points.
pub open spec fn le(a: Seq<char>, b: Seq<char>) -> bool
    decreases a.len(),
{
    if a.len() == 0 {
        true
    } else if b.len() == 0 {
        false
    } else if a[0] != b[0] {
        (a[0] as int) < (b[0] as int)
    } else {
        le(a.drop_first(), b.drop_first())
    }
}

pub proof fn lemma_le_reflexive(a: Seq<char>)
    ensures
        le(a, a),
    decreases a.len(),
{
    if a.len() > 0 {
        lemma_le_reflexive(a.drop_first());
    }
}

pub proof fn lemma_le_total(a: Seq<char>, b: Seq<char>)
    ensures
        le(a, b) || le(b, a),
    decreases a.len(),
{
    if a.len() > 0 && b.len() > 0 {
        lemma_le_total(a.drop_first(), b.drop_first());
    }
}

pub proof fn lemma_le_antisymmetric(a: Seq<char>, b: Seq<char>)
    requires
        le(a, b),
        le(b, a),
    ensures
        a == b,
    decreases a.len(),
{
    if a.len() == 0 || b.len() == 0 {
        assert(a =~= b);
    } else {
        lemma_le_antisymmetric(a.drop_first(), b.drop_first());
        assert(a =~= seq![a[0]] + a.drop_first());
        assert(b =~= seq![b[0]] + b.drop_first());
    }
}

pub proof fn lemma_le_transitive(a: Seq<char>, b: Seq<char>, c: Seq<char>)
    requires
        le(a, b),
        le(b, c),
    ensures
        le(a, c),
    decreases a.len(),
{
    if a.len() > 0 && b.len() > 0 && c.len() > 0 && a[0] == b[0] && b[0] == c[0] {
        lemma_le_transitive(a.drop_first(), b.drop_first(), c.drop_first());
    }
}

/// Whether a text comes before another in the order of code points, or is the same.
pub fn at_most(a: &str, b: &str) -> (r: bool)
    ensures
        r == le(a@, b@),
{
    let x = chars_of(a);
    let y = chars_of(b);
    let mut i: usize = 0;
    assert(x@.skip(0) =~= x@);
    assert(y@.skip(0) =~= y@);
    while i < x.len() && i < y.len()
        invariant
            x@ == a@,
            y@ == b@,
            i <= x@.len(),
            i <= y@.len(),
            le(x@, y@) == le(x@.skip(i as int), y@.skip(i as int)),
        decreases x@.len() - i,
    {
        assert(x@.skip(i as int)[0] == x@[i as int]);
        assert(y@.skip(i as int)[0] == y@[i as int]);
        if x[i] != y[i] {
            return x[i] < y[i];
        }
        assert(x@.skip(i as int).drop_first() =~= x@.skip(i + 1));
        assert(y@.skip(i as int).drop_first() =~= y@.skip(i + 1));
        i = i + 1;
    }
    i == x.len()
}

// ---------------------------------------------------------------------------
// Bytes
// ---------------------------------------------------------------------------

/// The number of bytes that a text takes in UTF-8.
pub open spec fn byte_len(s: Seq<char>) -> nat {
    vstd::utf8::encode_utf8(s).len()
}

pub fn byte_length(s: &str) -> (r: usize)
    ensures
        r == byte_len(s@),
{
    s.as_bytes().len()
}

/// A text that is put together holds each of its parts.
pub proof fn law_whole_holds_part(a: Seq<char>, b: Seq<char>, c: Seq<char>)
    ensures
        has(a + b + c, b),
{
    let s = a + b + c;
    assert(s.subrange(a.len() as int, (a.len() + b.len()) as int) =~= b);
    assert(matches_at(s, b, a.len() as int));
}

/// What stands in a part stands in the whole.
pub proof fn law_part_of_part(s: Seq<char>, t: Seq<char>, u: Seq<char>)
    requires
        has(s, t),
        has(t, u),
    ensures
        has(s, u),
{
    let i = choose|i: int| #[trigger] matches_at(s, t, i);
    let j = choose|j: int| #[trigger] matches_at(t, u, j);
    assert(s.subrange(i, i + t.len()) == t);
    assert(s.subrange(i + j, i + j + u.len()) =~= u) by {
        assert forall|k: int| 0 <= k < u.len() implies s[i + j + k] == u[k] by {
            assert(t[j + k] == s.subrange(i, i + t.len())[j + k]);
            assert(u[k] == t.subrange(j, j + u.len())[k]);
        }
    }
    assert(matches_at(s, u, i + j));
}


/// What the first of two texts holds stands in both put together.
pub broadcast proof fn law_left_part(a: Seq<char>, b: Seq<char>, p: Seq<char>)
    ensures
        has(a, p) ==> #[trigger] has(a + b, p),
{
    if has(a, p) {
        let i = choose|i: int| #[trigger] matches_at(a, p, i);
        assert((a + b).subrange(i, i + p.len()) =~= a.subrange(i, i + p.len()));
        assert(matches_at(a + b, p, i));
    }
}

/// What the second of two texts holds stands in both put together.
pub broadcast proof fn law_right_part(a: Seq<char>, b: Seq<char>, p: Seq<char>)
    ensures
        has(b, p) ==> #[trigger] has(a + b, p),
{
    if has(b, p) {
        let i = choose|i: int| #[trigger] matches_at(b, p, i);
        let k = a.len() + i;
        assert((a + b).subrange(k, k + p.len()) =~= b.subrange(i, i + p.len()));
        assert(matches_at(a + b, p, k));
    }
}

/// A text holds itself.
pub broadcast proof fn law_holds_itself(s: Seq<char>)
    ensures
        #[trigger] has(s, s),
{
    assert(s.subrange(0, s.len() as int) =~= s);
    assert(matches_at(s, s, 0));
}

/// What the first of two texts begins with, both put together begin with.
pub broadcast proof fn law_left_prefix(a: Seq<char>, b: Seq<char>, p: Seq<char>)
    ensures
        has_prefix(a, p) ==> #[trigger] has_prefix(a + b, p),
{
    if has_prefix(a, p) {
        assert((a + b).subrange(0, p.len() as int) =~= a.subrange(0, p.len() as int));
    }
}

/// A text begins with itself.
pub broadcast proof fn law_own_prefix(s: Seq<char>)
    ensures
        #[trigger] has_prefix(s, s),
{
    assert(s.subrange(0, s.len() as int) =~= s);
}

/// What the second of two texts ends with, both put together end with.
pub broadcast proof fn law_right_suffix(a: Seq<char>, b: Seq<char>, p: Seq<char>)
    ensures
        has_suffix(b, p) ==> #[trigger] has_suffix(a + b, p),
{
    if has_suffix(b, p) {
        let s = a + b;
        let i = b.len() - p.len();
        assert(s.subrange(s.len() - p.len(), s.len() as int) =~= b.subrange(i, b.len() as int));
    }
}

/// A text ends with itself.
pub broadcast proof fn law_own_suffix(s: Seq<char>)
    ensures
        #[trigger] has_suffix(s, s),
{
    assert(s.subrange(0, s.len() as int) =~= s);
}

/// A text that begins with another holds it.
pub proof fn law_prefix_is_held(s: Seq<char>, p: Seq<char>)
    requires
        has_prefix(s, p),
    ensures
        has(s, p),
{
    assert(matches_at(s, p, 0));
}

/// Where texts stand one behind another.
pub broadcast group group_parts {
    law_left_part,
    law_right_part,
    law_holds_itself,
    law_left_prefix,
    law_own_prefix,
    law_right_suffix,
    law_own_suffix,
}

/// Texts put together, with a text between each two, hold each of them.
pub proof fn law_joined_holds_each(parts: Seq<Seq<char>>, sep: Seq<char>, i: int)
    requires
        0 <= i < parts.len(),
    ensures
        has(join(parts, sep), parts[i]),
    decreases parts.len(),
{
    broadcast use group_parts;

    if parts.len() > 1 {
        if i < parts.len() - 1 {
            law_joined_holds_each(parts.drop_last(), sep, i);
        }
    }
}


/// A text that does not hold a pattern stays as it is where the pattern is replaced.
pub proof fn law_nothing_to_replace(s: Seq<char>, pat: Seq<char>, with: Seq<char>)
    requires
        !self::has(s, pat),
    ensures
        substitute(s, pat, with) == s,
    decreases s.len(),
{
    if s.len() > 0 && pat.len() > 0 {
        assert(!matches_at(s, pat, 0));
        let rest = s.drop_first();
        assert(!self::has(rest, pat)) by {
            if has(rest, pat) {
                let i = choose|i: int| #[trigger] matches_at(rest, pat, i);
                assert(s.subrange(i + 1, i + 1 + pat.len()) =~= rest.subrange(i, i + pat.len()));
                assert(matches_at(s, pat, i + 1));
            }
        }
        law_nothing_to_replace(rest, pat, with);
        assert(seq![s[0]] + rest =~= s);
    }
}

/// Where a pattern is replaced in a text that holds it, what it is replaced by stands in
/// the result.
pub proof fn law_replaced_is_held(s: Seq<char>, pat: Seq<char>, with: Seq<char>)
    requires
        pat.len() > 0,
        has(s, pat),
    ensures
        has(substitute(s, pat, with), with),
    decreases s.len(),
{
    broadcast use group_parts;

    let i = choose|i: int| #[trigger] matches_at(s, pat, i);
    if !has_prefix(s, pat) {
        assert(i > 0);
        let rest = s.drop_first();
        assert(rest.subrange(i - 1, i - 1 + pat.len()) =~= s.subrange(i, i + pat.len()));
        assert(matches_at(rest, pat, i - 1));
        law_replaced_is_held(rest, pat, with);
    }
}

/// What stands before the first place of a pattern stays where the pattern is replaced.
pub proof fn law_replaces_in_place(
    before: Seq<char>,
    pat: Seq<char>,
    after: Seq<char>,
    with: Seq<char>,
)
    requires
        pat.len() > 0,
        forall|i: int| 0 <= i < before.len() ==> !#[trigger] matches_at(before + pat + after, pat, i),
    ensures
        substitute(before + pat + after, pat, with) == before + with + substitute(after, pat, with),
    decreases before.len(),
{
    let s = before + pat + after;
    if before.len() == 0 {
        assert(s.subrange(0, pat.len() as int) =~= pat);
        assert(s.skip(pat.len() as int) =~= after);
        assert(before + with =~= with);
    } else {
        let rest = before.drop_first();
        assert(!matches_at(s, pat, 0));
        assert(s.drop_first() =~= rest + pat + after);
        assert forall|i: int| 0 <= i < rest.len() implies !#[trigger] matches_at(
            rest + pat + after,
            pat,
            i,
        ) by {
            assert((rest + pat + after).subrange(i, i + pat.len()) =~= s.subrange(
                i + 1,
                i + 1 + pat.len(),
            ));
            assert(!matches_at(s, pat, i + 1));
        }
        law_replaces_in_place(rest, pat, after, with);
        assert(seq![before[0]] + (rest + with + substitute(after, pat, with)) =~= before + with
            + substitute(after, pat, with));
    }
}

/// Numbers are read in tens, from the left.
pub proof fn law_digits_are_read(s: Seq<char>, c: char)
    ensures
        digits_value(Seq::empty()) == 0,
        is_digit(c) ==> digits_value(s.push(c)) == 10 * digits_value(s) + (c as int - '0' as int),
        is_digit(c) <==> '0' <= c <= '9',
{
    assert(s.push(c).drop_last() =~= s);
}

/// A number that is written in decimal digits is read back.
pub proof fn law_decimal_is_read_back(n: nat)
    ensures
        is_digits(decimal(n)),
        digits_value(decimal(n)) == n,
    decreases n,
{
    if n >= 10 {
        law_decimal_is_read_back(n / 10);
        law_digits_are_read(decimal(n / 10), digit(n % 10));
    } else {
        law_digits_are_read(Seq::empty(), digit(n));
        assert(decimal(n) =~= Seq::<char>::empty().push(digit(n)));
    }
}


/// A text with a character that is no white space is not blank.
pub proof fn law_not_blank(s: Seq<char>, i: int)
    requires
        0 <= i < s.len(),
        !is_white(s[i]),
    ensures
        trim(s).len() > 0,
{
    lemma_leading_white(s);
    let t = trim_start(s);
    let n = leading_white(s) as int;
    assert(n <= i) by {
        if i < n {
            assert(is_white(s[i]));
        }
    }
    assert(t[i - n] == s[i]);
    lemma_trimmed_len(t);
    if trimmed_len(t) == 0 {
        assert(is_white(t[i - n]));
    }
}


/// A text is cut at the first place of a character: before it stands what does not hold the
/// character, behind it all the rest. A text without the character is not cut.
pub proof fn law_first_part(first: Seq<char>, c: char, rest: Seq<char>)
    requires
        !first.contains(c),
    ensures
        cut(first + seq![c] + rest, c) == Some((first, rest)),
        cut(first, c) is None,
        parts(first, c) == seq![first],
        parts(first + seq![c] + rest, c) == seq![first] + parts(rest, c),
        parts(first + seq![c] + rest, c)[0] == first,
{
    let s = first + seq![c] + rest;
    lemma_position(s, c, 0);
    lemma_position(first, c, 0);
    let i = position(s, c, 0);
    assert(s[first.len() as int] == c);
    if i < first.len() {
        assert(s[i] == first[i]);
    }
    assert(i == first.len());
    assert(s.take(i) =~= first);
    assert(s.skip(i + 1) =~= rest);
    if position(first, c, 0) < first.len() {
        assert(first.contains(c));
    }
}


// ---------------------------------------------------------------------------
// What the functions on texts do
// ---------------------------------------------------------------------------

/// The space, the tab and the line breaks are white space, as are the spaces beyond ASCII; no
/// other ASCII character is. Control characters are those below the space and from 0x7f to
/// 0x9f.
pub proof fn law_classes_of_characters(c: char)
    ensures
        c == ' ' || c == '\t' || c == '\n' || c == '\r' || c as int == 0xb || c as int == 0xc
            ==> is_white(c),
        c as int == 0x85 || c as int == 0xa0 || c as int == 0x3000 ==> is_white(c),
        0x20 < c as int <= 0x84 ==> !is_white(c),
        c as int <= 8 ==> !is_white(c),
        (c as int) < ' ' as int ==> is_control(c),
        c as int >= ' ' as int && c as int <= '~' as int ==> !is_control(c),
        c as int >= 0xa0 ==> !is_control(c),
        0x7f <= c as int <= 0x9f ==> is_control(c),
        is_digit(c) <==> '0' as int <= c as int <= '0' as int + 9,
        is_upper(c) <==> 'A' as int <= c as int <= 'A' as int + 25,
        is_lower(c) <==> 'a' as int <= c as int <= 'a' as int + 25,
        is_letter(c) <==> is_upper(c) || is_lower(c),
        is_hex(c) <==> is_digit(c) || 'a' as int <= c as int <= 'a' as int + 5 || 'A' as int
            <= c as int <= 'A' as int + 5,
{
}

/// The case of a letter is turned, and nothing else: an upper-case letter and its lower-case
/// form turn into each other, and a text keeps its length.
pub proof fn law_case_is_turned(s: Seq<char>, i: int)
    requires
        0 <= i < s.len(),
    ensures
        lower(s).len() == s.len(),
        upper(s).len() == s.len(),
        is_upper(s[i]) ==> is_lower(lower(s)[i]) && lower(s)[i] as int - 'a' as int == s[i] as int
            - 'A' as int && upper(s)[i] == s[i],
        is_lower(s[i]) ==> is_upper(upper(s)[i]) && upper(s)[i] as int - 'A' as int == s[i] as int
            - 'a' as int && lower(s)[i] == s[i],
        !is_letter(s[i]) ==> lower(s)[i] == s[i] && upper(s)[i] == s[i],
        lower(lower(s)) == lower(s),
        upper(upper(s)) == upper(s),
        same_ignore_case(s, lower(s)),
        same_ignore_case(s, upper(s)),
{
    assert forall|c: char| true implies #[trigger] lower_char(upper_char(c)) == lower_char(c)
        && lower_char(lower_char(c)) == lower_char(c) && upper_char(upper_char(c)) == upper_char(
        c,
    ) by {}
    assert(lower(lower(s)) =~= lower(s));
    assert(upper(upper(s)) =~= upper(s)) by {
        assert forall|j: int| 0 <= j < s.len() implies upper(upper(s))[j] == upper(s)[j] by {
            assert(lower_char(upper_char(s[j])) == lower_char(s[j]));
        }
    }
    assert(lower(upper(s)) =~= lower(s));
}

/// Trimming takes the white space off both ends, and leaves what is between.
pub proof fn law_ends_are_trimmed(a: Seq<char>, s: Seq<char>, b: Seq<char>)
    requires
        forall|i: int| 0 <= i < a.len() ==> is_white(#[trigger] a[i]),
        forall|i: int| 0 <= i < b.len() ==> is_white(#[trigger] b[i]),
        s.len() > 0,
        !is_white(s[0]),
        !is_white(s.last()),
    ensures
        trim(a + s + b) == s,
        trim(a) == Seq::<char>::empty(),
        trim_start(a + s + b) == s + b,
        trim_end(a + s + b) == a + s,
{
    let t = a + s + b;
    assert(t[a.len() as int] == s[0]);
    lemma_leading_white_is(t, a.len());
    assert(t.skip(a.len() as int) =~= s + b);
    let u = s + b;
    assert(u[s.len() - 1] == s.last());
    lemma_trimmed_len_is(u, s.len());
    assert(u.take(s.len() as int) =~= s);
    assert(t[a.len() + s.len() - 1] == s.last());
    lemma_trimmed_len_is(t, a.len() + s.len());
    assert(t.take((a.len() + s.len()) as int) =~= a + s);
    lemma_leading_white(a);
    if leading_white(a) < a.len() {
        assert(is_white(a[leading_white(a) as int]));
    }
    assert(trim_start(a) =~= Seq::<char>::empty());
    assert(trim_end(Seq::<char>::empty()) =~= Seq::<char>::empty());
}

/// The words of a text: a word that white space follows stands before the words of the rest,
/// and white space before a word does not count.
pub proof fn law_words_are_split(w: Seq<char>, c: char, rest: Seq<char>)
    requires
        w.len() > 0,
        forall|i: int| 0 <= i < w.len() ==> !is_white(#[trigger] w[i]),
        is_white(c),
    ensures
        words(Seq::empty()) == Seq::<Seq<char>>::empty(),
        words(w) == seq![w],
        words(w + seq![c] + rest) == seq![w] + words(seq![c] + rest),
        words(seq![c] + rest) == words(rest),
{
    let s = w + seq![c] + rest;
    lemma_leading_white_is(w, 0);
    lemma_word_len_is(w, w.len());
    assert(w.skip(0) =~= w);
    assert(w.take(w.len() as int) =~= w);
    assert(w.skip(w.len() as int) =~= Seq::<char>::empty());
    assert(words(Seq::empty()) =~= Seq::<Seq<char>>::empty());
    assert(words(w) =~= seq![w]);
    assert(s[0] == w[0]);
    lemma_leading_white_is(s, 0);
    assert(s.skip(0) =~= s);
    assert(s[w.len() as int] == c);
    lemma_word_len_is(s, w.len());
    assert(s.take(w.len() as int) =~= w);
    assert(s.skip(w.len() as int) =~= seq![c] + rest);
    let u = seq![c] + rest;
    assert(u.drop_first() =~= rest);
    assert(u[0] == c);
    let n = leading_white(rest);
    lemma_leading_white(rest);
    assert(leading_white(u) == 1 + n);
    assert(u.skip((1 + n) as int) =~= rest.skip(n as int));
}

/// Parts are joined with the separator between neighbours only.
pub proof fn law_joined_by_the_separator(parts: Seq<Seq<char>>, sep: Seq<char>, last: Seq<char>)
    ensures
        join(Seq::empty(), sep) == Seq::<char>::empty(),
        join(seq![last], sep) == last,
        parts.len() > 0 ==> join(parts.push(last), sep) == join(parts, sep) + sep + last,
{
    assert(parts.push(last).drop_last() =~= parts);
}

/// Words apart by single spaces are left as they are, and more white space before a word
/// makes no difference.
pub proof fn law_white_space_is_collapsed(w: Seq<char>, c: char, rest: Seq<char>)
    requires
        w.len() > 0,
        forall|i: int| 0 <= i < w.len() ==> !is_white(#[trigger] w[i]),
        is_white(c),
    ensures
        collapse(w) == w,
        collapse(seq![c] + rest) == collapse(rest),
        collapse(w + seq![c] + rest) == collapse(w + seq![' '] + rest),
        collapse(w + seq![c] + w) == w + seq![' '] + w,
{
    law_words_are_split(w, c, rest);
    law_words_are_split(w, ' ', rest);
    law_words_are_split(w, c, w);
    assert(seq![w] + seq![w] =~= seq![w].push(w));
    law_joined_by_the_separator(seq![w], seq![' '], w);
    law_joined_by_the_separator(Seq::empty(), seq![' '], w);
}

/// What follows a prefix is the rest of the text; a text that does not begin so has none.
pub proof fn law_prefix_is_taken_off(s: Seq<char>, pat: Seq<char>)
    ensures
        after_prefix(pat + s, pat) == Some(s),
        after_prefix(s, pat) matches Some(rest) ==> s == pat + rest,
        after_prefix(s, pat) is None <==> !has_prefix(s, pat),
{
    assert((pat + s).subrange(0, pat.len() as int) =~= pat);
    assert((pat + s).skip(pat.len() as int) =~= s);
    if has_prefix(s, pat) {
        assert(s =~= s.subrange(0, pat.len() as int) + s.skip(pat.len() as int));
    }
}

/// One character is taken off an end as often as it stands there.
pub proof fn law_runs_are_taken_off(s: Seq<char>, c: char)
    ensures
        strip_leading(seq![c] + s, c) == strip_leading(s, c),
        strip_trailing(s.push(c), c) == strip_trailing(s, c),
        s.len() > 0 && s[0] != c ==> strip_leading(s, c) == s,
        s.len() > 0 && s.last() != c ==> strip_trailing(s, c) == s,
{
    assert((seq![c] + s).drop_first() =~= s);
    assert(s.push(c).drop_last() =~= s);
}

/// A number is read back from its digits, with a sign or without; nothing above the largest
/// is read, nor anything that is no number.
pub proof fn law_numbers_are_read(n: nat, max: nat, s: Seq<char>)
    ensures
        n <= max ==> unsigned_value(decimal(n), max) == Some(n),
        n <= max ==> unsigned_value(seq!['+'] + decimal(n), max) == Some(n),
        n > max ==> unsigned_value(decimal(n), max) is None,
        unsigned_value(s, max) matches Some(v) ==> v <= max,
        s.len() == 0 ==> unsigned_value(s, max) is None,
        s.len() > 0 && !is_digit(s.last()) ==> unsigned_value(s, max) is None,
{
    law_decimal_is_read_back(n);
    assert(is_digit(decimal(n)[0]));
    assert((seq!['+'] + decimal(n)).drop_first() =~= decimal(n));
    if s.len() > 0 && !is_digit(s.last()) {
        let d = without_plus(s);
        if d.len() > 0 {
            assert(d.last() == s.last());
            assert(!is_digit(d[d.len() - 1]));
        }
    }
}

/// A signed number is read back from its text.
pub proof fn law_signed_numbers_are_read(n: int, min: int, max: int)
    requires
        min <= 0 <= max,
    ensures
        min <= n <= max ==> signed_value(signed_decimal(n), min, max) == Some(n),
        n > max || n < min ==> signed_value(signed_decimal(n), min, max) is None,
        n < 0 ==> signed_decimal(n)[0] == '-',
{
    if n < 0 {
        law_decimal_is_read_back((-n) as nat);
        assert(signed_decimal(n).drop_first() =~= decimal((-n) as nat));
    } else {
        law_numbers_are_read(n as nat, max as nat, Seq::empty());
        law_decimal_is_read_back(n as nat);
        assert(is_digit(decimal(n as nat)[0]));
    }
}

/// Up to 99, two digits stand for a number.
pub proof fn law_two_digits(n: nat)
    requires
        n < 100,
    ensures
        two_digits(n).len() == 2,
        is_digits(two_digits(n)),
        digits_value(two_digits(n)) == n,
        two_digits(n)[0] as int - '0' as int == (n / 10) as int,
        two_digits(n)[1] as int - '0' as int == (n % 10) as int,
{
    law_decimal_is_read_back(n);
    reveal_with_fuel(decimal, 2);
    reveal_with_fuel(digits_value, 3);
    if n < 10 {
        let s = two_digits(n);
        assert(s.drop_last() =~= seq!['0']);
        assert(s.drop_last().drop_last() =~= Seq::<char>::empty());
    }
}

/// Of two texts the one with the smaller character where they first differ comes first, and
/// a text comes before its continuations.
pub proof fn law_first_difference_decides(
    a: Seq<char>,
    x: char,
    b: Seq<char>,
    y: char,
    c: Seq<char>,
)
    ensures
        x as int != y as int ==> (le(a + seq![x] + b, a + seq![y] + c) <==> (x as int) < (
        y as int)),
        le(a, a + b),
        b.len() > 0 ==> !le(a + b, a),
    decreases a.len(),
{
    let p = a + seq![x] + b;
    let q = a + seq![y] + c;
    if a.len() == 0 {
        assert(p[0] == x);
        assert(q[0] == y);
    } else {
        law_first_difference_decides(a.drop_first(), x, b, y, c);
        assert(p[0] == q[0]);
        assert(p.drop_first() =~= a.drop_first() + seq![x] + b);
        assert(q.drop_first() =~= a.drop_first() + seq![y] + c);
        assert((a + b).drop_first() =~= a.drop_first() + b);
        assert((a + b)[0] == a[0]);
    }
}

} // verus!
