//! Default event names and topics, derived from type names.
//!
//! `UserCreated` is named `user.created`, and its topic is the first segment
//! of the name, `user`.
use vstd::prelude::*;
use crate::text::{chars_to_string, to_chars};
use crate::topic::split_dots;

verus! {

/// `char::is_uppercase` (the Unicode `Uppercase` property).
pub uninterp spec fn char_is_uppercase(c: char) -> bool;

/// `char::is_lowercase` (the Unicode `Lowercase` property).
pub uninterp spec fn char_is_lowercase(c: char) -> bool;

/// Calls `char::is_uppercase`; the result is named [`char_is_uppercase`].
#[verifier::external_body]
fn is_uppercase(c: char) -> (r: bool)
    ensures
        r == char_is_uppercase(c),
{
    c.is_uppercase()
}

/// Calls `char::is_lowercase`; the result is named [`char_is_lowercase`].
#[verifier::external_body]
fn is_lowercase(c: char) -> (r: bool)
    ensures
        r == char_is_lowercase(c),
{
    c.is_lowercase()
}

pub open spec fn is_ascii_digit(c: char) -> bool {
    '0' <= c && c <= '9'
}

/// `char::to_ascii_lowercase`.
pub open spec fn ascii_lower(c: char) -> char {
    if 'A' <= c && c <= 'Z' {
        ((c as u32) + 32) as char
    } else {
        c
    }
}

fn to_ascii_lower(c: char) -> (r: char)
    ensures
        r == ascii_lower(c),
{
    if 'A' <= c && c <= 'Z' {
        let code: u32 = c as u32;
        assert(65 <= code <= 90);
        let lowered: u8 = (code + 32) as u8;
        lowered as char
    } else {
        c
    }
}

/// Whether the character before position `i` ends a lower-case run: not
/// upper-case, and lower-case or an ASCII digit. `up` and `low` say which
/// characters are upper-case and lower-case.
pub open spec fn after_lower(s: Seq<char>, up: Seq<bool>, low: Seq<bool>, i: int) -> bool {
    i > 0 && !up[i - 1] && (low[i - 1] || is_ascii_digit(s[i - 1]))
}

/// Whether a `.` goes before position `i`: an upper-case letter after the
/// start that follows a lower-case run or begins one.
pub open spec fn starts_word(s: Seq<char>, up: Seq<bool>, low: Seq<bool>, i: int) -> bool {
    i > 0 && up[i] && (after_lower(s, up, low, i) || (i + 1 < s.len() && low[i + 1]))
}

/// What position `i` contributes to the dotted name.
pub open spec fn dotted_piece(s: Seq<char>, up: Seq<bool>, low: Seq<bool>, i: int) -> Seq<char> {
    (if starts_word(s, up, low, i) { seq!['.'] } else { Seq::<char>::empty() }) + seq![
        if up[i] { ascii_lower(s[i]) } else { s[i] },
    ]
}

/// The dotted name of the first `n` characters' pieces.
pub open spec fn dotted_upto(s: Seq<char>, up: Seq<bool>, low: Seq<bool>, n: int) -> Seq<char>
    decreases n,
{
    if n <= 0 {
        Seq::<char>::empty()
    } else {
        dotted_upto(s, up, low, n - 1) + dotted_piece(s, up, low, n - 1)
    }
}

/// The dotted form of a character sequence, given which characters are
/// upper-case and lower-case.
pub open spec fn dotted_with(s: Seq<char>, up: Seq<bool>, low: Seq<bool>) -> Seq<char> {
    dotted_upto(s, up, low, s.len() as int)
}

/// Which characters are upper-case.
pub open spec fn upper_flags(s: Seq<char>) -> Seq<bool> {
    s.map_values(|c: char| char_is_uppercase(c))
}

/// Which characters are lower-case.
pub open spec fn lower_flags(s: Seq<char>) -> Seq<bool> {
    s.map_values(|c: char| char_is_lowercase(c))
}

/// The dotted lower-case name of an upper-camel-case identifier: a `.` before
/// each upper-case letter that starts a word, every upper-case letter made
/// lower-case (so `HTTPServer` becomes `http.server`).
pub open spec fn dotted_name(s: Seq<char>) -> Seq<char> {
    dotted_with(s, upper_flags(s), lower_flags(s))
}

/// The dotted form of characters, given which are upper-case and which are
/// lower-case.
pub fn dotted_from_flags(chars: &Vec<char>, upper: &Vec<bool>, lower: &Vec<bool>) -> (r: Vec<char>)
    requires
        upper@.len() == chars@.len(),
        lower@.len() == chars@.len(),
    ensures
        r@ == dotted_with(chars@, upper@, lower@),
{
    let mut result: Vec<char> = Vec::new();
    let mut prev_lower = false;
    let mut i: usize = 0;
    while i < chars.len()
        invariant
            upper@.len() == chars@.len(),
            lower@.len() == chars@.len(),
            i <= chars.len(),
            result@ == dotted_upto(chars@, upper@, lower@, i as int),
            prev_lower == after_lower(chars@, upper@, lower@, i as int),
        decreases chars.len() - i,
    {
        let ch = chars[i];
        if upper[i] {
            let next_lower = i + 1 < chars.len() && lower[i + 1];
            if (prev_lower || next_lower) && i > 0 {
                result.push('.');
            }
            result.push(to_ascii_lower(ch));
            prev_lower = false;
        } else {
            result.push(ch);
            prev_lower = lower[i] || ('0' <= ch && ch <= '9');
        }
        assert(result@ =~= dotted_upto(chars@, upper@, lower@, i + 1));
        i = i + 1;
    }
    result
}

/// Converts an upper-camel-case identifier into a dotted lower-case name.
pub fn camel_to_dotted(name: &str) -> (r: String)
    ensures
        r@ == dotted_name(name@),
{
    let chars = to_chars(name);
    let mut upper: Vec<bool> = Vec::new();
    let mut lower: Vec<bool> = Vec::new();
    let mut i: usize = 0;
    while i < chars.len()
        invariant
            chars@ == name@,
            i <= chars.len(),
            upper@ == upper_flags(chars@).take(i as int),
            lower@ == lower_flags(chars@).take(i as int),
        decreases chars.len() - i,
    {
        upper.push(is_uppercase(chars[i]));
        lower.push(is_lowercase(chars[i]));
        assert(upper@ =~= upper_flags(chars@).take(i + 1));
        assert(lower@ =~= lower_flags(chars@).take(i + 1));
        i = i + 1;
    }
    assert(upper@ =~= upper_flags(chars@));
    assert(lower@ =~= lower_flags(chars@));
    let result = dotted_from_flags(&chars, &upper, &lower);
    chars_to_string(&result)
}

proof fn lemma_split_first_fixed(s: Seq<char>, i: int, j: int)
    requires
        0 <= i < j <= s.len(),
        s[i] == '.',
        forall|k: int| 0 <= k < i ==> s[k] != '.',
    ensures
        split_dots(s.take(j)).len() >= 2,
        split_dots(s.take(j))[0] == s.take(i),
    decreases j,
{
    let t = s.take(j);
    assert(t.drop_last() =~= s.take(j - 1));
    if j == i + 1 {
        lemma_split_no_dot(s, i);
        assert(t.last() == '.');
    } else {
        lemma_split_first_fixed(s, i, j - 1);
    }
}

proof fn lemma_split_no_dot(s: Seq<char>, i: int)
    requires
        0 <= i <= s.len(),
        forall|k: int| 0 <= k < i ==> s[k] != '.',
    ensures
        split_dots(s.take(i)) == seq![s.take(i)],
    decreases i,
{
    if i > 0 {
        lemma_split_no_dot(s, i - 1);
        let t = s.take(i);
        assert(t.drop_last() =~= s.take(i - 1));
        assert(t.last() != '.');
        assert(s.take(i - 1).push(t.last()) =~= t);
        assert(split_dots(t) =~= seq![t]);
    } else {
        assert(s.take(0) =~= Seq::<char>::empty());
        assert(split_dots(s.take(0)) =~= seq![s.take(0)]);
    }
}

/// The first dot-separated segment of a name: the default topic of an event.
pub fn first_segment(name: &str) -> (r: String)
    ensures
        r@ == split_dots(name@)[0],
{
    let chars = to_chars(name);
    let mut out: Vec<char> = Vec::new();
    let mut i: usize = 0;
    while i < chars.len()
        invariant
            chars@ == name@,
            i <= chars.len(),
            out@ == chars@.take(i as int),
            forall|k: int| 0 <= k < i ==> chars@[k] != '.',
        decreases chars.len() - i,
    {
        if chars[i] == '.' {
            proof {
                lemma_split_first_fixed(chars@, i as int, chars@.len() as int);
                assert(chars@.take(chars@.len() as int) =~= chars@);
            }
            return chars_to_string(&out);
        }
        out.push(chars[i]);
        assert(out@ =~= chars@.take(i + 1));
        i = i + 1;
    }
    proof {
        lemma_split_no_dot(chars@, chars@.len() as int);
        assert(chars@.take(chars@.len() as int) =~= chars@);
    }
    chars_to_string(&out)
}

/// The values of `#[event(..)]` settings: the last `name = ".."` and the last
/// `topic = ".."`.
#[derive(Clone, Debug)]
pub struct EventAttrs {
    pub name: Option<String>,
    pub topic: Option<String>,
}

/// The value of the last setting of `key`.
pub open spec fn last_value(settings: Seq<(Seq<char>, Seq<char>)>, key: Seq<char>) -> Option<Seq<char>>
    decreases settings.len(),
{
    if settings.len() == 0 {
        None
    } else if settings.last().0 == key {
        Some(settings.last().1)
    } else {
        last_value(settings.drop_last(), key)
    }
}

/// The key-value settings as character sequences.
pub open spec fn settings_view(settings: Seq<(String, String)>) -> Seq<(Seq<char>, Seq<char>)> {
    settings.map_values(|kv: (String, String)| (kv.0@, kv.1@))
}

pub open spec fn opt_chars(o: Option<String>) -> Option<Seq<char>> {
    match o {
        Some(s) => Some(s@),
        None => None,
    }
}

/// Reads the `name` and `topic` settings out of the key-value settings of
/// `#[event(..)]` attributes, in the order written; other keys are ignored.
pub fn event_attrs(settings: &Vec<(String, String)>) -> (r: EventAttrs)
    ensures
        opt_chars(r.name) == last_value(settings_view(settings@), seq!['n', 'a', 'm', 'e']),
        opt_chars(r.topic) == last_value(settings_view(settings@), seq!['t', 'o', 'p', 'i', 'c']),
{
    let ghost sv = settings_view(settings@);
    let ghost name_key = seq!['n', 'a', 'm', 'e'];
    let ghost topic_key = seq!['t', 'o', 'p', 'i', 'c'];
    let name_lit = ['n', 'a', 'm', 'e'];
    let topic_lit = ['t', 'o', 'p', 'i', 'c'];
    assert(name_lit@ == name_key);
    assert(topic_lit@ == topic_key);
    let mut name: Option<String> = None;
    let mut topic: Option<String> = None;
    let mut i: usize = 0;
    assert(sv.take(0) =~= Seq::<(Seq<char>, Seq<char>)>::empty());
    while i < settings.len()
        invariant
            i <= settings@.len(),
            sv == settings_view(settings@),
            name_lit@ == name_key,
            topic_lit@ == topic_key,
            name_key == seq!['n', 'a', 'm', 'e'],
            topic_key == seq!['t', 'o', 'p', 'i', 'c'],
            opt_chars(name) == last_value(sv.take(i as int), name_key),
            opt_chars(topic) == last_value(sv.take(i as int), topic_key),
        decreases settings@.len() - i,
    {
        let ghost t = sv.take(i + 1);
        assert(t.drop_last() =~= sv.take(i as int));
        assert(t.last() == (settings@[i as int].0@, settings@[i as int].1@));
        let key = settings[i].0.as_str();
        if crate::text::str_is(key, &name_lit) {
            name = Some(settings[i].1.clone());
        } else if crate::text::str_is(key, &topic_lit) {
            topic = Some(settings[i].1.clone());
        }
        i = i + 1;
    }
    assert(sv.take(settings@.len() as int) =~= sv);
    EventAttrs { name, topic }
}

/// The name an event type gets: the `name` setting, else its type name in
/// dotted form; and its topic: the `topic` setting, else the first segment
/// of its name.
pub open spec fn derived_name(ident: Seq<char>, attrs_name: Option<Seq<char>>) -> Seq<char> {
    match attrs_name {
        Some(n) => n,
        None => dotted_name(ident),
    }
}

pub open spec fn derived_topic(ident: Seq<char>, attrs_name: Option<Seq<char>>, attrs_topic: Option<Seq<char>>) -> Seq<char> {
    match attrs_topic {
        Some(t) => t,
        None => split_dots(derived_name(ident, attrs_name))[0],
    }
}

/// The event name and topic of a type with these `#[event(..)]` settings.
pub fn event_name_and_topic(ident: &str, attrs: &EventAttrs) -> (r: (String, String))
    ensures
        r.0@ == derived_name(ident@, opt_chars(attrs.name)),
        r.1@ == derived_topic(ident@, opt_chars(attrs.name), opt_chars(attrs.topic)),
{
    let name = match &attrs.name {
        Some(n) => n.clone(),
        None => camel_to_dotted(ident),
    };
    let topic = match &attrs.topic {
        Some(t) => t.clone(),
        None => first_segment(name.as_str()),
    };
    (name, topic)
}

} // verus!
