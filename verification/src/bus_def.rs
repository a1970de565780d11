//! The `event_bus!` grammar over the tokens of the macro's input:
//! `bus B { (event N { f: T, .. } | topic m => [T, ..])* }`.
//!
//! A field's type is kept as its tokens: it ends at a `,` outside `<..>`, or
//! where a complete type is followed by a name, which starts the next field.
//! A topic's event types are paths (`::a::b::C<T>`), of which the last name
//! counts. Commas after a field or an event type may be left out.
use vstd::prelude::*;
use crate::text::str_equal;

verus! {

/// The delimiter of a token group.
#[derive(Clone, Copy, Debug, PartialEq, Eq, Structural)]
pub enum Delimiter {
    /// `{ .. }`
    Brace,
    /// `[ .. ]`
    Bracket,
    /// `( .. )`
    Parenthesis,
}

/// A token of macro input: a name, a punctuation character, or a delimited
/// group of tokens.
#[derive(Debug)]
pub enum BusToken {
    Ident(String),
    Punct(char),
    Group(Delimiter, Vec<BusToken>),
}

/// The mathematical form of a [`BusToken`].
pub enum TokenView {
    Ident(Seq<char>),
    Punct(char),
    Group(Delimiter, Seq<TokenView>),
}

pub open spec fn token_view(t: BusToken) -> TokenView
    decreases t, 0int,
{
    match t {
        BusToken::Ident(s) => TokenView::Ident(s@),
        BusToken::Punct(c) => TokenView::Punct(c),
        BusToken::Group(d, ts) => TokenView::Group(d, token_view_seq(ts@)),
    }
}

pub open spec fn token_view_seq(ts: Seq<BusToken>) -> Seq<TokenView>
    decreases ts, ts.len(),
{
    if ts.len() == 0 {
        Seq::<TokenView>::empty()
    } else {
        seq![token_view(ts[0])] + token_view_seq(ts.drop_first())
    }
}

/// The views of a token list, position by position.
pub proof fn lemma_token_view_seq(ts: Seq<BusToken>)
    ensures
        token_view_seq(ts).len() == ts.len(),
        forall|i: int| 0 <= i < ts.len() ==> #[trigger] token_view_seq(ts)[i] == token_view(ts[i]),
    decreases ts.len(),
{
    if ts.len() > 0 {
        lemma_token_view_seq(ts.drop_first());
        assert(token_view_seq(ts) == seq![token_view(ts[0])] + token_view_seq(ts.drop_first()));
        assert forall|i: int| 0 <= i < ts.len() implies #[trigger] token_view_seq(ts)[i] == token_view(ts[i]) by {
            if i > 0 {
                assert(token_view_seq(ts.drop_first())[i - 1] == token_view(ts.drop_first()[i - 1]));
            }
        }
    }
}

/// A copy of a token.
pub fn copy_token(t: &BusToken) -> (r: BusToken)
    ensures
        token_view(r) == token_view(*t),
    decreases t,
{
    match t {
        BusToken::Ident(s) => BusToken::Ident(s.clone()),
        BusToken::Punct(c) => BusToken::Punct(*c),
        BusToken::Group(d, ts) => {
            let mut out: Vec<BusToken> = Vec::new();
            let mut i: usize = 0;
            while i < ts.len()
                invariant
                    *t == BusToken::Group(*d, *ts),
                    i <= ts.len(),
                    out.len() == i,
                    forall|k: int| 0 <= k < i ==> #[trigger] token_view(out@[k]) == token_view(ts@[k]),
                decreases ts.len() - i,
            {
                proof {
                    assert(decreases_to!(*t => t->Group_1));
                    assert(decreases_to!(*ts => ts@));
                    assert(decreases_to!(ts@ => ts@[i as int]));
                }
                let c = copy_token(&ts[i]);
                out.push(c);
                i = i + 1;
            }
            proof {
                lemma_token_view_seq(ts@);
                lemma_token_view_seq(out@);
                assert(token_view_seq(out@) =~= token_view_seq(ts@));
            }
            BusToken::Group(*d, out)
        },
    }
}

/// One event of a bus: its name and its fields with their types' tokens.
pub struct EventView {
    pub name: Seq<char>,
    pub fields: Seq<(Seq<char>, Seq<TokenView>)>,
}

/// One topic of a bus: its method name and the names of its event types.
pub struct TopicView {
    pub method_name: Seq<char>,
    pub event_types: Seq<Seq<char>>,
}

/// A whole bus definition.
pub struct BusDefView {
    pub bus_name: Seq<char>,
    pub events: Seq<EventView>,
    pub topics: Seq<TopicView>,
}

pub open spec fn msg_ident() -> Seq<char> {
    "expected identifier"@
}

pub open spec fn msg_bus() -> Seq<char> {
    "expected `bus`"@
}

pub open spec fn msg_item() -> Seq<char> {
    "expected `event` or `topic`"@
}

pub open spec fn msg_brace() -> Seq<char> {
    "expected curly braces"@
}

pub open spec fn msg_bracket() -> Seq<char> {
    "expected square brackets"@
}

pub open spec fn msg_colon() -> Seq<char> {
    "expected `:`"@
}

pub open spec fn msg_arrow() -> Seq<char> {
    "expected `=>`"@
}

pub open spec fn msg_type() -> Seq<char> {
    "expected a type"@
}

pub open spec fn msg_unexpected() -> Seq<char> {
    "unexpected token"@
}

pub open spec fn msg_angle() -> Seq<char> {
    "expected `>`"@
}

pub open spec fn is_ident(t: TokenView) -> bool {
    t is Ident
}

pub open spec fn ident_text(t: TokenView) -> Seq<char> {
    match t {
        TokenView::Ident(s) => s,
        _ => Seq::empty(),
    }
}

/// Words after which a type goes on: `&mut T`, `*const T`, `dyn T`,
/// `impl T`, `fn(..)`, `unsafe fn`, `extern fn`.
pub open spec fn is_prefix_word(t: TokenView) -> bool {
    ||| t == TokenView::Ident("mut"@)
    ||| t == TokenView::Ident("const"@)
    ||| t == TokenView::Ident("dyn"@)
    ||| t == TokenView::Ident("impl"@)
    ||| t == TokenView::Ident("fn"@)
    ||| t == TokenView::Ident("unsafe"@)
    ||| t == TokenView::Ident("extern"@)
}

/// Whether a type can be complete at the token at `j`, so that a name right
/// after it starts something new: a group, a name that is neither a prefix
/// word nor a lifetime's, or a `>` that is not an arrow's.
pub open spec fn closes_type(ts: Seq<TokenView>, j: int) -> bool {
    &&& 0 <= j < ts.len()
    &&& {
        ||| ts[j] is Group
        ||| (is_ident(ts[j]) && !is_prefix_word(ts[j]) && !(j > 0 && ts[j - 1] == TokenView::Punct('\'')))
        ||| (ts[j] == TokenView::Punct('>') && !(j > 0 && ts[j - 1] == TokenView::Punct('-')))
    }
}

/// Where a field type that starts at `start` ends, scanning from `k` with
/// `depth` of `<..>` open: at a `,` outside `<..>`, before a name that follows
/// a complete type (the next field, when its comma is left out), or at the
/// end. The `>` of an arrow `->` closes nothing.
pub open spec fn type_end(ts: Seq<TokenView>, start: int, k: int, depth: nat) -> int
    decreases ts.len() - k,
{
    if k < 0 || k >= ts.len() {
        ts.len() as int
    } else if ts[k] == TokenView::Punct(',') && depth == 0 {
        k
    } else if depth == 0 && k > start && is_ident(ts[k]) && closes_type(ts, k - 1) {
        k
    } else if ts[k] == TokenView::Punct('-') && k + 1 < ts.len() && ts[k + 1] == TokenView::Punct('>') {
        type_end(ts, start, k + 2, depth)
    } else if ts[k] == TokenView::Punct('<') {
        type_end(ts, start, k + 1, depth + 1)
    } else if ts[k] == TokenView::Punct('>') && depth > 0 {
        type_end(ts, start, k + 1, (depth - 1) as nat)
    } else {
        type_end(ts, start, k + 1, depth)
    }
}

pub proof fn lemma_type_end(ts: Seq<TokenView>, start: int, k: int, depth: nat)
    requires
        0 <= k <= ts.len(),
    ensures
        k <= type_end(ts, start, k, depth) <= ts.len(),
    decreases ts.len() - k,
{
    if k < ts.len() {
        if k + 1 < ts.len() {
            lemma_type_end(ts, start, k + 2, depth);
        }
        lemma_type_end(ts, start, k + 1, depth + 1);
        lemma_type_end(ts, start, k + 1, depth);
        if depth > 0 {
            lemma_type_end(ts, start, k + 1, (depth - 1) as nat);
        }
    }
}

/// The fields of an event's braces, from position `k` on, after `acc`.
pub open spec fn parse_fields(
    ts: Seq<TokenView>,
    k: int,
    acc: Seq<(Seq<char>, Seq<TokenView>)>,
) -> Result<Seq<(Seq<char>, Seq<TokenView>)>, Seq<char>>
    decreases ts.len() - k,
{
    if k < 0 || k >= ts.len() {
        Ok(acc)
    } else if !is_ident(ts[k]) {
        Err(msg_ident())
    } else if !(k + 1 < ts.len() && ts[k + 1] == TokenView::Punct(':')) {
        Err(msg_colon())
    } else {
        proof {
            lemma_type_end(ts, k + 2, k + 2, 0);
        }
        let e = type_end(ts, k + 2, k + 2, 0);
        if e <= k + 2 {
            Err(msg_type())
        } else {
            let next = if e < ts.len() && ts[e] == TokenView::Punct(',') { e + 1 } else { e };
            parse_fields(ts, next, acc.push((ident_text(ts[k]), ts.subrange(k + 2, e))))
        }
    }
}

/// Where the `<..>` opened before `k` closes, `depth` of them being open:
/// just after its closing `>`, or -1 when it never closes. The `>` of an
/// arrow `->` closes nothing.
pub open spec fn angle_close(ts: Seq<TokenView>, k: int, depth: nat) -> int
    decreases ts.len() - k,
{
    if k < 0 || k >= ts.len() {
        -1
    } else if ts[k] == TokenView::Punct('-') && k + 1 < ts.len() && ts[k + 1] == TokenView::Punct('>') {
        angle_close(ts, k + 2, depth)
    } else if ts[k] == TokenView::Punct('<') {
        angle_close(ts, k + 1, depth + 1)
    } else if ts[k] == TokenView::Punct('>') {
        if depth <= 1 {
            k + 1
        } else {
            angle_close(ts, k + 1, (depth - 1) as nat)
        }
    } else {
        angle_close(ts, k + 1, depth)
    }
}

pub proof fn lemma_angle_close(ts: Seq<TokenView>, k: int, depth: nat)
    requires
        0 <= k <= ts.len(),
    ensures
        angle_close(ts, k, depth) == -1 || k < angle_close(ts, k, depth) <= ts.len(),
    decreases ts.len() - k,
{
    if k < ts.len() {
        if k + 1 < ts.len() {
            lemma_angle_close(ts, k + 2, depth);
        }
        lemma_angle_close(ts, k + 1, depth + 1);
        lemma_angle_close(ts, k + 1, depth);
        if depth > 1 {
            lemma_angle_close(ts, k + 1, (depth - 1) as nat);
        }
    }
}

/// A path read on from `k`, just after a segment's name at `last`: generic
/// arguments `<..>` (also `::<..>`) and further `::name` segments. Gives
/// where the path ends and where its last name stands, or nothing when a
/// `<..>` is never closed.
pub open spec fn path_scan(ts: Seq<TokenView>, k: int, last: int) -> Option<(int, int)>
    decreases ts.len() - k,
{
    if k < 0 || k >= ts.len() {
        Some((ts.len() as int, last))
    } else if ts[k] == TokenView::Punct('<') {
        proof {
            lemma_angle_close(ts, k + 1, 1);
        }
        let c = angle_close(ts, k + 1, 1);
        if c < 0 {
            None
        } else {
            path_scan(ts, c, last)
        }
    } else if k + 2 < ts.len() && ts[k] == TokenView::Punct(':') && ts[k + 1] == TokenView::Punct(':') && is_ident(ts[k + 2]) {
        path_scan(ts, k + 3, k + 2)
    } else if k + 2 < ts.len() && ts[k] == TokenView::Punct(':') && ts[k + 1] == TokenView::Punct(':') && ts[k + 2]
        == TokenView::Punct('<') {
        proof {
            lemma_angle_close(ts, k + 3, 1);
        }
        let c = angle_close(ts, k + 3, 1);
        if c < 0 {
            None
        } else {
            path_scan(ts, c, last)
        }
    } else {
        Some((k, last))
    }
}

pub proof fn lemma_path_scan(ts: Seq<TokenView>, k: int, last: int)
    requires
        0 <= last < k <= ts.len(),
        is_ident(ts[last]),
    ensures
        path_scan(ts, k, last) matches Some((j, l)) ==> k <= j <= ts.len() && 0 <= l < j && is_ident(ts[l]),
    decreases ts.len() - k,
{
    if k < ts.len() {
        if ts[k] == TokenView::Punct('<') {
            lemma_angle_close(ts, k + 1, 1);
            let c = angle_close(ts, k + 1, 1);
            if c >= 0 {
                lemma_path_scan(ts, c, last);
            }
        } else if k + 2 < ts.len() && ts[k] == TokenView::Punct(':') && ts[k + 1] == TokenView::Punct(':') && is_ident(ts[k + 2]) {
            lemma_path_scan(ts, k + 3, k + 2);
        } else if k + 2 < ts.len() && ts[k] == TokenView::Punct(':') && ts[k + 1] == TokenView::Punct(':') && ts[k + 2]
            == TokenView::Punct('<') {
            lemma_angle_close(ts, k + 3, 1);
            let c = angle_close(ts, k + 3, 1);
            if c >= 0 {
                lemma_path_scan(ts, c, last);
            }
        }
    }
}

/// Where a path starting at `k` has its first name: after a leading `::`.
pub open spec fn path_start(ts: Seq<TokenView>, k: int) -> int {
    if k + 1 < ts.len() && ts[k] == TokenView::Punct(':') && ts[k + 1] == TokenView::Punct(':') {
        k + 2
    } else {
        k
    }
}

/// The event type names of a topic's brackets, from position `k` on, after
/// `acc`: each a path, of which the last name counts.
pub open spec fn parse_types(ts: Seq<TokenView>, k: int, acc: Seq<Seq<char>>) -> Result<Seq<Seq<char>>, Seq<char>>
    decreases ts.len() - k,
{
    if k < 0 || k >= ts.len() {
        Ok(acc)
    } else {
        let p = path_start(ts, k);
        if !(p < ts.len() && is_ident(ts[p])) {
            Err(msg_ident())
        } else {
            proof {
                lemma_path_scan(ts, p + 1, p);
            }
            match path_scan(ts, p + 1, p) {
                None => Err(msg_angle()),
                Some((j, last)) => {
                    let next = if j < ts.len() && ts[j] == TokenView::Punct(',') { j + 1 } else { j };
                    parse_types(ts, next, acc.push(ident_text(ts[last])))
                },
            }
        }
    }
}

/// The items of a bus's braces, from position `k` on, after those found.
pub open spec fn parse_items(
    ts: Seq<TokenView>,
    k: int,
    events: Seq<EventView>,
    topics: Seq<TopicView>,
) -> Result<(Seq<EventView>, Seq<TopicView>), Seq<char>>
    decreases ts.len() - k,
{
    if k < 0 || k >= ts.len() {
        Ok((events, topics))
    } else if ts[k] == TokenView::Ident("event"@) {
        if !(k + 1 < ts.len() && is_ident(ts[k + 1])) {
            Err(msg_ident())
        } else if !(k + 2 < ts.len() && ts[k + 2] matches TokenView::Group(Delimiter::Brace, _)) {
            Err(msg_brace())
        } else {
            match ts[k + 2] {
                TokenView::Group(_, inner) => match parse_fields(inner, 0, Seq::empty()) {
                    Ok(fs) => parse_items(
                        ts,
                        k + 3,
                        events.push(EventView { name: ident_text(ts[k + 1]), fields: fs }),
                        topics,
                    ),
                    Err(e) => Err(e),
                },
                _ => Err(msg_brace()),
            }
        }
    } else if ts[k] == TokenView::Ident("topic"@) {
        if !(k + 1 < ts.len() && is_ident(ts[k + 1])) {
            Err(msg_ident())
        } else if !(k + 3 < ts.len() && ts[k + 2] == TokenView::Punct('=') && ts[k + 3] == TokenView::Punct('>')) {
            Err(msg_arrow())
        } else if !(k + 4 < ts.len() && ts[k + 4] matches TokenView::Group(Delimiter::Bracket, _)) {
            Err(msg_bracket())
        } else {
            match ts[k + 4] {
                TokenView::Group(_, inner) => match parse_types(inner, 0, Seq::empty()) {
                    Ok(names) => parse_items(
                        ts,
                        k + 5,
                        events,
                        topics.push(TopicView { method_name: ident_text(ts[k + 1]), event_types: names }),
                    ),
                    Err(e) => Err(e),
                },
                _ => Err(msg_bracket()),
            }
        }
    } else {
        Err(msg_item())
    }
}

/// The meaning of the `event_bus!` input: the bus, its events and topics in
/// the order written, or the first error.
pub open spec fn bus_parse(ts: Seq<TokenView>) -> Result<BusDefView, Seq<char>> {
    if ts.len() == 0 || !is_ident(ts[0]) {
        Err(msg_ident())
    } else if ts[0] != TokenView::Ident("bus"@) {
        Err(msg_bus())
    } else if !(ts.len() > 1 && is_ident(ts[1])) {
        Err(msg_ident())
    } else if !(ts.len() > 2 && ts[2] matches TokenView::Group(Delimiter::Brace, _)) {
        Err(msg_brace())
    } else {
        match ts[2] {
            TokenView::Group(_, body) => match parse_items(body, 0, Seq::empty(), Seq::empty()) {
                Ok(parts) => if ts.len() > 3 {
                    Err(msg_unexpected())
                } else {
                    Ok(BusDefView { bus_name: ident_text(ts[1]), events: parts.0, topics: parts.1 })
                },
                Err(e) => Err(e),
            },
            _ => Err(msg_brace()),
        }
    }
}

/// A parsed event.
#[derive(Debug)]
pub struct EventDecl {
    pub name: String,
    /// Each field's name and its type's tokens.
    pub fields: Vec<(String, Vec<BusToken>)>,
}

/// A parsed topic.
#[derive(Debug)]
pub struct TopicDecl {
    pub method_name: String,
    pub event_types: Vec<String>,
}

/// A parsed bus definition.
#[derive(Debug)]
pub struct EventBusDef {
    pub bus_name: String,
    pub events: Vec<EventDecl>,
    pub topics: Vec<TopicDecl>,
}

pub open spec fn field_view(f: (String, Vec<BusToken>)) -> (Seq<char>, Seq<TokenView>) {
    (f.0@, token_view_seq(f.1@))
}

pub open spec fn fields_view(fs: Seq<(String, Vec<BusToken>)>) -> Seq<(Seq<char>, Seq<TokenView>)> {
    fs.map_values(|f: (String, Vec<BusToken>)| field_view(f))
}

pub open spec fn event_decl_view(e: EventDecl) -> EventView {
    EventView { name: e.name@, fields: fields_view(e.fields@) }
}

pub open spec fn events_view(es: Seq<EventDecl>) -> Seq<EventView> {
    es.map_values(|e: EventDecl| event_decl_view(e))
}

pub open spec fn names_of(ns: Seq<String>) -> Seq<Seq<char>> {
    ns.map_values(|n: String| n@)
}

pub open spec fn topic_decl_view(t: TopicDecl) -> TopicView {
    TopicView { method_name: t.method_name@, event_types: names_of(t.event_types@) }
}

pub open spec fn topics_view(ts: Seq<TopicDecl>) -> Seq<TopicView> {
    ts.map_values(|t: TopicDecl| topic_decl_view(t))
}

pub open spec fn bus_def_view(d: EventBusDef) -> BusDefView {
    BusDefView { bus_name: d.bus_name@, events: events_view(d.events@), topics: topics_view(d.topics@) }
}

pub open spec fn bus_result_view(r: Result<EventBusDef, String>) -> Result<BusDefView, Seq<char>> {
    match r {
        Ok(d) => Ok(bus_def_view(d)),
        Err(e) => Err(e@),
    }
}

fn is_punct(t: &BusToken, c: char) -> (r: bool)
    ensures
        r == (token_view(*t) == TokenView::Punct(c)),
{
    match t {
        BusToken::Punct(p) => *p == c,
        _ => false,
    }
}

fn ident_is(t: &BusToken, word: &str) -> (r: bool)
    ensures
        r == (token_view(*t) == TokenView::Ident(word@)),
{
    match t {
        BusToken::Ident(s) => str_equal(s.as_str(), word),
        _ => false,
    }
}

fn is_ident_token(t: &BusToken) -> (r: bool)
    ensures
        r == is_ident(token_view(*t)),
{
    match t {
        BusToken::Ident(_) => true,
        _ => false,
    }
}

fn ident_string(t: &BusToken) -> (r: String)
    ensures
        r@ == ident_text(token_view(*t)),
{
    match t {
        BusToken::Ident(s) => s.clone(),
        _ => String::new(),
    }
}

fn is_prefix_word_exec(t: &BusToken) -> (r: bool)
    ensures
        r == is_prefix_word(token_view(*t)),
{
    ident_is(t, "mut") || ident_is(t, "const") || ident_is(t, "dyn") || ident_is(t, "impl") || ident_is(t, "fn")
        || ident_is(t, "unsafe") || ident_is(t, "extern")
}

fn closes_type_exec(ts: &Vec<BusToken>, j: usize) -> (r: bool)
    requires
        j < ts@.len(),
    ensures
        r == closes_type(token_view_seq(ts@), j as int),
{
    let ghost tv = token_view_seq(ts@);
    proof {
        lemma_token_view_seq(ts@);
        assert(tv[j as int] == token_view(ts@[j as int]));
        if j > 0 {
            assert(tv[j - 1] == token_view(ts@[j - 1]));
        }
    }
    match &ts[j] {
        BusToken::Group(_, _) => true,
        BusToken::Ident(_) => !is_prefix_word_exec(&ts[j]) && !(j > 0 && is_punct(&ts[j - 1], '\'')),
        BusToken::Punct(c) => *c == '>' && !(j > 0 && is_punct(&ts[j - 1], '-')),
    }
}

fn type_end_exec(ts: &Vec<BusToken>, start: usize) -> (r: usize)
    requires
        start <= ts@.len(),
    ensures
        r == type_end(token_view_seq(ts@), start as int, start as int, 0),
        start <= r <= ts@.len(),
{
    let ghost tv = token_view_seq(ts@);
    proof {
        lemma_token_view_seq(ts@);
        lemma_type_end(tv, start as int, start as int, 0);
    }
    let mut j: usize = start;
    let mut depth: usize = 0;
    while j < ts.len()
        invariant
            start <= j <= ts@.len(),
            tv == token_view_seq(ts@),
            tv.len() == ts@.len(),
            forall|i: int| 0 <= i < ts@.len() ==> #[trigger] tv[i] == token_view(ts@[i]),
            depth <= j,
            type_end(tv, start as int, start as int, 0) == type_end(tv, start as int, j as int, depth as nat),
        decreases ts@.len() - j,
    {
        assert(tv[j as int] == token_view(ts@[j as int]));
        if is_punct(&ts[j], ',') && depth == 0 {
            return j;
        }
        if depth == 0 && j > start && is_ident_token(&ts[j]) && closes_type_exec(ts, j - 1) {
            return j;
        }
        if is_punct(&ts[j], '-') && ts.len() - j > 1 && is_punct(&ts[j + 1], '>') {
            assert(tv[j + 1] == token_view(ts@[j + 1]));
            j = j + 2;
        } else {
            proof {
                if j + 1 < ts@.len() {
                    assert(tv[j + 1] == token_view(ts@[j + 1]));
                }
            }
            if is_punct(&ts[j], '<') {
                depth = depth + 1;
            } else if is_punct(&ts[j], '>') && depth > 0 {
                depth = depth - 1;
            }
            j = j + 1;
        }
    }
    j
}

fn copy_tokens(ts: &Vec<BusToken>, from: usize, to: usize) -> (r: Vec<BusToken>)
    requires
        from <= to <= ts@.len(),
    ensures
        token_view_seq(r@) == token_view_seq(ts@).subrange(from as int, to as int),
{
    let mut out: Vec<BusToken> = Vec::new();
    let mut i: usize = from;
    while i < to
        invariant
            from <= i <= to <= ts@.len(),
            out@.len() == i - from,
            forall|k: int| 0 <= k < out@.len() ==> #[trigger] token_view(out@[k]) == token_view(ts@[from + k]),
        decreases to - i,
    {
        out.push(copy_token(&ts[i]));
        i = i + 1;
    }
    proof {
        lemma_token_view_seq(ts@);
        lemma_token_view_seq(out@);
        assert(token_view_seq(out@) =~= token_view_seq(ts@).subrange(from as int, to as int));
    }
    out
}

fn parse_fields_exec(ts: &Vec<BusToken>) -> (r: Result<Vec<(String, Vec<BusToken>)>, String>)
    ensures
        match r {
            Ok(fs) => parse_fields(token_view_seq(ts@), 0, Seq::empty()) == Ok::<
                Seq<(Seq<char>, Seq<TokenView>)>,
                Seq<char>,
            >(fields_view(fs@)),
            Err(e) => parse_fields(token_view_seq(ts@), 0, Seq::empty()) == Err::<
                Seq<(Seq<char>, Seq<TokenView>)>,
                Seq<char>,
            >(e@),
        },
{
    let ghost tv = token_view_seq(ts@);
    proof {
        lemma_token_view_seq(ts@);
    }
    let mut acc: Vec<(String, Vec<BusToken>)> = Vec::new();
    let mut k: usize = 0;
    assert(fields_view(acc@) =~= Seq::<(Seq<char>, Seq<TokenView>)>::empty());
    while k < ts.len()
        invariant
            k <= ts@.len(),
            tv == token_view_seq(ts@),
            tv.len() == ts@.len(),
            forall|i: int| 0 <= i < ts@.len() ==> #[trigger] tv[i] == token_view(ts@[i]),
            parse_fields(tv, 0, Seq::empty()) == parse_fields(tv, k as int, fields_view(acc@)),
        decreases ts@.len() - k,
    {
        assert(tv[k as int] == token_view(ts@[k as int]));
        if !is_ident_token(&ts[k]) {
            return Err(String::from_str("expected identifier"));
        }
        if !(k + 1 < ts.len() && is_punct(&ts[k + 1], ':')) {
            proof {
                if k + 1 < ts@.len() {
                    assert(tv[k + 1] == token_view(ts@[k + 1]));
                }
            }
            return Err(String::from_str("expected `:`"));
        }
        assert(tv[k + 1] == token_view(ts@[k + 1]));
        let e = type_end_exec(ts, k + 2);
        if e <= k + 2 {
            return Err(String::from_str("expected a type"));
        }
        let name = ident_string(&ts[k]);
        let ty = copy_tokens(ts, k + 2, e);
        let ghost before = acc@;
        acc.push((name, ty));
        assert(fields_view(acc@) =~= fields_view(before).push((ident_text(tv[k as int]), tv.subrange(k + 2, e as int))));
        k = if e < ts.len() && is_punct(&ts[e], ',') { e + 1 } else { e };
    }
    Ok(acc)
}

fn angle_close_exec(ts: &Vec<BusToken>, k: usize) -> (r: Option<usize>)
    requires
        1 <= k <= ts@.len(),
    ensures
        match r {
            Some(c) => angle_close(token_view_seq(ts@), k as int, 1) == c,
            None => angle_close(token_view_seq(ts@), k as int, 1) == -1,
        },
{
    let ghost tv = token_view_seq(ts@);
    proof {
        lemma_token_view_seq(ts@);
    }
    let mut j: usize = k;
    let mut depth: usize = 1;
    while j < ts.len()
        invariant
            k <= j <= ts@.len(),
            tv == token_view_seq(ts@),
            tv.len() == ts@.len(),
            forall|i: int| 0 <= i < ts@.len() ==> #[trigger] tv[i] == token_view(ts@[i]),
            1 <= k,
            1 <= depth <= j - k + 1,
            angle_close(tv, k as int, 1) == angle_close(tv, j as int, depth as nat),
        decreases ts@.len() - j,
    {
        assert(tv[j as int] == token_view(ts@[j as int]));
        if is_punct(&ts[j], '-') && ts.len() - j > 1 && is_punct(&ts[j + 1], '>') {
            assert(tv[j + 1] == token_view(ts@[j + 1]));
            j = j + 2;
        } else {
            proof {
                if j + 1 < ts@.len() {
                    assert(tv[j + 1] == token_view(ts@[j + 1]));
                }
            }
            if is_punct(&ts[j], '<') {
                depth = depth + 1;
            } else if is_punct(&ts[j], '>') {
                if depth <= 1 {
                    return Some(j + 1);
                }
                depth = depth - 1;
            }
            j = j + 1;
        }
    }
    None
}

fn path_scan_exec(ts: &Vec<BusToken>, k: usize, last: usize) -> (r: Option<(usize, usize)>)
    requires
        last < k <= ts@.len(),
        is_ident(token_view_seq(ts@)[last as int]),
    ensures
        match r {
            Some((j, l)) => path_scan(token_view_seq(ts@), k as int, last as int) == Some((j as int, l as int)),
            None => path_scan(token_view_seq(ts@), k as int, last as int) is None,
        },
{
    let ghost tv = token_view_seq(ts@);
    proof {
        lemma_token_view_seq(ts@);
    }
    let mut j: usize = k;
    let mut l: usize = last;
    while j < ts.len()
        invariant
            l < j <= ts@.len(),
            tv == token_view_seq(ts@),
            tv.len() == ts@.len(),
            forall|i: int| 0 <= i < ts@.len() ==> #[trigger] tv[i] == token_view(ts@[i]),
            is_ident(tv[l as int]),
            path_scan(tv, k as int, last as int) == path_scan(tv, j as int, l as int),
        decreases ts@.len() - j,
    {
        assert(tv[j as int] == token_view(ts@[j as int]));
        proof {
            if j + 2 < ts@.len() {
                assert(tv[j + 1] == token_view(ts@[j + 1]));
                assert(tv[j + 2] == token_view(ts@[j + 2]));
            }
        }
        if is_punct(&ts[j], '<') {
            proof {
                lemma_angle_close(tv, j + 1, 1);
            }
            match angle_close_exec(ts, j + 1) {
                None => {
                    return None;
                },
                Some(c) => {
                    j = c;
                },
            }
        } else if ts.len() - j > 2 && is_punct(&ts[j], ':') && is_punct(&ts[j + 1], ':') && is_ident_token(&ts[j + 2]) {
            l = j + 2;
            j = j + 3;
        } else if ts.len() - j > 2 && is_punct(&ts[j], ':') && is_punct(&ts[j + 1], ':') && is_punct(&ts[j + 2], '<') {
            proof {
                lemma_angle_close(tv, j + 3, 1);
            }
            match angle_close_exec(ts, j + 3) {
                None => {
                    return None;
                },
                Some(c) => {
                    j = c;
                },
            }
        } else {
            return Some((j, l));
        }
    }
    Some((j, l))
}

fn parse_types_exec(ts: &Vec<BusToken>) -> (r: Result<Vec<String>, String>)
    ensures
        match r {
            Ok(ns) => parse_types(token_view_seq(ts@), 0, Seq::empty()) == Ok::<Seq<Seq<char>>, Seq<char>>(names_of(ns@)),
            Err(e) => parse_types(token_view_seq(ts@), 0, Seq::empty()) == Err::<Seq<Seq<char>>, Seq<char>>(e@),
        },
{
    let ghost tv = token_view_seq(ts@);
    proof {
        lemma_token_view_seq(ts@);
    }
    let mut acc: Vec<String> = Vec::new();
    let mut k: usize = 0;
    assert(names_of(acc@) =~= Seq::<Seq<char>>::empty());
    while k < ts.len()
        invariant
            k <= ts@.len(),
            tv == token_view_seq(ts@),
            tv.len() == ts@.len(),
            forall|i: int| 0 <= i < ts@.len() ==> #[trigger] tv[i] == token_view(ts@[i]),
            parse_types(tv, 0, Seq::empty()) == parse_types(tv, k as int, names_of(acc@)),
        decreases ts@.len() - k,
    {
        assert(tv[k as int] == token_view(ts@[k as int]));
        proof {
            if k + 1 < ts@.len() {
                assert(tv[k + 1] == token_view(ts@[k + 1]));
            }
        }
        let p = if ts.len() - k > 1 && is_punct(&ts[k], ':') && is_punct(&ts[k + 1], ':') {
            k + 2
        } else {
            k
        };
        assert(p as int == path_start(tv, k as int));
        if !(p < ts.len() && is_ident_token(&ts[p])) {
            proof {
                if p < ts@.len() {
                    assert(tv[p as int] == token_view(ts@[p as int]));
                }
            }
            return Err(String::from_str("expected identifier"));
        }
        assert(tv[p as int] == token_view(ts@[p as int]));
        proof {
            lemma_path_scan(tv, p + 1, p as int);
        }
        match path_scan_exec(ts, p + 1, p) {
            None => {
                return Err(String::from_str("expected `>`"));
            },
            Some((j, last)) => {
                assert(tv[last as int] == token_view(ts@[last as int]));
                let name = ident_string(&ts[last]);
                let next = if j < ts.len() && is_punct(&ts[j], ',') {
                    j + 1
                } else {
                    j
                };
                proof {
                    if j < ts@.len() {
                        assert(tv[j as int] == token_view(ts@[j as int]));
                    }
                }
                let ghost before = acc@;
                acc.push(name);
                assert(names_of(acc@) =~= names_of(before).push(ident_text(tv[last as int])));
                k = next;
            },
        }
    }
    Ok(acc)
}

/// Parses the `event_bus!` input.
pub fn parse_event_bus(tokens: &Vec<BusToken>) -> (r: Result<EventBusDef, String>)
    ensures
        bus_result_view(r) == bus_parse(token_view_seq(tokens@)),
{
    let ghost tv = token_view_seq(tokens@);
    proof {
        lemma_token_view_seq(tokens@);
    }
    if tokens.len() == 0 || !is_ident_token(&tokens[0]) {
        proof {
            if tokens@.len() > 0 {
                assert(tv[0] == token_view(tokens@[0]));
            }
        }
        return Err(String::from_str("expected identifier"));
    }
    assert(tv[0] == token_view(tokens@[0]));
    if !ident_is(&tokens[0], "bus") {
        return Err(String::from_str("expected `bus`"));
    }
    if !(tokens.len() > 1 && is_ident_token(&tokens[1])) {
        proof {
            if tokens@.len() > 1 {
                assert(tv[1] == token_view(tokens@[1]));
            }
        }
        return Err(String::from_str("expected identifier"));
    }
    assert(tv[1] == token_view(tokens@[1]));
    if tokens.len() <= 2 {
        return Err(String::from_str("expected curly braces"));
    }
    assert(tv[2] == token_view(tokens@[2]));
    match &tokens[2] {
        BusToken::Group(Delimiter::Brace, body) => {
            let bus_name = ident_string(&tokens[1]);
            match parse_items_exec(body) {
                Ok((events, topics)) => {
                    if tokens.len() > 3 {
                        return Err(String::from_str("unexpected token"));
                    }
                    Ok(EventBusDef { bus_name, events, topics })
                },
                Err(e) => Err(e),
            }
        },
        _ => Err(String::from_str("expected curly braces")),
    }
}

fn parse_items_exec(ts: &Vec<BusToken>) -> (r: Result<(Vec<EventDecl>, Vec<TopicDecl>), String>)
    ensures
        match r {
            Ok(parts) => parse_items(token_view_seq(ts@), 0, Seq::empty(), Seq::empty()) == Ok::<
                (Seq<EventView>, Seq<TopicView>),
                Seq<char>,
            >((events_view(parts.0@), topics_view(parts.1@))),
            Err(e) => parse_items(token_view_seq(ts@), 0, Seq::empty(), Seq::empty()) == Err::<
                (Seq<EventView>, Seq<TopicView>),
                Seq<char>,
            >(e@),
        },
{
    let ghost tv = token_view_seq(ts@);
    proof {
        lemma_token_view_seq(ts@);
    }
    let mut events: Vec<EventDecl> = Vec::new();
    let mut topics: Vec<TopicDecl> = Vec::new();
    let mut k: usize = 0;
    assert(events_view(events@) =~= Seq::<EventView>::empty());
    assert(topics_view(topics@) =~= Seq::<TopicView>::empty());
    while k < ts.len()
        invariant
            k <= ts@.len(),
            tv == token_view_seq(ts@),
            tv.len() == ts@.len(),
            forall|i: int| 0 <= i < ts@.len() ==> #[trigger] tv[i] == token_view(ts@[i]),
            parse_items(tv, 0, Seq::empty(), Seq::empty()) == parse_items(
                tv,
                k as int,
                events_view(events@),
                topics_view(topics@),
            ),
        decreases ts@.len() - k,
    {
        assert(tv[k as int] == token_view(ts@[k as int]));
        if ident_is(&ts[k], "event") {
            if !(k + 1 < ts.len() && is_ident_token(&ts[k + 1])) {
                proof {
                    if k + 1 < ts@.len() {
                        assert(tv[k + 1] == token_view(ts@[k + 1]));
                    }
                }
                return Err(String::from_str("expected identifier"));
            }
            assert(tv[k + 1] == token_view(ts@[k + 1]));
            if k + 2 >= ts.len() {
                return Err(String::from_str("expected curly braces"));
            }
            assert(tv[k + 2] == token_view(ts@[k + 2]));
            match &ts[k + 2] {
                BusToken::Group(Delimiter::Brace, inner) => {
                    match parse_fields_exec(inner) {
                        Ok(fields) => {
                            let name = ident_string(&ts[k + 1]);
                            let ghost before = events@;
                            let decl = EventDecl { name, fields };
                            assert(event_decl_view(decl) == EventView {
                                name: ident_text(tv[k + 1]),
                                fields: fields_view(decl.fields@),
                            });
                            events.push(decl);
                            assert(events_view(events@) =~= events_view(before).push(event_decl_view(decl)));
                            k = k + 3;
                        },
                        Err(e) => {
                            return Err(e);
                        },
                    }
                },
                _ => {
                    return Err(String::from_str("expected curly braces"));
                },
            }
        } else if ident_is(&ts[k], "topic") {
            if !(k + 1 < ts.len() && is_ident_token(&ts[k + 1])) {
                proof {
                    if k + 1 < ts@.len() {
                        assert(tv[k + 1] == token_view(ts@[k + 1]));
                    }
                }
                return Err(String::from_str("expected identifier"));
            }
            assert(tv[k + 1] == token_view(ts@[k + 1]));
            if !(ts.len() - k > 3 && is_punct(&ts[k + 2], '=') && is_punct(&ts[k + 3], '>')) {
                proof {
                    if k + 3 < ts@.len() {
                        assert(tv[k + 2] == token_view(ts@[k + 2]));
                        assert(tv[k + 3] == token_view(ts@[k + 3]));
                    }
                }
                return Err(String::from_str("expected `=>`"));
            }
            assert(tv[k + 2] == token_view(ts@[k + 2]));
            assert(tv[k + 3] == token_view(ts@[k + 3]));
            if k + 4 >= ts.len() {
                return Err(String::from_str("expected square brackets"));
            }
            assert(tv[k + 4] == token_view(ts@[k + 4]));
            match &ts[k + 4] {
                BusToken::Group(Delimiter::Bracket, inner) => {
                    match parse_types_exec(inner) {
                        Ok(names) => {
                            let method_name = ident_string(&ts[k + 1]);
                            let ghost before = topics@;
                            let decl = TopicDecl { method_name, event_types: names };
                            topics.push(decl);
                            assert(topics_view(topics@) =~= topics_view(before).push(topic_decl_view(decl)));
                            k = k + 5;
                        },
                        Err(e) => {
                            return Err(e);
                        },
                    }
                },
                _ => {
                    return Err(String::from_str("expected square brackets"));
                },
            }
        } else {
            return Err(String::from_str("expected `event` or `topic`"));
        }
    }
    Ok((events, topics))
}


/// The `<` and `>` of `s` pair up, with `depth` of them open before it: no
/// `>` closes more than is open and all are closed at the end. The `>` of an
/// arrow `->` is neither.
pub open spec fn angles_balanced(s: Seq<TokenView>, depth: nat) -> bool
    decreases s.len(),
{
    if s.len() == 0 {
        depth == 0
    } else if s[0] == TokenView::Punct('-') && s.len() > 1 && s[1] == TokenView::Punct('>') {
        angles_balanced(s.skip(2), depth)
    } else if s[0] == TokenView::Punct('<') {
        angles_balanced(s.drop_first(), depth + 1)
    } else if s[0] == TokenView::Punct('>') {
        depth > 0 && angles_balanced(s.drop_first(), (depth - 1) as nat)
    } else {
        angles_balanced(s.drop_first(), depth)
    }
}

proof fn lemma_scan_balanced(ts: Seq<TokenView>, base: int, args: Seq<TokenView>, i: int, d: nat)
    requires
        3 <= base,
        0 <= i <= args.len(),
        base + args.len() < ts.len(),
        forall|j: int| 0 <= j < args.len() ==> ts[base + j] == #[trigger] args[j],
        ts[base + args.len()] == TokenView::Punct('>'),
        args.len() == 0 || args.last() != TokenView::Punct('-'),
        angles_balanced(args.skip(i), d),
    ensures
        type_end(ts, 2, base + i, d + 1) == type_end(ts, 2, base + args.len(), 1),
    decreases args.len() - i,
{
    if i < args.len() {
        let s = args.skip(i);
        let k = base + i;
        assert(s[0] == args[i]);
        assert(ts[k] == args[i]);
        if i + 1 < args.len() {
            assert(s[1] == args[i + 1]);
            assert(ts[k + 1] == args[i + 1]);
        } else {
            assert(ts[k + 1] == TokenView::Punct('>'));
        }
        if s[0] == TokenView::Punct('-') && s.len() > 1 && s[1] == TokenView::Punct('>') {
            assert(s.skip(2) =~= args.skip(i + 2));
            lemma_scan_balanced(ts, base, args, i + 2, d);
        } else if s[0] == TokenView::Punct('<') {
            assert(s.drop_first() =~= args.skip(i + 1));
            lemma_scan_balanced(ts, base, args, i + 1, d + 1);
        } else if s[0] == TokenView::Punct('>') {
            assert(s.drop_first() =~= args.skip(i + 1));
            lemma_scan_balanced(ts, base, args, i + 1, (d - 1) as nat);
        } else {
            assert(s.drop_first() =~= args.skip(i + 1));
            if s[0] == TokenView::Punct('-') {
                assert(i + 1 < args.len());
            }
            lemma_scan_balanced(ts, base, args, i + 1, d);
        }
    } else {
        assert(args.skip(i).len() == 0);
    }
}

/// A generic field type `N<A>` whose arguments pair their angle brackets is
/// read whole, with the commas and names inside it: `f: N<A>`, with or
/// without a comma after it, gives the one field `f` of exactly those tokens.
pub proof fn law_generic_field_read_whole(f: Seq<char>, n: Seq<char>, args: Seq<TokenView>, comma: bool)
    requires
        angles_balanced(args, 0),
        args.len() == 0 || args.last() != TokenView::Punct('-'),
    ensures
        ({
            let ty = seq![TokenView::Ident(n), TokenView::Punct('<')] + args + seq![TokenView::Punct('>')];
            let tail = if comma { seq![TokenView::Punct(',')] } else { Seq::<TokenView>::empty() };
            let ts = seq![TokenView::Ident(f), TokenView::Punct(':')] + ty + tail;
            parse_fields(ts, 0, Seq::empty()) == Ok::<Seq<(Seq<char>, Seq<TokenView>)>, Seq<char>>(seq![(f, ty)])
        }),
{
    let ty = seq![TokenView::Ident(n), TokenView::Punct('<')] + args + seq![TokenView::Punct('>')];
    let tail = if comma { seq![TokenView::Punct(',')] } else { Seq::<TokenView>::empty() };
    let ts = seq![TokenView::Ident(f), TokenView::Punct(':')] + ty + tail;
    let m = args.len() as int;
    assert(ts[0] == TokenView::Ident(f));
    assert(ts[1] == TokenView::Punct(':'));
    assert(ts[2] == TokenView::Ident(n));
    assert(ts[3] == TokenView::Punct('<'));
    assert(ts[4 + m] == TokenView::Punct('>'));
    assert forall|j: int| 0 <= j < args.len() implies ts[4 + j] == #[trigger] args[j] by {
        assert(ts[4 + j] == ty[2 + j]);
    }
    assert(args.skip(0) =~= args);
    lemma_scan_balanced(ts, 4, args, 0, 0);
    let e = 5 + m;
    if comma {
        assert(ts[e] == TokenView::Punct(','));
        assert(type_end(ts, 2, e, 0) == e);
    } else {
        assert(ts.len() == e);
    }
    assert(type_end(ts, 2, 4 + m, 1) == type_end(ts, 2, e, 0));
    assert(type_end(ts, 2, 3, 0) == type_end(ts, 2, 4, 1));
    assert(type_end(ts, 2, 2, 0) == type_end(ts, 2, 3, 0));
    assert(type_end(ts, 2, 2, 0) == e);
    assert(ts.subrange(2, e) =~= ty);
    let acc = Seq::<(Seq<char>, Seq<TokenView>)>::empty().push((ident_text(ts[0]), ts.subrange(2, e)));
    assert(acc =~= seq![(f, ty)]);
    assert(parse_fields(ts, ts.len() as int, acc) == Ok::<Seq<(Seq<char>, Seq<TokenView>)>, Seq<char>>(acc));
}
} // verus!
