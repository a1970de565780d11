//! Topic pattern matching for event routing.
//!
//! Names and patterns are dot-separated segment lists. In a pattern, the
//! segment `*` matches exactly one segment and `**` matches any number of
//! segments (including none); every other segment matches only itself.
use vstd::prelude::*;

verus! {

/// The segment `*`.
pub open spec fn star() -> Seq<char> {
    seq!['*']
}

/// The segment `**`.
pub open spec fn double_star() -> Seq<char> {
    seq!['*', '*']
}

/// Splitting a string at every `.`, as `str::split('.')` does: a string with
/// `k` dots has `k + 1` segments, some of which may be empty.
pub open spec fn split_dots(s: Seq<char>) -> Seq<Seq<char>>
    decreases s.len(),
{
    if s.len() == 0 {
        seq![Seq::<char>::empty()]
    } else {
        let prev = split_dots(s.drop_last());
        if s.last() == '.' {
            prev.push(Seq::<char>::empty())
        } else {
            prev.update(prev.len() - 1, prev.last().push(s.last()))
        }
    }
}

/// Glob matching of pattern segments against topic segments.
pub open spec fn glob(p: Seq<Seq<char>>, t: Seq<Seq<char>>) -> bool
    decreases p.len(), t.len(),
{
    if p.len() == 0 {
        t.len() == 0
    } else if p[0] == double_star() {
        p.len() == 1 || glob(p.drop_first(), t) || (t.len() > 0 && glob(p, t.drop_first()))
    } else if t.len() == 0 {
        false
    } else if p[0] == star() {
        glob(p.drop_first(), t.drop_first())
    } else {
        p[0] == t[0] && glob(p.drop_first(), t.drop_first())
    }
}

/// Whether `pattern` matches the concrete topic name `topic`.
pub open spec fn topic_matches(pattern: Seq<char>, topic: Seq<char>) -> bool {
    glob(split_dots(pattern), split_dots(topic))
}

pub open spec fn segments_view(v: Seq<Vec<char>>) -> Seq<Seq<char>> {
    v.map_values(|s: Vec<char>| s@)
}

/// Splits `s` at every `.` into segments of characters.
pub fn split_segments(s: &str) -> (r: Vec<Vec<char>>)
    ensures
        segments_view(r@) == split_dots(s@),
{
    let mut segs: Vec<Vec<char>> = Vec::new();
    segs.push(Vec::new());
    assert(segments_view(segs@) =~= split_dots(s@.take(0)));
    for c in it: s.chars()
        invariant
            it.seq() == s@,
            segs.len() >= 1,
            segments_view(segs@) == split_dots(s@.take(it.index() as int)),
    {
        let ghost i = it.index();
        let ghost before = segs@;
        assert(s@.take(i + 1).drop_last() =~= s@.take(i as int));
        if c == '.' {
            segs.push(Vec::new());
            assert(segments_view(segs@) =~= segments_view(before).push(Seq::<char>::empty()));
        } else {
            let last = segs.len() - 1;
            let mut cur = segs.pop().unwrap();
            cur.push(c);
            segs.push(cur);
            assert(segments_view(segs@) =~= segments_view(before).update(
                last as int,
                segments_view(before).last().push(c),
            ));
        }
    }
    assert(s@.take(s@.len() as int) =~= s@);
    segs
}


fn chars_eq(a: &Vec<char>, b: &Vec<char>) -> (r: bool)
    ensures
        r == (a@ == b@),
{
    if a.len() != b.len() {
        return false;
    }
    let mut i: usize = 0;
    while i < a.len()
        invariant
            a.len() == b.len(),
            i <= a.len(),
            forall|j: int| 0 <= j < i ==> a@[j] == b@[j],
        decreases a.len() - i,
    {
        if a[i] != b[i] {
            return false;
        }
        i = i + 1;
    }
    assert(a@ =~= b@);
    true
}

fn is_star(a: &Vec<char>) -> (r: bool)
    ensures
        r == (a@ == star()),
{
    let r = a.len() == 1 && a[0] == '*';
    proof {
        if r {
            assert(a@ =~= star());
        }
    }
    r
}

fn is_double_star(a: &Vec<char>) -> (r: bool)
    ensures
        r == (a@ == double_star()),
{
    let r = a.len() == 2 && a[0] == '*' && a[1] == '*';
    proof {
        if r {
            assert(a@ =~= double_star());
        }
    }
    r
}

/// Matches the pattern segments from `pi` on against the topic segments from `ti` on.
fn match_glob(pattern: &Vec<Vec<char>>, pi: usize, topic: &Vec<Vec<char>>, ti: usize) -> (r: bool)
    requires
        pi <= pattern.len(),
        ti <= topic.len(),
    ensures
        r == glob(segments_view(pattern@).skip(pi as int), segments_view(topic@).skip(ti as int)),
    decreases pattern.len() - pi, topic.len() - ti,
{
    let ghost p = segments_view(pattern@).skip(pi as int);
    let ghost t = segments_view(topic@).skip(ti as int);
    if pi == pattern.len() {
        return ti == topic.len();
    }
    assert(p[0] == pattern@[pi as int]@);
    assert(p.drop_first() =~= segments_view(pattern@).skip(pi + 1));
    if is_double_star(&pattern[pi]) {
        if pi + 1 == pattern.len() {
            return true;
        }
        if match_glob(pattern, pi + 1, topic, ti) {
            return true;
        }
        if ti == topic.len() {
            return false;
        }
        assert(t.drop_first() =~= segments_view(topic@).skip(ti + 1));
        return match_glob(pattern, pi, topic, ti + 1);
    }
    if ti == topic.len() {
        return false;
    }
    assert(t[0] == topic@[ti as int]@);
    assert(t.drop_first() =~= segments_view(topic@).skip(ti + 1));
    if is_star(&pattern[pi]) {
        return match_glob(pattern, pi + 1, topic, ti + 1);
    }
    if chars_eq(&pattern[pi], &topic[ti]) {
        match_glob(pattern, pi + 1, topic, ti + 1)
    } else {
        false
    }
}

/// Matches a topic pattern against a concrete topic name.
///
/// `*` matches one segment, `**` matches any number of segments, and any
/// other segment matches only itself.
pub fn matches(pattern: &str, topic: &str) -> (r: bool)
    ensures
        r == topic_matches(pattern@, topic@),
{
    let p = split_segments(pattern);
    let t = split_segments(topic);
    assert(segments_view(p@).skip(0) =~= segments_view(p@));
    assert(segments_view(t@).skip(0) =~= segments_view(t@));
    match_glob(&p, 0, &t, 0)
}


/// Joins segments with `.`; the inverse of [`split_dots`].
pub open spec fn join_dots(q: Seq<Seq<char>>) -> Seq<char>
    decreases q.len(),
{
    if q.len() == 0 {
        Seq::<char>::empty()
    } else if q.len() == 1 {
        q[0]
    } else {
        join_dots(q.drop_last()) + seq!['.'] + q.last()
    }
}

/// A segment that is neither `*` nor `**`.
pub open spec fn is_literal_segment(seg: Seq<char>) -> bool {
    seg != star() && seg != double_star()
}

proof fn lemma_join_split(s: Seq<char>)
    ensures
        split_dots(s).len() >= 1,
        join_dots(split_dots(s)) == s,
    decreases s.len(),
{
    if s.len() > 0 {
        let prev = split_dots(s.drop_last());
        lemma_join_split(s.drop_last());
        if s.last() == '.' {
            let q = prev.push(Seq::<char>::empty());
            assert(q.drop_last() =~= prev);
            assert(join_dots(q) =~= s);
        } else {
            let q = prev.update(prev.len() - 1, prev.last().push(s.last()));
            if prev.len() == 1 {
                assert(q[0] =~= s);
            } else {
                assert(q.drop_last() =~= prev.drop_last());
                assert(q.last() == prev.last().push(s.last()));
                assert(join_dots(prev) == join_dots(prev.drop_last()) + seq!['.'] + prev.last());
                assert(join_dots(q) == join_dots(prev.drop_last()) + seq!['.'] + q.last());
                assert(join_dots(q) =~= s.drop_last().push(s.last()));
                assert(s.drop_last().push(s.last()) =~= s);
            }
        }
    }
}

proof fn lemma_glob_literal(p: Seq<Seq<char>>, t: Seq<Seq<char>>)
    requires
        forall|i: int| 0 <= i < p.len() ==> is_literal_segment(#[trigger] p[i]),
    ensures
        glob(p, t) <==> p == t,
    decreases p.len(),
{
    if p.len() > 0 && t.len() > 0 {
        assert(is_literal_segment(p[0]));
        assert forall|i: int| 0 <= i < p.drop_first().len() implies is_literal_segment(
            #[trigger] p.drop_first()[i],
        ) by {
            assert(is_literal_segment(p[i + 1]));
        }
        lemma_glob_literal(p.drop_first(), t.drop_first());
        if p[0] == t[0] && p.drop_first() == t.drop_first() {
            assert forall|i: int| 0 <= i < p.len() implies p[i] == t[i] by {
                if i > 0 {
                    assert(p[i] == p.drop_first()[i - 1]);
                    assert(t[i] == t.drop_first()[i - 1]);
                }
            }
            assert(p =~= t);
        }
        if p == t {
            assert(p.drop_first() =~= t.drop_first());
        }
    } else if p.len() > 0 {
        assert(is_literal_segment(p[0]));
    } else if t.len() == 0 {
        assert(p =~= t);
    }
}

proof fn lemma_glob_same_length(p: Seq<Seq<char>>, t: Seq<Seq<char>>)
    requires
        forall|i: int| 0 <= i < p.len() ==> #[trigger] p[i] != double_star(),
        glob(p, t),
    ensures
        p.len() == t.len(),
    decreases p.len(),
{
    if p.len() > 0 {
        assert(p[0] != double_star());
        assert forall|i: int| 0 <= i < p.drop_first().len() implies #[trigger] p.drop_first()[i]
            != double_star() by {
            assert(p[i + 1] != double_star());
        }
        lemma_glob_same_length(p.drop_first(), t.drop_first());
    }
}

/// A pattern without wildcard segments matches exactly the topic equal to it.
pub proof fn law_exact_match(pattern: Seq<char>, topic: Seq<char>)
    requires
        forall|i: int|
            0 <= i < split_dots(pattern).len() ==> is_literal_segment(#[trigger] split_dots(pattern)[i]),
    ensures
        topic_matches(pattern, topic) <==> pattern == topic,
{
    lemma_glob_literal(split_dots(pattern), split_dots(topic));
    lemma_join_split(pattern);
    lemma_join_split(topic);
}

/// The pattern `**` matches every topic.
pub proof fn law_double_star_matches_all(topic: Seq<char>)
    ensures
        topic_matches(double_star(), topic),
{
    let d = double_star();
    assert(d.drop_last().drop_last() =~= Seq::<char>::empty());
    assert(split_dots(d.drop_last().drop_last()) =~= seq![Seq::<char>::empty()]);
    assert(d.drop_last() =~= seq!['*']);
    assert(split_dots(d.drop_last()) =~= seq![seq!['*']]);
    assert(seq!['*'].push('*') =~= d);
    assert(split_dots(d) =~= seq![d]);
}

/// A pattern without `**` only matches topics with as many segments as it has:
/// every `*` stands for exactly one segment.
pub proof fn law_single_wildcards_keep_length(pattern: Seq<char>, topic: Seq<char>)
    requires
        forall|i: int|
            0 <= i < split_dots(pattern).len() ==> #[trigger] split_dots(pattern)[i] != double_star(),
        topic_matches(pattern, topic),
    ensures
        split_dots(pattern).len() == split_dots(topic).len(),
{
    lemma_glob_same_length(split_dots(pattern), split_dots(topic));
}

proof fn lemma_split_len(s: Seq<char>)
    ensures
        split_dots(s).len() >= 1,
    decreases s.len(),
{
    if s.len() > 0 {
        lemma_split_len(s.drop_last());
    }
}

/// Splitting `a.b` gives the segments of `a` followed by those of `b`.
proof fn lemma_split_concat(a: Seq<char>, b: Seq<char>)
    ensures
        split_dots(a + seq!['.'] + b) == split_dots(a) + split_dots(b),
    decreases b.len(),
{
    let c = a + seq!['.'] + b;
    if b.len() == 0 {
        assert(c.drop_last() =~= a);
        assert(split_dots(a) + split_dots(b) =~= split_dots(a).push(Seq::<char>::empty()));
    } else {
        lemma_split_concat(a, b.drop_last());
        lemma_split_len(b.drop_last());
        assert(c.drop_last() =~= a + seq!['.'] + b.drop_last());
        assert(c.last() == b.last());
        let sa = split_dots(a);
        let sb = split_dots(b.drop_last());
        let prev = split_dots(c.drop_last());
        assert(prev == sa + sb);
        if b.last() == '.' {
            assert(split_dots(b) == sb.push(Seq::<char>::empty()));
            assert(split_dots(c) == prev.push(Seq::<char>::empty()));
            assert(prev.push(Seq::<char>::empty()) =~= sa + sb.push(Seq::<char>::empty()));
        } else {
            assert(split_dots(b) == sb.update(sb.len() - 1, sb.last().push(b.last())));
            assert(prev.last() == sb.last());
            assert(prev.update(prev.len() - 1, prev.last().push(c.last())) =~= sa + sb.update(
                sb.len() - 1,
                sb.last().push(b.last()),
            ));
        }
    }
}

/// A `**` appended to a pattern without `**` keeps every match and accepts
/// any further segments.
proof fn lemma_glob_extend(p: Seq<Seq<char>>, t: Seq<Seq<char>>, u: Seq<Seq<char>>)
    requires
        forall|i: int| 0 <= i < p.len() ==> #[trigger] p[i] != double_star(),
        glob(p, t),
    ensures
        glob(p + seq![double_star()], t + u),
    decreases p.len(),
{
    let pp = p + seq![double_star()];
    if p.len() == 0 {
        assert(pp =~= seq![double_star()]);
    } else {
        assert(p[0] != double_star());
        assert forall|i: int| 0 <= i < p.drop_first().len() implies #[trigger] p.drop_first()[i]
            != double_star() by {
            assert(p[i + 1] != double_star());
        }
        lemma_glob_extend(p.drop_first(), t.drop_first(), u);
        assert(pp.drop_first() =~= p.drop_first() + seq![double_star()]);
        assert((t + u).drop_first() =~= t.drop_first() + u);
        assert(pp[0] == p[0]);
        assert((t + u)[0] == t[0]);
    }
}

/// A pattern ending in `.**` matches whatever the pattern before it matches,
/// with zero or more further segments: `**` stands for any number of segments.
pub proof fn law_double_star_suffix(prefix: Seq<char>, topic: Seq<char>, rest: Seq<char>)
    requires
        forall|i: int|
            0 <= i < split_dots(prefix).len() ==> #[trigger] split_dots(prefix)[i] != double_star(),
        topic_matches(prefix, topic),
    ensures
        topic_matches(prefix + seq!['.'] + double_star(), topic),
        topic_matches(prefix + seq!['.'] + double_star(), topic + seq!['.'] + rest),
{
    let d = double_star();
    assert(d.drop_last().drop_last() =~= Seq::<char>::empty());
    assert(split_dots(d.drop_last().drop_last()) =~= seq![Seq::<char>::empty()]);
    assert(d.drop_last() =~= seq!['*']);
    assert(split_dots(d.drop_last()) =~= seq![seq!['*']]);
    assert(seq!['*'].push('*') =~= d);
    assert(split_dots(d) =~= seq![d]);
    lemma_split_concat(prefix, d);
    lemma_split_concat(topic, rest);
    let p = split_dots(prefix);
    let t = split_dots(topic);
    lemma_glob_extend(p, t, Seq::<Seq<char>>::empty());
    assert(t + Seq::<Seq<char>>::empty() =~= t);
    lemma_glob_extend(p, t, split_dots(rest));
}

} // verus!
