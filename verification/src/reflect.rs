//! Lessons distilled from sessions: their identity and the parsing of the model's reply.
use vstd::prelude::*;

use crate::dto::SessionMeta;
use crate::json::{as_str, field, get_str, json_value, parse_json, Json};
use crate::notes::{fnv, fnv_hex};
use crate::text::{same_text, chars_of, concat, concat3, join, lemma_join_push, lowercase, push_char, string_of,
    to_lowercase, trim, trim_str, white_space, is_whitespace};

verus! {

/// Most lessons kept from one reflection.
pub const MAX_LESSONS: usize = 5;

/// The whitespace-separated words of `s` (`s.split_whitespace()`).
pub open spec fn words(s: Seq<char>) -> Seq<Seq<char>>
    decreases s.len(),
{
    if s.len() == 0 {
        Seq::empty()
    } else {
        let w = words(s.drop_last());
        let c = s.last();
        if white_space(c) {
            w
        } else if s.len() >= 2 && !white_space(s[s.len() - 2]) {
            w.update(w.len() - 1, w.last().push(c))
        } else {
            w.push(seq![c])
        }
    }
}

/// `s` with runs of whitespace collapsed to one space and the ends trimmed.
pub open spec fn squash(s: Seq<char>) -> Seq<char> {
    join(words(s), seq![' '])
}

/// The characters that `normalize` strips from the end of a title.
pub open spec fn is_end_punctuation(c: char) -> bool {
    c == '.' || c == ':' || c == '!' || c == '?'
}

/// `s` without trailing `.`, `:`, `!` and `?`.
pub open spec fn trim_end_punctuation(s: Seq<char>) -> Seq<char>
    decreases s.len(),
{
    if s.len() > 0 && is_end_punctuation(s.last()) {
        trim_end_punctuation(s.drop_last())
    } else {
        s
    }
}

/// A title reduced for comparison: words joined by single spaces, lowercased, without
/// trailing punctuation.
pub open spec fn normalize_of(title: Seq<char>) -> Seq<char> {
    trim_end_punctuation(lowercase(squash(title)))
}

proof fn lemma_join_extend_last(w: Seq<Seq<char>>, sep: Seq<char>, c: char)
    requires
        w.len() > 0,
    ensures
        join(w.update(w.len() - 1, w.last().push(c)), sep) == join(w, sep).push(c),
{
    let u = w.update(w.len() - 1, w.last().push(c));
    if w.len() == 1 {
        assert(u[0] == w[0].push(c));
    } else {
        assert(u.drop_last() =~= w.drop_last());
        assert(join(u, sep) == join(u.drop_last(), sep) + sep + u.last());
        assert(join(u, sep) =~= join(w, sep).push(c));
    }
}

proof fn lemma_join_empty_iff(w: Seq<Seq<char>>, sep: Seq<char>)
    requires
        forall|k: int| 0 <= k < w.len() ==> (#[trigger] w[k]).len() > 0,
    ensures
        (join(w, sep).len() == 0) <==> (w.len() == 0),
    decreases w.len(),
{
    if w.len() > 1 {
        assert(w.last() == w[w.len() - 1]);
    } else if w.len() == 1 {
        assert(w[0].len() > 0);
    }
}

proof fn lemma_words_nonempty(s: Seq<char>)
    ensures
        forall|k: int| 0 <= k < words(s).len() ==> (#[trigger] words(s)[k]).len() > 0,
        s.len() > 0 && !white_space(s.last()) ==> words(s).len() > 0,
    decreases s.len(),
{
    if s.len() > 0 {
        lemma_words_nonempty(s.drop_last());
        let w = words(s.drop_last());
        let c = s.last();
        if !white_space(c) && s.len() >= 2 && !white_space(s[s.len() - 2]) {
            assert(s.drop_last().last() == s[s.len() - 2]);
        }
    }
}

/// `s.split_whitespace().collect::<Vec<_>>().join(" ")`.
pub fn squash_whitespace(s: &str) -> (res: String)
    ensures
        res@ == squash(s@),
{
    let v = chars_of(s);
    let mut out = String::new();
    let mut in_word = false;
    let n = v.len();
    assert(s@.take(0) =~= Seq::<char>::empty());
    for i in 0..n
        invariant
            n == v@.len(),
            v@ == s@,
            out@ == join(words(s@.take(i as int)), seq![' ']),
            in_word == (i > 0 && !white_space(s@[i - 1])),
            (out@.len() == 0) == (words(s@.take(i as int)).len() == 0),
    {
        let c = v[i];
        let ghost pre = s@.take(i as int);
        let ghost post = s@.take(i + 1);
        assert(post.drop_last() =~= pre);
        assert(post.last() == c);
        proof {
            lemma_words_nonempty(pre);
            lemma_words_nonempty(post);
            lemma_join_empty_iff(words(post), seq![' ']);
            if i > 0 {
                assert(post[post.len() - 2] == s@[i - 1]);
                assert(pre.last() == s@[i - 1]);
            }
        }
        if is_whitespace(c) {
            in_word = false;
        } else if in_word {
            proof {
                lemma_join_extend_last(words(pre), seq![' '], c);
            }
            push_char(&mut out, c);
        } else {
            proof {
                lemma_join_push(words(pre), seq![' '], seq![c]);
                lemma_join_empty_iff(words(pre), seq![' ']);
            }
            if out.as_str().unicode_len() > 0 {
                push_char(&mut out, ' ');
            }
            push_char(&mut out, c);
            in_word = true;
            assert(out@ =~= join(words(post), seq![' ']));
        }
    }
    assert(s@.take(n as int) =~= s@);
    out
}

/// `s.trim_end_matches(['.', ':', '!', '?'])`.
pub fn strip_end_punctuation(s: &str) -> (res: String)
    ensures
        res@ == trim_end_punctuation(s@),
{
    let v = chars_of(s);
    let mut j = v.len();
    assert(v@.subrange(0, j as int) =~= s@);
    while j > 0 && (v[j - 1] == '.' || v[j - 1] == ':' || v[j - 1] == '!' || v[j - 1] == '?')
        invariant
            v@ == s@,
            j <= v@.len(),
            trim_end_punctuation(s@) == trim_end_punctuation(v@.subrange(0, j as int)),
        decreases j,
    {
        assert(v@.subrange(0, j as int).drop_last() =~= v@.subrange(0, j - 1));
        j = j - 1;
    }
    string_of(v.as_slice(), 0, j)
}

/// A lesson title reduced for comparison.
pub fn normalize(title: &str) -> (res: String)
    ensures
        res@ == normalize_of(title@),
{
    let squashed = squash_whitespace(title);
    let lower = to_lowercase(squashed.as_str());
    strip_end_punctuation(lower.as_str())
}

/// The identifier of a lesson: the hash of its project (trimmed, lowercased) and its
/// normalised title, so that a reworded-only title maps to the same lesson.
pub open spec fn lesson_id_of(project: Seq<char>, title: Seq<char>) -> Seq<char> {
    fnv_hex(lowercase(trim(project)) + seq!['\n'] + normalize_of(title))
}

/// The identifier of a lesson of a project with the given title.
pub fn lesson_id(project: &str, title: &str) -> (res: String)
    ensures
        res@ == lesson_id_of(project@, title@),
{
    let trimmed = trim_str(project);
    let p = to_lowercase(trimmed.as_str());
    let t = normalize(title);
    proof {
        reveal_strlit("\n");
    }
    let key = concat3(p.as_str(), "\n", t.as_str());
    assert(key@ =~= lowercase(trim(project@)) + seq!['\n'] + normalize_of(title@));
    fnv(key.as_str())
}

/// A lesson proposed by the model, before it is matched against stored ones.
#[derive(Debug, PartialEq, Eq)]
pub struct LessonDraft {
    pub category: String,
    pub title: String,
    pub insight: String,
}

/// The index of the first `c` in `s`.
pub open spec fn first_index_of(s: Seq<char>, c: char) -> Option<int> {
    if exists|i: int| 0 <= i < s.len() && s[i] == c {
        Some(choose|i: int| 0 <= i < s.len() && s[i] == c && forall|k: int| 0 <= k < i ==> s[k] != c)
    } else {
        None
    }
}

/// The index of the last `c` in `s`.
pub open spec fn last_index_of(s: Seq<char>, c: char) -> Option<int> {
    if exists|i: int| 0 <= i < s.len() && s[i] == c {
        Some(choose|i: int| 0 <= i < s.len() && s[i] == c && forall|k: int| i < k < s.len() ==> s[k] != c)
    } else {
        None
    }
}

/// The part of the model's reply that should hold the JSON array: from its first `[` to
/// its last `]`, when both occur in that order.
pub open spec fn array_span_of(raw: Seq<char>) -> Option<Seq<char>> {
    match (first_index_of(raw, '['), last_index_of(raw, ']')) {
        (Some(start), Some(end)) => if end <= start {
            None
        } else {
            Some(raw.subrange(start, end + 1))
        },
        _ => None,
    }
}

/// The part of `raw` from its first `[` to its last `]`, when both occur in that order.
pub fn array_span(raw: &str) -> (r: Option<String>)
    ensures
        match r {
            Some(s) => array_span_of(raw@) == Some(s@),
            None => array_span_of(raw@) is None,
        },
{
    let v = chars_of(raw);
    let n = v.len();
    let mut start: usize = 0;
    while start < n && v[start] != '['
        invariant
            n == v@.len(),
            v@ == raw@,
            start <= n,
            forall|k: int| 0 <= k < start ==> raw@[k] != '[',
        decreases n - start,
    {
        start = start + 1;
    }
    let mut end: usize = n;
    while end > 0 && v[end - 1] != ']'
        invariant
            n == v@.len(),
            v@ == raw@,
            end <= n,
            forall|k: int| end <= k < n ==> raw@[k] != ']',
        decreases end,
    {
        end = end - 1;
    }
    proof {
        if start < n {
            let i = choose|i: int| 0 <= i < raw@.len() && raw@[i] == '[' && forall|k: int| 0 <= k < i ==> raw@[k] != '[';
            assert(i == start as int) by {
                if i < start { assert(raw@[i] != '['); }
                if i > start { assert(raw@[start as int] != '['); }
            }
        } else {
            assert(!exists|i: int| 0 <= i < raw@.len() && raw@[i] == '[');
        }
        if end > 0 {
            let j = choose|j: int| 0 <= j < raw@.len() && raw@[j] == ']' && forall|k: int| j < k < raw@.len() ==> raw@[k] != ']';
            assert(j == end - 1) by {
                if j > end - 1 { assert(raw@[j] != ']'); }
                if j < end - 1 { assert(raw@[end - 1] != ']'); }
            }
        } else {
            assert(!exists|j: int| 0 <= j < raw@.len() && raw@[j] == ']');
        }
    }
    if start >= n || end == 0 || end - 1 <= start {
        return None;
    }
    Some(string_of(v.as_slice(), start, end))
}

/// A draft read from one element of the model's array: its title and insight are strings
/// that stay non-empty once trimmed; the category defaults to `"insight"`.
pub open spec fn draft_of(v: Json) -> Option<(Seq<char>, Seq<char>, Seq<char>)> {
    match (as_str(field(v, "title"@)), as_str(field(v, "insight"@))) {
        (Some(t), Some(i)) => if trim(t).len() == 0 || trim(i).len() == 0 {
            None
        } else {
            let category = match as_str(field(v, "category"@)) {
                Some(c) => trim(c),
                None => trim("insight"@),
            };
            Some((category, trim(t), trim(i)))
        },
        _ => None,
    }
}

/// The drafts read from the elements of the model's array, in order.
pub open spec fn drafts_of(values: Seq<Json>) -> Seq<(Seq<char>, Seq<char>, Seq<char>)>
    decreases values.len(),
{
    if values.len() == 0 {
        Seq::empty()
    } else {
        match draft_of(values.last()) {
            Some(d) => drafts_of(values.drop_last()).push(d),
            None => drafts_of(values.drop_last()),
        }
    }
}

/// The (category, title, insight) of each draft.
pub open spec fn draft_triples(drafts: Seq<LessonDraft>) -> Seq<(Seq<char>, Seq<char>, Seq<char>)> {
    drafts.map_values(|d: LessonDraft| (d.category@, d.title@, d.insight@))
}

/// Reads the lesson drafts out of the elements of the model's JSON array.
pub fn drafts_from_values(values: &[Json]) -> (drafts: Vec<LessonDraft>)
    ensures
        draft_triples(drafts@) == drafts_of(values@),
{
    let mut drafts: Vec<LessonDraft> = Vec::new();
    let n = values.len();
    assert(values@.take(0) =~= Seq::<Json>::empty());
    assert(draft_triples(drafts@) =~= Seq::<(Seq<char>, Seq<char>, Seq<char>)>::empty());
    for k in 0..n
        invariant
            n == values@.len(),
            draft_triples(drafts@) == drafts_of(values@.take(k as int)),
    {
        let v = &values[k];
        assert(values@.take(k + 1).drop_last() =~= values@.take(k as int));
        assert(values@.take(k + 1).last() == values@[k as int]);
        let title = get_str(v, "title");
        let insight = get_str(v, "insight");
        match (title, insight) {
            (Some(t), Some(i)) => {
                let t = trim_str(t.as_str());
                let i = trim_str(i.as_str());
                if t.as_str().unicode_len() > 0 && i.as_str().unicode_len() > 0 {
                    let category = match get_str(v, "category") {
                        Some(c) => trim_str(c.as_str()),
                        None => trim_str("insight"),
                    };
                    let ghost before = draft_triples(drafts@);
                    let d = LessonDraft { category, title: t, insight: i };
                    drafts.push(d);
                    assert(draft_triples(drafts@) =~= before.push((d.category@, d.title@, d.insight@)));
                }
            },
            _ => {},
        }
    }
    assert(values@.take(n as int) =~= values@);
    drafts
}

/// The text of a draft that is embedded to find similar lessons: `"{title}\n{insight}"`.
pub fn lesson_text(draft: &LessonDraft) -> (res: String)
    ensures
        res@ == draft.title@ + "\n"@ + draft.insight@,
{
    concat3(draft.title.as_str(), "\n", draft.insight.as_str())
}

/// Keeps the first [`MAX_LESSONS`] drafts of a reflection.
pub fn limit_drafts(drafts: &mut Vec<LessonDraft>)
    ensures
        final(drafts)@ == if old(drafts)@.len() <= MAX_LESSONS {
            old(drafts)@
        } else {
            old(drafts)@.take(MAX_LESSONS as int)
        },
{
    drafts.truncate(MAX_LESSONS);
}

/// Whether a stored session is reflected on by a backfill: it is ready and has a summary.
pub fn reflectable(meta: &SessionMeta) -> (r: bool)
    ensures
        r == (meta.status@ == "ready"@ && meta.summary is Some),
{
    same_text(meta.status.as_str(), "ready") && meta.summary.is_some()
}

/// The drafts of a model reply: those of the elements of the JSON array that spans from its
/// first `[` to its last `]`; none when there is no such span or it is not an array.
pub open spec fn reply_drafts_of(raw: Seq<char>) -> Seq<(Seq<char>, Seq<char>, Seq<char>)> {
    match array_span_of(raw) {
        Some(span) => match json_value(span) {
            Some(Json::Array(vs)) => drafts_of(vs@),
            _ => Seq::empty(),
        },
        None => Seq::empty(),
    }
}

/// Reads the lesson drafts out of the model's reply.
pub fn parse_drafts(raw: &str) -> (drafts: Vec<LessonDraft>)
    ensures
        draft_triples(drafts@) == reply_drafts_of(raw@),
{
    match array_span(raw) {
        Some(span) => match parse_json(span.as_str()) {
            Some(Json::Array(values)) => drafts_from_values(values.as_slice()),
            _ => {
                let d: Vec<LessonDraft> = Vec::new();
                assert(draft_triples(d@) =~= Seq::<(Seq<char>, Seq<char>, Seq<char>)>::empty());
                d
            },
        },
        None => {
            let d: Vec<LessonDraft> = Vec::new();
            assert(draft_triples(d@) =~= Seq::<(Seq<char>, Seq<char>, Seq<char>)>::empty());
            d
        },
    }
}

} // verus!
