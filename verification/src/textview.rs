//! Plain-text renderings of stored sessions, search hits and lessons, as the CLI and the MCP
//! tools show them.
use vstd::prelude::*;

use crate::dto::SessionMeta;
use crate::paging::{pages, pages_of};
use crate::text::{contains_text, lemma_join_contains, chars_of, dec, dec_int, first_line_of, fmt_i64, fmt_u64, join, lemma_join_push,
    lemma_newline_index_unique, string_of};
use crate::timefmt::{date, date_of};

verus! {

/// The summary of a session, or a placeholder when it has none yet.
pub open spec fn summary_text(summary: Option<String>) -> Seq<char> {
    match summary {
        Some(s) => s@,
        None => "(no summary yet)"@,
    }
}

/// One entry of a session listing: date, project, id, status, chunk count, then the first
/// line of the summary.
pub open spec fn session_line(m: SessionMeta) -> Seq<char> {
    date_of(m.ended_at) + " · "@ + m.project@ + " · "@ + m.id@ + " · "@ + m.status@ + " · "@
        + dec_int(m.chunk_count as int) + " chunks\n"@ + first_line_of(summary_text(m.summary))
}

/// A listing of sessions: their entries separated by blank lines, or a notice when there
/// are none.
pub open spec fn sessions_text(ms: Seq<SessionMeta>) -> Seq<char> {
    if ms.len() == 0 {
        "No sessions stored yet."@
    } else {
        join(ms.map_values(|m: SessionMeta| session_line(m)), "\n\n"@)
    }
}

/// The error of a failed session, as `" ({error})"`, or nothing.
pub open spec fn error_text(error: Option<String>) -> Seq<char> {
    match error {
        Some(e) => " ("@ + e@ + ")"@,
        None => Seq::empty(),
    }
}

/// The full view of one session.
pub open spec fn session_text(m: SessionMeta) -> Seq<char> {
    "session "@ + m.id@ + "\nproject: "@ + m.project@ + "\nmachine: "@ + m.machine@
        + "\nrange: "@ + date_of(m.started_at) + " → "@ + date_of(m.ended_at) + "\nstatus: "@
        + m.status@ + error_text(m.error) + "\n\n"@ + summary_text(m.summary)
}

/// The first line of `text` (`text.lines().next().unwrap_or_default()`).
pub fn first_line(text: &str) -> (res: String)
    ensures
        res@ == first_line_of(text@),
{
    let v = chars_of(text);
    let mut k: usize = 0;
    while k < v.len() && v[k] != '\n'
        invariant
            v@ == text@,
            k <= v@.len(),
            forall|i: int| 0 <= i < k ==> text@[i] != '\n',
        decreases v.len() - k,
    {
        k = k + 1;
    }
    proof {
        lemma_newline_index_unique(text@, k as int);
    }
    if k < v.len() && k > 0 && v[k - 1] == '\r' {
        string_of(v.as_slice(), 0, k - 1)
    } else {
        string_of(v.as_slice(), 0, k)
    }
}

fn session_line_of(m: &SessionMeta) -> (res: String)
    ensures
        res@ == session_line(*m),
{
    let mut s = date(m.ended_at);
    s.append(" · ");
    s.append(m.project.as_str());
    s.append(" · ");
    s.append(m.id.as_str());
    s.append(" · ");
    s.append(m.status.as_str());
    s.append(" · ");
    let count = fmt_i64(m.chunk_count);
    s.append(count.as_str());
    s.append(" chunks\n");
    let line = match &m.summary {
        Some(summary) => first_line(summary.as_str()),
        None => first_line("(no summary yet)"),
    };
    s.append(line.as_str());
    s
}

/// A listing of sessions, newest first as given, separated by blank lines.
pub fn sessions(metas: &[SessionMeta]) -> (res: String)
    ensures
        res@ == sessions_text(metas@),
{
    if metas.len() == 0 {
        return "No sessions stored yet.".to_owned();
    }
    let mut out = String::new();
    let n = metas.len();
    assert(metas@.take(0).map_values(|m: SessionMeta| session_line(m)) =~= Seq::<Seq<char>>::empty());
    for i in 0..n
        invariant
            n == metas@.len(),
            out@ == join(metas@.take(i as int).map_values(|m: SessionMeta| session_line(m)), "\n\n"@),
    {
        let ghost parts = metas@.take(i as int).map_values(|m: SessionMeta| session_line(m));
        proof {
            lemma_join_push(parts, "\n\n"@, session_line(metas@[i as int]));
            assert(metas@.take(i + 1).map_values(|m: SessionMeta| session_line(m)) =~= parts.push(
                session_line(metas@[i as int]),
            ));
        }
        if i > 0 {
            out.append("\n\n");
        }
        let line = session_line_of(&metas[i]);
        out.append(line.as_str());
    }
    assert(metas@.take(n as int) =~= metas@);
    out
}

/// The full view of one session: id, project, machine, time range, status (with the error
/// of a failed run) and summary.
pub fn session(meta: &SessionMeta) -> (res: String)
    ensures
        res@ == session_text(*meta),
{
    let mut s = "session ".to_owned();
    s.append(meta.id.as_str());
    s.append("\nproject: ");
    s.append(meta.project.as_str());
    s.append("\nmachine: ");
    s.append(meta.machine.as_str());
    s.append("\nrange: ");
    let started = date(meta.started_at);
    s.append(started.as_str());
    s.append(" → ");
    let ended = date(meta.ended_at);
    s.append(ended.as_str());
    s.append("\nstatus: ");
    s.append(meta.status.as_str());
    match &meta.error {
        Some(e) => {
            s.append(" (");
            s.append(e.as_str());
            s.append(")");
        },
        None => {},
    }
    s.append("\n\n");
    match &meta.summary {
        Some(summary) => s.append(summary.as_str()),
        None => s.append("(no summary yet)"),
    }
    s
}

/// The page of a listing that the CLI asks for: page size and page number taken as at
/// least one, and the offset of the page's first session.
pub fn page_window(limit: usize, page: usize) -> (r: (usize, usize, usize))
    requires
        (if page < 1 { 1int } else { page as int } - 1) * (if limit < 1 { 1int } else { limit as int })
            <= usize::MAX,
    ensures
        r.0 == (if limit < 1 { 1 } else { limit }),
        r.1 == (if page < 1 { 1 } else { page }),
        r.2 == (r.1 - 1) * r.0,
{
    let limit = if limit < 1 {
        1
    } else {
        limit
    };
    let page = if page < 1 {
        1
    } else {
        page
    };
    (limit, page, (page - 1) * limit)
}

/// What the CLI prints for a page without sessions.
pub open spec fn empty_page_of(page: nat, total: int, limit: int) -> Seq<char> {
    if total == 0 {
        "No sessions stored yet."@
    } else {
        "No sessions on page "@ + dec(page) + " (total "@ + dec_int(total) + ", "@ + dec_int(
            pages_of(total, limit),
        ) + " pages)."@
    }
}

/// The notice for a page of a listing that holds no sessions.
pub fn empty_page(page: usize, total: i64, limit: i64) -> (res: String)
    requires
        total + (if limit < 1 { 1 } else { limit }) <= i64::MAX,
    ensures
        res@ == empty_page_of(page as nat, total as int, limit as int),
{
    if total == 0 {
        "No sessions stored yet.".to_owned()
    } else {
        let mut s = "No sessions on page ".to_owned();
        let p = fmt_u64(page as u64);
        s.append(p.as_str());
        s.append(" (total ");
        let t = fmt_i64(total);
        s.append(t.as_str());
        s.append(", ");
        let n = fmt_i64(pages(total, limit));
        s.append(n.as_str());
        s.append(" pages).");
        s
    }
}

/// The line under a page of sessions: which sessions of the total it shows, and which
/// page of how many it is.
pub open spec fn page_footer_of(offset: int, shown: int, total: int, page: nat, limit: int) -> Seq<char> {
    "\n— "@ + dec_int(offset + 1) + "–"@ + dec_int(offset + shown) + " of "@ + dec_int(total)
        + " · page "@ + dec(page) + "/"@ + dec_int(pages_of(total, limit)) + " —"@
}

/// The line printed under a page of `shown` sessions that starts at `offset`.
pub fn page_footer(offset: i64, shown: usize, total: i64, page: usize, limit: i64) -> (res: String)
    requires
        shown <= i64::MAX,
        offset + 1 <= i64::MAX,
        offset + shown <= i64::MAX,
        total + (if limit < 1 { 1 } else { limit }) <= i64::MAX,
    ensures
        res@ == page_footer_of(offset as int, shown as int, total as int, page as nat, limit as int),
{
    let mut s = "\n— ".to_owned();
    let from = fmt_i64(offset + 1);
    s.append(from.as_str());
    s.append("–");
    let to = fmt_i64(offset + shown as i64);
    s.append(to.as_str());
    s.append(" of ");
    let t = fmt_i64(total);
    s.append(t.as_str());
    s.append(" · page ");
    let p = fmt_u64(page as u64);
    s.append(p.as_str());
    s.append("/");
    let n = fmt_i64(pages(total, limit));
    s.append(n.as_str());
    s.append(" —");
    s
}

/// A search hit as it is shown: the similarity score is given already written with three
/// decimals, the way `{:.3}` writes it.
#[derive(Debug, PartialEq, Eq)]
pub struct HitView {
    pub score: String,
    pub kind: String,
    pub project: String,
    pub ended_at: i64,
    pub session_id: String,
    pub text: String,
}

/// A lesson as it is listed: the confidence is given already written as a whole percentage.
#[derive(Debug, PartialEq, Eq)]
pub struct LessonView {
    pub category: String,
    pub title: String,
    pub times_seen: i64,
    pub confidence_percent: String,
    pub insight: String,
}

/// The warning put above hits none of which is a strong match.
pub open spec fn unsure_text() -> Seq<char> {
    "⚠ Low-confidence recall — nothing below is a strong match. Do not present any of it as fact; if you can't ground your answer in a high-confidence hit or the actual code, say you don't know rather than guessing."@
}

/// The body of a search answer, with the warning above it when no hit scored well.
pub open spec fn with_confidence_of(low_confidence: bool, body: Seq<char>) -> Seq<char> {
    if low_confidence {
        unsure_text() + "\n\n"@ + body
    } else {
        body
    }
}

/// One memory hit: score, kind, project, date and session, then its text.
pub open spec fn hit_line(h: HitView) -> Seq<char> {
    "["@ + h.score@ + "] "@ + h.kind@ + " · "@ + h.project@ + " · "@ + date_of(h.ended_at)
        + " · session "@ + h.session_id@ + "\n"@ + h.text@
}

/// The answer to a memory search.
pub open spec fn hits_text(hs: Seq<HitView>, low_confidence: bool) -> Seq<char> {
    if hs.len() == 0 {
        "No matching memories found. Say you don't know rather than inventing an answer."@
    } else {
        with_confidence_of(low_confidence, join(hs.map_values(|h: HitView| hit_line(h)), "\n\n"@))
    }
}

/// One knowledge hit: score, project and note path, then its text.
pub open spec fn knowledge_line(h: HitView) -> Seq<char> {
    "["@ + h.score@ + "] "@ + h.project@ + " · "@ + h.session_id@ + "\n"@ + h.text@
}

/// The answer to a knowledge-base search.
pub open spec fn knowledge_text(hs: Seq<HitView>, low_confidence: bool) -> Seq<char> {
    if hs.len() == 0 {
        "No matching knowledge found. Say you don't know rather than guessing."@
    } else {
        with_confidence_of(low_confidence, join(hs.map_values(|h: HitView| knowledge_line(h)), "\n\n"@))
    }
}

/// One lesson: category, title, times seen and confidence, then the insight.
pub open spec fn lesson_line(l: LessonView) -> Seq<char> {
    "["@ + l.category@ + "] "@ + l.title@ + " · seen ×"@ + dec_int(l.times_seen as int) + " · "@
        + l.confidence_percent@ + "% confidence\n"@ + l.insight@
}

/// A listing of lessons.
pub open spec fn lessons_text(ls: Seq<LessonView>) -> Seq<char> {
    if ls.len() == 0 {
        "No lessons learned yet."@
    } else {
        join(ls.map_values(|l: LessonView| lesson_line(l)), "\n\n"@)
    }
}

fn hit_line_of(h: &HitView) -> (res: String)
    ensures
        res@ == hit_line(*h),
{
    let mut s = "[".to_owned();
    s.append(h.score.as_str());
    s.append("] ");
    s.append(h.kind.as_str());
    s.append(" · ");
    s.append(h.project.as_str());
    s.append(" · ");
    let d = date(h.ended_at);
    s.append(d.as_str());
    s.append(" · session ");
    s.append(h.session_id.as_str());
    s.append("\n");
    s.append(h.text.as_str());
    s
}

fn knowledge_line_of(h: &HitView) -> (res: String)
    ensures
        res@ == knowledge_line(*h),
{
    let mut s = "[".to_owned();
    s.append(h.score.as_str());
    s.append("] ");
    s.append(h.project.as_str());
    s.append(" · ");
    s.append(h.session_id.as_str());
    s.append("\n");
    s.append(h.text.as_str());
    s
}

fn lesson_line_of(l: &LessonView) -> (res: String)
    ensures
        res@ == lesson_line(*l),
{
    let mut s = "[".to_owned();
    s.append(l.category.as_str());
    s.append("] ");
    s.append(l.title.as_str());
    s.append(" · seen ×");
    let n = fmt_i64(l.times_seen);
    s.append(n.as_str());
    s.append(" · ");
    s.append(l.confidence_percent.as_str());
    s.append("% confidence\n");
    s.append(l.insight.as_str());
    s
}

fn with_confidence(low_confidence: bool, body: String) -> (res: String)
    ensures
        res@ == with_confidence_of(low_confidence, body@),
{
    if low_confidence {
        let mut s = "⚠ Low-confidence recall — nothing below is a strong match. Do not present any of it as fact; if you can't ground your answer in a high-confidence hit or the actual code, say you don't know rather than guessing.".to_owned();
        s.append("\n\n");
        s.append(body.as_str());
        s
    } else {
        body
    }
}

/// The answer to a memory search: each hit with its score, kind, project, date and session,
/// separated by blank lines, under a warning when `low_confidence` (no hit scored well); or
/// a notice when there are no hits.
pub fn hits(hs: &[HitView], low_confidence: bool) -> (res: String)
    ensures
        res@ == hits_text(hs@, low_confidence),
{
    if hs.len() == 0 {
        return "No matching memories found. Say you don't know rather than inventing an answer.".to_owned();
    }
    let mut out = String::new();
    let n = hs.len();
    assert(hs@.take(0).map_values(|h: HitView| hit_line(h)) =~= Seq::<Seq<char>>::empty());
    for i in 0..n
        invariant
            n == hs@.len(),
            out@ == join(hs@.take(i as int).map_values(|h: HitView| hit_line(h)), "\n\n"@),
    {
        let ghost parts = hs@.take(i as int).map_values(|h: HitView| hit_line(h));
        proof {
            lemma_join_push(parts, "\n\n"@, hit_line(hs@[i as int]));
            assert(hs@.take(i + 1).map_values(|h: HitView| hit_line(h)) =~= parts.push(hit_line(hs@[i as int])));
        }
        if i > 0 {
            out.append("\n\n");
        }
        let line = hit_line_of(&hs[i]);
        out.append(line.as_str());
    }
    assert(hs@.take(n as int) =~= hs@);
    with_confidence(low_confidence, out)
}

/// The answer to a knowledge-base search: each hit with its score, project and note path,
/// separated by blank lines, under a warning when `low_confidence`; or a notice when there
/// are no hits.
pub fn knowledge(hs: &[HitView], low_confidence: bool) -> (res: String)
    ensures
        res@ == knowledge_text(hs@, low_confidence),
{
    if hs.len() == 0 {
        return "No matching knowledge found. Say you don't know rather than guessing.".to_owned();
    }
    let mut out = String::new();
    let n = hs.len();
    assert(hs@.take(0).map_values(|h: HitView| knowledge_line(h)) =~= Seq::<Seq<char>>::empty());
    for i in 0..n
        invariant
            n == hs@.len(),
            out@ == join(hs@.take(i as int).map_values(|h: HitView| knowledge_line(h)), "\n\n"@),
    {
        let ghost parts = hs@.take(i as int).map_values(|h: HitView| knowledge_line(h));
        proof {
            lemma_join_push(parts, "\n\n"@, knowledge_line(hs@[i as int]));
            assert(hs@.take(i + 1).map_values(|h: HitView| knowledge_line(h)) =~= parts.push(
                knowledge_line(hs@[i as int]),
            ));
        }
        if i > 0 {
            out.append("\n\n");
        }
        let line = knowledge_line_of(&hs[i]);
        out.append(line.as_str());
    }
    assert(hs@.take(n as int) =~= hs@);
    with_confidence(low_confidence, out)
}

/// A listing of lessons, separated by blank lines, or a notice when there are none.
pub fn lessons(ls: &[LessonView]) -> (res: String)
    ensures
        res@ == lessons_text(ls@),
{
    if ls.len() == 0 {
        return "No lessons learned yet.".to_owned();
    }
    let mut out = String::new();
    let n = ls.len();
    assert(ls@.take(0).map_values(|l: LessonView| lesson_line(l)) =~= Seq::<Seq<char>>::empty());
    for i in 0..n
        invariant
            n == ls@.len(),
            out@ == join(ls@.take(i as int).map_values(|l: LessonView| lesson_line(l)), "\n\n"@),
    {
        let ghost parts = ls@.take(i as int).map_values(|l: LessonView| lesson_line(l));
        proof {
            lemma_join_push(parts, "\n\n"@, lesson_line(ls@[i as int]));
            assert(ls@.take(i + 1).map_values(|l: LessonView| lesson_line(l)) =~= parts.push(lesson_line(ls@[i as int])));
        }
        if i > 0 {
            out.append("\n\n");
        }
        let line = lesson_line_of(&ls[i]);
        out.append(line.as_str());
    }
    assert(ls@.take(n as int) =~= ls@);
    out
}

/// Listing law for lessons: a listing of one lesson is that lesson's entry; adding a lesson
/// at the end adds a blank line and its entry; so every lesson's entry occurs in the listing,
/// in order.
pub proof fn lemma_lessons_listing(ls: Seq<LessonView>, l: LessonView)
    ensures
        lessons_text(seq![l]) == lesson_line(l),
        ls.len() > 0 ==> lessons_text(ls.push(l)) == lessons_text(ls) + "\n\n"@ + lesson_line(l),
        forall|i: int| 0 <= i < ls.len() ==> contains_text(lessons_text(ls), lesson_line(#[trigger] ls[i])),
{
    let parts = ls.map_values(|x: LessonView| lesson_line(x));
    lemma_join_push(parts, "\n\n"@, lesson_line(l));
    assert(ls.push(l).map_values(|x: LessonView| lesson_line(x)) =~= parts.push(lesson_line(l)));
    assert(seq![l].map_values(|x: LessonView| lesson_line(x)) =~= Seq::<Seq<char>>::empty().push(lesson_line(l)));
    lemma_join_push(Seq::<Seq<char>>::empty(), "\n\n"@, lesson_line(l));
    assert forall|i: int| 0 <= i < ls.len() implies contains_text(lessons_text(ls), lesson_line(#[trigger] ls[i])) by {
        lemma_join_contains(parts, "\n\n"@, i);
    }
}

/// Listing law for knowledge hits: one hit answers as its entry; adding a hit at the end adds
/// a blank line and its entry; the warning, when due, stands once above all entries; so
/// every hit's entry occurs in the answer, in order.
pub proof fn lemma_knowledge_listing(hs: Seq<HitView>, h: HitView, low: bool)
    ensures
        knowledge_text(seq![h], false) == knowledge_line(h),
        hs.len() > 0 ==> knowledge_text(hs.push(h), false) == knowledge_text(hs, false) + "\n\n"@
            + knowledge_line(h),
        hs.len() > 0 ==> knowledge_text(hs, true) == unsure_text() + "\n\n"@ + knowledge_text(hs, false),
        forall|i: int| 0 <= i < hs.len() ==> contains_text(knowledge_text(hs, low), knowledge_line(#[trigger] hs[i])),
{
    let parts = hs.map_values(|x: HitView| knowledge_line(x));
    lemma_join_push(parts, "\n\n"@, knowledge_line(h));
    assert(hs.push(h).map_values(|x: HitView| knowledge_line(x)) =~= parts.push(knowledge_line(h)));
    assert(seq![h].map_values(|x: HitView| knowledge_line(x)) =~= Seq::<Seq<char>>::empty().push(knowledge_line(h)));
    lemma_join_push(Seq::<Seq<char>>::empty(), "\n\n"@, knowledge_line(h));
    assert forall|i: int| 0 <= i < hs.len() implies contains_text(knowledge_text(hs, low), knowledge_line(#[trigger] hs[i])) by {
        lemma_join_contains(parts, "\n\n"@, i);
        if low {
            crate::text::lemma_contains_within(unsure_text() + "\n\n"@, join(parts, "\n\n"@), Seq::empty(), knowledge_line(hs[i]));
            assert(unsure_text() + "\n\n"@ + join(parts, "\n\n"@) + Seq::<char>::empty() =~= unsure_text() + "\n\n"@ + join(parts, "\n\n"@));
        }
    }
}

/// Listing law for memory hits: one hit answers as its entry; adding a hit at the end adds a
/// blank line and its entry; the warning, when due, stands once above all entries; so every
/// hit's entry occurs in the answer, in order.
pub proof fn lemma_hits_listing(hs: Seq<HitView>, h: HitView, low: bool)
    ensures
        hits_text(seq![h], false) == hit_line(h),
        hs.len() > 0 ==> hits_text(hs.push(h), false) == hits_text(hs, false) + "\n\n"@ + hit_line(h),
        hs.len() > 0 ==> hits_text(hs, true) == unsure_text() + "\n\n"@ + hits_text(hs, false),
        forall|i: int| 0 <= i < hs.len() ==> contains_text(hits_text(hs, low), hit_line(#[trigger] hs[i])),
{
    let parts = hs.map_values(|x: HitView| hit_line(x));
    lemma_join_push(parts, "\n\n"@, hit_line(h));
    assert(hs.push(h).map_values(|x: HitView| hit_line(x)) =~= parts.push(hit_line(h)));
    assert(seq![h].map_values(|x: HitView| hit_line(x)) =~= Seq::<Seq<char>>::empty().push(hit_line(h)));
    lemma_join_push(Seq::<Seq<char>>::empty(), "\n\n"@, hit_line(h));
    assert forall|i: int| 0 <= i < hs.len() implies contains_text(hits_text(hs, low), hit_line(#[trigger] hs[i])) by {
        lemma_join_contains(parts, "\n\n"@, i);
        if low {
            crate::text::lemma_contains_within(unsure_text() + "\n\n"@, join(parts, "\n\n"@), Seq::empty(), hit_line(hs[i]));
            assert(unsure_text() + "\n\n"@ + join(parts, "\n\n"@) + Seq::<char>::empty() =~= unsure_text() + "\n\n"@ + join(parts, "\n\n"@));
        }
    }
}

/// Listing law for sessions: one session lists as its entry; adding a session at the end
/// adds a blank line and its entry; so every session's entry occurs in the listing, in
/// order.
pub proof fn lemma_sessions_listing(ms: Seq<SessionMeta>, m: SessionMeta)
    ensures
        sessions_text(seq![m]) == session_line(m),
        ms.len() > 0 ==> sessions_text(ms.push(m)) == sessions_text(ms) + "\n\n"@ + session_line(m),
        forall|i: int| 0 <= i < ms.len() ==> contains_text(sessions_text(ms), session_line(#[trigger] ms[i])),
{
    let parts = ms.map_values(|x: SessionMeta| session_line(x));
    lemma_join_push(parts, "\n\n"@, session_line(m));
    assert(ms.push(m).map_values(|x: SessionMeta| session_line(x)) =~= parts.push(session_line(m)));
    assert(seq![m].map_values(|x: SessionMeta| session_line(x)) =~= Seq::<Seq<char>>::empty().push(session_line(m)));
    lemma_join_push(Seq::<Seq<char>>::empty(), "\n\n"@, session_line(m));
    assert forall|i: int| 0 <= i < ms.len() implies contains_text(sessions_text(ms), session_line(#[trigger] ms[i])) by {
        lemma_join_contains(parts, "\n\n"@, i);
    }
}

} // verus!
