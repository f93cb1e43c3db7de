//! The recall text injected when a new session starts.
use vstd::prelude::*;

use crate::dto::SessionBrief;
use crate::json::Json;
use crate::text::{contains_text, dec_int, fmt_i64, lemma_contains_self, lemma_contains_within};
use crate::timefmt::{date, date_of};

verus! {

/// A lesson as it is recalled: its category, title and insight.
#[derive(Debug, PartialEq, Eq)]
pub struct LessonNote {
    pub category: String,
    pub title: String,
    pub insight: String,
}

/// What the Worker sends for recall at session start.
#[derive(Debug, PartialEq, Eq)]
pub struct ContextBundle {
    pub project_sessions: Vec<SessionBrief>,
    pub other_sessions: Vec<SessionBrief>,
    pub lessons: Vec<LessonNote>,
    pub note_count: i64,
}

/// The parts concatenated in order.
pub open spec fn concat_all(parts: Seq<Seq<char>>) -> Seq<char>
    decreases parts.len(),
{
    if parts.len() == 0 {
        Seq::empty()
    } else {
        concat_all(parts.drop_last()) + parts.last()
    }
}

/// A recent session of the current project.
pub open spec fn project_entry(b: SessionBrief) -> Seq<char> {
    "\n### "@ + date_of(b.ended_at) + " (session "@ + b.id@ + ")\n"@ + b.summary@ + "\n"@
}

/// A recent session of another project.
pub open spec fn other_entry(b: SessionBrief) -> Seq<char> {
    "\n### "@ + date_of(b.ended_at) + " — "@ + b.project@ + " (session "@ + b.id@ + ")\n"@
        + b.summary@ + "\n"@
}

/// A lesson to apply.
pub open spec fn lesson_entry(l: LessonNote) -> Seq<char> {
    "\n- **["@ + l.category@ + "] "@ + l.title@ + "** — "@ + l.insight@ + "\n"@
}

/// The recall text: a header naming the coding assistant `host` whose sessions are
/// recalled; the project's recent sessions, other projects' recent sessions, the project's
/// lessons and the size of its knowledge base, each section only when it has content; then
/// the grounding rules and the tool hint.
pub open spec fn render_of(project: Seq<char>, host: Seq<char>, b: ContextBundle) -> Seq<char> {
    "Truncus memory — distilled summaries of your past "@ + host + " sessions:\n"@ + project_section(project, b.project_sessions@) + other_section(b.other_sessions@)
        + lesson_section(project, b.lessons@) + knowledge_section(b.note_count)
        + "\n## Grounding — say \"I don't know\" when unsure\nAnswer from this memory, the loaded lessons, the knowledge base (knowledge_search), and the actual code. If none of those support a specific claim — a file, API, name, number, or past decision — say \"I don't know\" or \"I'm not sure\" plainly and stop. A wrong confident answer is worse than admitting uncertainty; never invent specifics to fill a gap, and don't dress up a low-confidence recall as fact.\n"@ + "\nUse the truncus MCP tools (memory_search, recent_sessions, get_session, lessons, knowledge_search) for deeper recall.\n"@
}

/// The project's recent sessions, when there are any.
pub open spec fn project_section(project: Seq<char>, ps: Seq<SessionBrief>) -> Seq<char> {
    if ps.len() == 0 {
        Seq::empty()
    } else {
        "\n## Recent sessions in "@ + project + "\n"@ + concat_all(ps.map_values(|x: SessionBrief| project_entry(x)))
    }
}

/// Other projects' recent sessions, when there are any.
pub open spec fn other_section(os: Seq<SessionBrief>) -> Seq<char> {
    if os.len() == 0 {
        Seq::empty()
    } else {
        "\n## Recent sessions in other projects\n"@ + concat_all(os.map_values(|x: SessionBrief| other_entry(x)))
    }
}

/// The project's lessons, when there are any.
pub open spec fn lesson_section(project: Seq<char>, ls: Seq<LessonNote>) -> Seq<char> {
    if ls.len() == 0 {
        Seq::empty()
    } else {
        "\n## Lessons learned in "@ + project + " — apply these\n"@ + concat_all(ls.map_values(|x: LessonNote| lesson_entry(x)))
    }
}

/// The size of the project's knowledge base, when it has notes.
pub open spec fn knowledge_section(note_count: i64) -> Seq<char> {
    if note_count > 0 {
        "\n## Knowledge base\nThis project has a knowledge base of "@ + dec_int(note_count as int) + " notes synced from your vault. Use the `knowledge_search` MCP tool to pull relevant notes on demand instead of loading everything.\n"@
    } else {
        Seq::empty()
    }
}

/// Whether there is anything to recall: some session, lesson or note.
pub open spec fn has_context_of(b: ContextBundle) -> bool {
    b.project_sessions@.len() > 0 || b.other_sessions@.len() > 0 || b.lessons@.len() > 0
        || b.note_count != 0
}

/// Whether the bundle has anything to recall (else nothing is injected).
pub fn has_context(bundle: &ContextBundle) -> (r: bool)
    ensures
        r == has_context_of(*bundle),
{
    bundle.project_sessions.len() > 0 || bundle.other_sessions.len() > 0 || bundle.lessons.len() > 0
        || bundle.note_count != 0
}

fn append_project_entries(text: &mut String, briefs: &[SessionBrief])
    ensures
        final(text)@ == old(text)@ + concat_all(briefs@.map_values(|x: SessionBrief| project_entry(x))),
{
    let n = briefs.len();
    assert(briefs@.take(0).map_values(|x: SessionBrief| project_entry(x)) =~= Seq::<Seq<char>>::empty());
    for i in 0..n
        invariant
            n == briefs@.len(),
            text@ == old(text)@ + concat_all(briefs@.take(i as int).map_values(|x: SessionBrief| project_entry(x))),
    {
        let b = &briefs[i];
        let ghost parts = briefs@.take(i as int).map_values(|x: SessionBrief| project_entry(x));
        assert(briefs@.take(i + 1).map_values(|x: SessionBrief| project_entry(x)) =~= parts.push(project_entry(*b)));
        text.append("\n### ");
        let d = date(b.ended_at);
        text.append(d.as_str());
        text.append(" (session ");
        text.append(b.id.as_str());
        text.append(")\n");
        text.append(b.summary.as_str());
        text.append("\n");
        assert(parts.push(project_entry(*b)).drop_last() =~= parts);
        assert(text@ =~= old(text)@ + concat_all(parts) + project_entry(*b));
        assert(text@ =~= old(text)@ + concat_all(parts.push(project_entry(*b))));
    }
    assert(briefs@.take(n as int) =~= briefs@);
}

fn append_other_entries(text: &mut String, briefs: &[SessionBrief])
    ensures
        final(text)@ == old(text)@ + concat_all(briefs@.map_values(|x: SessionBrief| other_entry(x))),
{
    let n = briefs.len();
    assert(briefs@.take(0).map_values(|x: SessionBrief| other_entry(x)) =~= Seq::<Seq<char>>::empty());
    for i in 0..n
        invariant
            n == briefs@.len(),
            text@ == old(text)@ + concat_all(briefs@.take(i as int).map_values(|x: SessionBrief| other_entry(x))),
    {
        let b = &briefs[i];
        let ghost parts = briefs@.take(i as int).map_values(|x: SessionBrief| other_entry(x));
        assert(briefs@.take(i + 1).map_values(|x: SessionBrief| other_entry(x)) =~= parts.push(other_entry(*b)));
        text.append("\n### ");
        let d = date(b.ended_at);
        text.append(d.as_str());
        text.append(" — ");
        text.append(b.project.as_str());
        text.append(" (session ");
        text.append(b.id.as_str());
        text.append(")\n");
        text.append(b.summary.as_str());
        text.append("\n");
        assert(parts.push(other_entry(*b)).drop_last() =~= parts);
        assert(text@ =~= old(text)@ + concat_all(parts) + other_entry(*b));
        assert(text@ =~= old(text)@ + concat_all(parts.push(other_entry(*b))));
    }
    assert(briefs@.take(n as int) =~= briefs@);
}

fn append_lesson_entries(text: &mut String, lessons: &[LessonNote])
    ensures
        final(text)@ == old(text)@ + concat_all(lessons@.map_values(|x: LessonNote| lesson_entry(x))),
{
    let n = lessons.len();
    assert(lessons@.take(0).map_values(|x: LessonNote| lesson_entry(x)) =~= Seq::<Seq<char>>::empty());
    for i in 0..n
        invariant
            n == lessons@.len(),
            text@ == old(text)@ + concat_all(lessons@.take(i as int).map_values(|x: LessonNote| lesson_entry(x))),
    {
        let l = &lessons[i];
        let ghost parts = lessons@.take(i as int).map_values(|x: LessonNote| lesson_entry(x));
        assert(lessons@.take(i + 1).map_values(|x: LessonNote| lesson_entry(x)) =~= parts.push(lesson_entry(*l)));
        text.append("\n- **[");
        text.append(l.category.as_str());
        text.append("] ");
        text.append(l.title.as_str());
        text.append("** — ");
        text.append(l.insight.as_str());
        text.append("\n");
        assert(parts.push(lesson_entry(*l)).drop_last() =~= parts);
        assert(text@ =~= old(text)@ + concat_all(parts) + lesson_entry(*l));
        assert(text@ =~= old(text)@ + concat_all(parts.push(lesson_entry(*l))));
    }
    assert(lessons@.take(n as int) =~= lessons@);
}

fn project_section_text(project: &str, ps: &[SessionBrief]) -> (t: String)
    ensures
        t@ == project_section(project@, ps@),
{
    let mut t = String::new();
    if ps.len() > 0 {
        t.append("\n## Recent sessions in ");
        t.append(project);
        t.append("\n");
        append_project_entries(&mut t, ps);
    }
    assert(t@ =~= project_section(project@, ps@));
    t
}

fn other_section_text(os: &[SessionBrief]) -> (t: String)
    ensures
        t@ == other_section(os@),
{
    let mut t = String::new();
    if os.len() > 0 {
        t.append("\n## Recent sessions in other projects\n");
        append_other_entries(&mut t, os);
    }
    assert(t@ =~= other_section(os@));
    t
}

fn lesson_section_text(project: &str, ls: &[LessonNote]) -> (t: String)
    ensures
        t@ == lesson_section(project@, ls@),
{
    let mut t = String::new();
    if ls.len() > 0 {
        t.append("\n## Lessons learned in ");
        t.append(project);
        t.append(" — apply these\n");
        append_lesson_entries(&mut t, ls);
    }
    assert(t@ =~= lesson_section(project@, ls@));
    t
}

fn knowledge_section_text(note_count: i64) -> (t: String)
    ensures
        t@ == knowledge_section(note_count),
{
    let mut t = String::new();
    if note_count > 0 {
        t.append("\n## Knowledge base\nThis project has a knowledge base of ");
        let count = fmt_i64(note_count);
        t.append(count.as_str());
        t.append(" notes synced from your vault. Use the `knowledge_search` MCP tool to pull relevant notes on demand instead of loading everything.\n");
    }
    assert(t@ =~= knowledge_section(note_count));
    t
}

/// The recall text for a session of the coding assistant `host` starting in `project`.
pub fn render(project: &str, host: &str, bundle: &ContextBundle) -> (text: String)
    ensures
        text@ == render_of(project@, host@, *bundle),
{
    let mut text = "Truncus memory — distilled summaries of your past ".to_owned();
    text.append(host);
    text.append(" sessions:\n");
    let a = project_section_text(project, bundle.project_sessions.as_slice());
    text.append(a.as_str());
    let b = other_section_text(bundle.other_sessions.as_slice());
    text.append(b.as_str());
    let c = lesson_section_text(project, bundle.lessons.as_slice());
    text.append(c.as_str());
    let d = knowledge_section_text(bundle.note_count);
    text.append(d.as_str());
    text.append("\n## Grounding — say \"I don't know\" when unsure\nAnswer from this memory, the loaded lessons, the knowledge base (knowledge_search), and the actual code. If none of those support a specific claim — a file, API, name, number, or past decision — say \"I don't know\" or \"I'm not sure\" plainly and stop. A wrong confident answer is worse than admitting uncertainty; never invent specifics to fill a gap, and don't dress up a low-confidence recall as fact.\n");
    text.append("\nUse the truncus MCP tools (memory_search, recent_sessions, get_session, lessons, knowledge_search) for deeper recall.\n");
    text
}

/// `{"hookSpecificOutput": {"hookEventName": "SessionStart", "additionalContext": context}}`.
pub open spec fn is_start_output(v: Json, context: Seq<char>) -> bool {
    &&& v matches Json::Object(outer)
    &&& outer@.len() == 1
    &&& outer@[0].0@ == "hookSpecificOutput"@
    &&& outer@[0].1 matches Json::Object(inner)
    &&& inner@.len() == 2
    &&& inner@[0].0@ == "hookEventName"@
    &&& inner@[0].1 matches Json::Str(e) && e@ == "SessionStart"@
    &&& inner@[1].0@ == "additionalContext"@
    &&& inner@[1].1 matches Json::Str(c) && c@ == context
}

/// What the session-start hook prints: the recall text as additional context.
pub fn start_output(context: String) -> (v: Json)
    ensures
        is_start_output(v, context@),
{
    let mut inner: Vec<(String, Json)> = Vec::new();
    inner.push(("hookEventName".to_owned(), Json::Str("SessionStart".to_owned())));
    inner.push(("additionalContext".to_owned(), Json::Str(context)));
    let mut outer: Vec<(String, Json)> = Vec::new();
    outer.push(("hookSpecificOutput".to_owned(), Json::Object(inner)));
    Json::Object(outer)
}

/// Every part occurs in the parts concatenated.
proof fn lemma_concat_all_contains(parts: Seq<Seq<char>>, i: int)
    requires
        0 <= i < parts.len(),
    ensures
        contains_text(concat_all(parts), parts[i]),
    decreases parts.len(),
{
    let pre = parts.drop_last();
    if i == parts.len() - 1 {
        lemma_contains_self(parts[i]);
        lemma_contains_within(concat_all(pre), parts[i], Seq::empty(), parts[i]);
        assert(concat_all(pre) + parts[i] + Seq::<char>::empty() =~= concat_all(pre) + parts[i]);
    } else {
        lemma_concat_all_contains(pre, i);
        assert(pre[i] == parts[i]);
        lemma_contains_within(Seq::empty(), concat_all(pre), parts.last(), parts[i]);
        assert(Seq::<char>::empty() + concat_all(pre) + parts.last() =~= concat_all(pre) + parts.last());
    }
}

/// Section law: a section of recent sessions, other projects' sessions or lessons holds,
/// after its heading, one entry per item: one item gives the heading and its entry, and one
/// more item at the end adds just its entry.
pub proof fn lemma_sections_grow(
    project: Seq<char>,
    ps: Seq<SessionBrief>,
    ls: Seq<LessonNote>,
    x: SessionBrief,
    l: LessonNote,
)
    ensures
        project_section(project, seq![x]) == "\n## Recent sessions in "@ + project + "\n"@ + project_entry(x),
        ps.len() > 0 ==> project_section(project, ps.push(x)) == project_section(project, ps) + project_entry(x),
        other_section(seq![x]) == "\n## Recent sessions in other projects\n"@ + other_entry(x),
        ps.len() > 0 ==> other_section(ps.push(x)) == other_section(ps) + other_entry(x),
        lesson_section(project, seq![l]) == "\n## Lessons learned in "@ + project + " — apply these\n"@ + lesson_entry(l),
        ls.len() > 0 ==> lesson_section(project, ls.push(l)) == lesson_section(project, ls) + lesson_entry(l),
{
    let pp = ps.map_values(|y: SessionBrief| project_entry(y));
    assert(ps.push(x).map_values(|y: SessionBrief| project_entry(y)) =~= pp.push(project_entry(x)));
    assert(pp.push(project_entry(x)).drop_last() =~= pp);
    assert(seq![x].map_values(|y: SessionBrief| project_entry(y)) =~= seq![project_entry(x)]);
    assert(seq![project_entry(x)].drop_last() =~= Seq::<Seq<char>>::empty());
    assert(concat_all(Seq::<Seq<char>>::empty()) =~= Seq::<char>::empty());
    assert(concat_all(seq![project_entry(x)]) == concat_all(seq![project_entry(x)].drop_last()) + seq![project_entry(x)].last());
    assert(concat_all(seq![project_entry(x)]) =~= project_entry(x));
    let op = ps.map_values(|y: SessionBrief| other_entry(y));
    assert(ps.push(x).map_values(|y: SessionBrief| other_entry(y)) =~= op.push(other_entry(x)));
    assert(op.push(other_entry(x)).drop_last() =~= op);
    assert(seq![x].map_values(|y: SessionBrief| other_entry(y)) =~= seq![other_entry(x)]);
    assert(seq![other_entry(x)].drop_last() =~= Seq::<Seq<char>>::empty());
    assert(concat_all(Seq::<Seq<char>>::empty()) =~= Seq::<char>::empty());
    assert(concat_all(seq![other_entry(x)]) == concat_all(seq![other_entry(x)].drop_last()) + seq![other_entry(x)].last());
    assert(concat_all(seq![other_entry(x)]) =~= other_entry(x));
    let lp = ls.map_values(|y: LessonNote| lesson_entry(y));
    assert(ls.push(l).map_values(|y: LessonNote| lesson_entry(y)) =~= lp.push(lesson_entry(l)));
    assert(lp.push(lesson_entry(l)).drop_last() =~= lp);
    assert(seq![l].map_values(|y: LessonNote| lesson_entry(y)) =~= seq![lesson_entry(l)]);
    assert(seq![lesson_entry(l)].drop_last() =~= Seq::<Seq<char>>::empty());
    assert(concat_all(Seq::<Seq<char>>::empty()) =~= Seq::<char>::empty());
    assert(concat_all(seq![lesson_entry(l)]) == concat_all(seq![lesson_entry(l)].drop_last()) + seq![lesson_entry(l)].last());
    assert(concat_all(seq![lesson_entry(l)]) =~= lesson_entry(l));
}

/// Recall law: the recall text holds the entry of every recent session of the project, of
/// every recent session of another project, and of every lesson.
pub proof fn lemma_recall_holds_every_entry(project: Seq<char>, host: Seq<char>, b: ContextBundle)
    ensures
        forall|i: int|
            0 <= i < b.project_sessions@.len() ==> contains_text(
                render_of(project, host, b),
                project_entry(#[trigger] b.project_sessions@[i]),
            ),
        forall|i: int|
            0 <= i < b.other_sessions@.len() ==> contains_text(
                render_of(project, host, b),
                other_entry(#[trigger] b.other_sessions@[i]),
            ),
        forall|i: int|
            0 <= i < b.lessons@.len() ==> contains_text(
                render_of(project, host, b),
                lesson_entry(#[trigger] b.lessons@[i]),
            ),
{
    let head = "Truncus memory — distilled summaries of your past "@ + host + " sessions:\n"@;
    let ps = project_section(project, b.project_sessions@);
    let os = other_section(b.other_sessions@);
    let ls = lesson_section(project, b.lessons@);
    let rest = knowledge_section(b.note_count)
        + "\n## Grounding — say \"I don't know\" when unsure\nAnswer from this memory, the loaded lessons, the knowledge base (knowledge_search), and the actual code. If none of those support a specific claim — a file, API, name, number, or past decision — say \"I don't know\" or \"I'm not sure\" plainly and stop. A wrong confident answer is worse than admitting uncertainty; never invent specifics to fill a gap, and don't dress up a low-confidence recall as fact.\n"@
        + "\nUse the truncus MCP tools (memory_search, recent_sessions, get_session, lessons, knowledge_search) for deeper recall.\n"@;
    let r = render_of(project, host, b);
    assert(r =~= head + ps + (os + ls + rest));
    assert(r =~= (head + ps) + os + (ls + rest));
    assert(r =~= (head + ps + os) + ls + rest);
    assert forall|i: int| 0 <= i < b.project_sessions@.len() implies contains_text(
        r,
        project_entry(#[trigger] b.project_sessions@[i]),
    ) by {
        let parts = b.project_sessions@.map_values(|y: SessionBrief| project_entry(y));
        lemma_concat_all_contains(parts, i);
        lemma_contains_within("\n## Recent sessions in "@ + project + "\n"@, concat_all(parts), Seq::empty(), parts[i]);
        assert("\n## Recent sessions in "@ + project + "\n"@ + concat_all(parts) + Seq::<char>::empty() =~= ps);
        lemma_contains_within(head, ps, os + ls + rest, parts[i]);
    }
    assert forall|i: int| 0 <= i < b.other_sessions@.len() implies contains_text(
        r,
        other_entry(#[trigger] b.other_sessions@[i]),
    ) by {
        let parts = b.other_sessions@.map_values(|y: SessionBrief| other_entry(y));
        lemma_concat_all_contains(parts, i);
        lemma_contains_within("\n## Recent sessions in other projects\n"@, concat_all(parts), Seq::empty(), parts[i]);
        assert("\n## Recent sessions in other projects\n"@ + concat_all(parts) + Seq::<char>::empty() =~= os);
        lemma_contains_within(head + ps, os, ls + rest, parts[i]);
    }
    assert forall|i: int| 0 <= i < b.lessons@.len() implies contains_text(
        r,
        lesson_entry(#[trigger] b.lessons@[i]),
    ) by {
        let parts = b.lessons@.map_values(|y: LessonNote| lesson_entry(y));
        lemma_concat_all_contains(parts, i);
        lemma_contains_within("\n## Lessons learned in "@ + project + " — apply these\n"@, concat_all(parts), Seq::empty(), parts[i]);
        assert("\n## Lessons learned in "@ + project + " — apply these\n"@ + concat_all(parts) + Seq::<char>::empty() =~= ls);
        lemma_contains_within(head + ps + os, ls, rest, parts[i]);
    }
}

} // verus!
