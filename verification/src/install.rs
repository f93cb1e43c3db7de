//! Registration of the capture and recall hooks in the assistant's settings document.
use vstd::prelude::*;

use crate::json::{as_str, field, get, get_str, json_value, lookup, parse_json, pretty_json, to_pretty_json, Json};
use crate::text::{concat, contains_str, contains_text, same_text};

verus! {

/// The index of the first member named `key`.
pub open spec fn key_index(ms: Seq<(String, Json)>, key: Seq<char>) -> Option<int>
    decreases ms.len(),
{
    if ms.len() == 0 {
        None
    } else if ms[0].0@ == key {
        Some(0)
    } else {
        match key_index(ms.drop_first(), key) {
            Some(i) => Some(i + 1),
            None => None,
        }
    }
}

/// What `key_index` finds, and how it agrees with `lookup`.
pub proof fn lemma_key_index(ms: Seq<(String, Json)>, key: Seq<char>)
    ensures
        match key_index(ms, key) {
            Some(i) => 0 <= i < ms.len() && ms[i].0@ == key && (forall|j: int|
                0 <= j < i ==> #[trigger] ms[j].0@ != key) && lookup(ms, key) == Some(ms[i].1),
            None => (forall|j: int| 0 <= j < ms.len() ==> #[trigger] ms[j].0@ != key) && lookup(
                ms,
                key,
            ) is None,
        },
    decreases ms.len(),
{
    if ms.len() > 0 && ms[0].0@ != key {
        lemma_key_index(ms.drop_first(), key);
        assert forall|j: int| 1 <= j < ms.len() implies #[trigger] ms[j] == ms.drop_first()[j - 1] by {}
    }
}

/// Lists with the same member names in the same order find a name at the same index.
proof fn lemma_key_index_names(a: Seq<(String, Json)>, b: Seq<(String, Json)>, key: Seq<char>)
    requires
        a.len() == b.len(),
        forall|j: int| 0 <= j < a.len() ==> #[trigger] a[j].0 == b[j].0,
    ensures
        key_index(a, key) == key_index(b, key),
    decreases a.len(),
{
    if a.len() > 0 {
        assert(a[0].0 == b[0].0);
        assert forall|j: int| 0 <= j < a.len() - 1 implies #[trigger] a.drop_first()[j].0
            == b.drop_first()[j].0 by {
            assert(a[j + 1].0 == b[j + 1].0);
        }
        lemma_key_index_names(a.drop_first(), b.drop_first(), key);
    }
}

/// `new` is `old` with the value of the member named `key` changed: the first such member
/// keeps its place and name, or, when there is none, a member of that name is appended.
/// This is what `v[key] = value` does to an object.
pub open spec fn member_replaced(old: Seq<(String, Json)>, new: Seq<(String, Json)>, key: Seq<char>) -> bool {
    match key_index(old, key) {
        Some(i) => new.len() == old.len() && new[i].0 == old[i].0 && (forall|j: int|
            0 <= j < old.len() && j != i ==> #[trigger] new[j] == old[j]),
        None => new.len() == old.len() + 1 && new.drop_last() == old && new.last().0@ == key,
    }
}

/// The members of an object; none for any other value.
pub open spec fn members_of(v: Json) -> Seq<(String, Json)> {
    match v {
        Json::Object(ms) => ms@,
        _ => Seq::empty(),
    }
}

/// The items of an array; none for any other value.
pub open spec fn items_of(v: Json) -> Seq<Json> {
    match v {
        Json::Array(a) => a@,
        _ => Seq::empty(),
    }
}

/// `hook["command"].as_str().unwrap_or_default()`.
pub open spec fn command_of(hook: Json) -> Seq<char> {
    match as_str(field(hook, "command"@)) {
        Some(s) => s,
        None => Seq::empty(),
    }
}

/// A settings entry one of whose hooks runs this project's hook binary.
pub open spec fn mentions_truncus_of(entry: Json) -> bool {
    match field(entry, "hooks"@) {
        Json::Array(hooks) => exists|i: int|
            0 <= i < hooks@.len() && contains_text(#[trigger] command_of(hooks@[i]), "truncus-hook"@),
        _ => false,
    }
}

/// The entries that do not run this project's hook binary, in order.
pub open spec fn foreign_entries(es: Seq<Json>) -> Seq<Json>
    decreases es.len(),
{
    if es.len() == 0 {
        Seq::empty()
    } else if mentions_truncus_of(es.last()) {
        foreign_entries(es.drop_last())
    } else {
        foreign_entries(es.drop_last()).push(es.last())
    }
}

/// `{"hooks": [{"type": "command", "command": command}]}`, with `"matcher": m` after it
/// when a matcher `m` is given.
pub open spec fn is_hook_entry(e: Json, matcher: Option<Seq<char>>, command: Seq<char>) -> bool {
    &&& e matches Json::Object(ms)
    &&& ms@.len() == if matcher is Some { 2int } else { 1int }
    &&& ms@[0].0@ == "hooks"@
    &&& ms@[0].1 matches Json::Array(hooks)
    &&& hooks@.len() == 1
    &&& hooks@[0] matches Json::Object(h)
    &&& h@.len() == 2
    &&& h@[0].0@ == "type"@
    &&& h@[0].1 matches Json::Str(t) && t@ == "command"@
    &&& h@[1].0@ == "command"@
    &&& h@[1].1 matches Json::Str(c) && c@ == command
    &&& matcher matches Some(m) ==> ms@[1].0@ == "matcher"@ && (ms@[1].1 matches Json::Str(x) && x@ == m)
}

/// The hook list of an event after registration: the entries that did not run this
/// project's hook binary, in order, then the new entry.
pub open spec fn is_event_list(v: Json, old_entries: Seq<Json>, matcher: Option<Seq<char>>, command: Seq<char>) -> bool {
    &&& v matches Json::Array(es)
    &&& es@.len() == foreign_entries(old_entries).len() + 1
    &&& es@.drop_last() == foreign_entries(old_entries)
    &&& is_hook_entry(es@.last(), matcher, command)
}

/// The hooks object of the settings after registration of `command` for `event`.
pub open spec fn is_hooks_object(v: Json, old_hooks: Json, event: Seq<char>, matcher: Option<Seq<char>>, command: Seq<char>) -> bool {
    let old_members = match old_hooks {
        Json::Object(hs) => hs@,
        _ => Seq::empty(),
    };
    let old_entries = match lookup(old_members, event) {
        Some(list) => items_of(list),
        None => Seq::empty(),
    };
    &&& v matches Json::Object(hs)
    &&& member_replaced(old_members, hs@, event)
    &&& lookup(hs@, event) matches Some(list) && is_event_list(list, old_entries, matcher, command)
}

/// The settings after registration of `command` for `event`: the `hooks` member, made an
/// object if it was not one, has the event's list, made an array if it was not one, cleared
/// of this project's earlier entries and ended with the new one; nothing else changes.
pub open spec fn hook_upserted(old: Json, new: Json, event: Seq<char>, matcher: Option<Seq<char>>, command: Seq<char>) -> bool {
    &&& new matches Json::Object(ms)
    &&& member_replaced(members_of(old), ms@, "hooks"@)
    &&& lookup(ms@, "hooks"@) matches Some(h) && is_hooks_object(h, field(old, "hooks"@), event, matcher, command)
}

/// Whether some hook of the entry runs this project's hook binary.
pub fn mentions_truncus(entry: &Json) -> (r: bool)
    ensures
        r == mentions_truncus_of(*entry),
{
    match get(entry, "hooks") {
        Some(Json::Array(hooks)) => {
            let mut i: usize = 0;
            while i < hooks.len()
                invariant
                    i <= hooks@.len(),
                    field(*entry, "hooks"@) == Json::Array(*hooks),
                    forall|j: int| 0 <= j < i ==> !contains_text(#[trigger] command_of(hooks@[j]), "truncus-hook"@),
                decreases hooks.len() - i,
            {
                let cmd = match get_str(&hooks[i], "command") {
                    Some(s) => s,
                    None => String::new(),
                };
                assert(cmd@ == command_of(hooks@[i as int]));
                if contains_str(cmd.as_str(), "truncus-hook") {
                    assert(mentions_truncus_of(*entry)) by {
                        let h = field(*entry, "hooks"@);
                        assert(h == Json::Array(*hooks));
                        let hs: Vec<Json> = *hooks;
                        assert(contains_text(command_of(hs@[i as int]), "truncus-hook"@));
                        assert(match h { Json::Array(hs2) => hs2 == hs, _ => false });
                        assert(match h { Json::Array(hs2) => exists|k: int| 0 <= k < hs2@.len() && contains_text(#[trigger] command_of(hs2@[k]), "truncus-hook"@), _ => false });
                    }
                    return true;
                }
                i = i + 1;
            }
            false
        },
        _ => false,
    }
}

/// The index of the first member named `key`.
fn find_member(ms: &Vec<(String, Json)>, key: &str) -> (r: Option<usize>)
    ensures
        match r {
            Some(i) => key_index(ms@, key@) == Some(i as int),
            None => key_index(ms@, key@) is None,
        },
{
    proof {
        lemma_key_index(ms@, key@);
    }
    let mut i: usize = 0;
    while i < ms.len()
        invariant
            i <= ms@.len(),
            forall|j: int| 0 <= j < i ==> #[trigger] ms@[j].0@ != key@,
        decreases ms.len() - i,
    {
        if same_text(ms[i].0.as_str(), key) {
            assert(ms@[i as int].0@ == key@);
            proof {
                lemma_key_index(ms@, key@);
                if let Some(k) = key_index(ms@, key@) {
                    if k > i {
                        assert(ms@[i as int].0@ != key@);
                    }
                }
            }
            return Some(i);
        }
        i = i + 1;
    }
    None
}

/// The first index of `key` after an in-place replacement or an append.
proof fn lemma_replaced_lookup(old: Seq<(String, Json)>, new: Seq<(String, Json)>, key: Seq<char>)
    requires
        member_replaced(old, new, key),
    ensures
        match key_index(old, key) {
            Some(i) => lookup(new, key) == Some(new[i].1),
            None => lookup(new, key) == Some(new.last().1),
        },
{
    lemma_key_index(old, key);
    lemma_key_index(new, key);
    match key_index(old, key) {
        Some(i) => {
            assert(forall|j: int| 0 <= j < i ==> #[trigger] new[j] == old[j]);
            match key_index(new, key) {
                Some(k) => {
                    if k < i {
                        assert(new[k] == old[k]);
                    }
                    if i < k {
                        assert(new[i].0@ == key);
                    }
                },
                None => {
                    assert(new[i].0@ == key);
                },
            }
        },
        None => {
            let n = old.len() as int;
            assert(forall|j: int| 0 <= j < n ==> #[trigger] new[j] == old[j]) by {
                assert forall|j: int| 0 <= j < n implies #[trigger] new[j] == old[j] by {
                    assert(new.drop_last()[j] == new[j]);
                }
            }
            match key_index(new, key) {
                Some(k) => {
                    if k < n {
                        assert(new[k] == old[k]);
                    }
                },
                None => {
                    assert(new[n].0@ == key);
                },
            }
        },
    }
}

/// Sets the member `key` of `ms` to `value` in place, or appends it.
fn put_member(ms: &mut Vec<(String, Json)>, at: Option<usize>, key: &str, value: Json)
    requires
        match at {
            Some(i) => key_index(old(ms)@, key@) == Some(i as int),
            None => key_index(old(ms)@, key@) is None,
        },
    ensures
        member_replaced(old(ms)@, final(ms)@, key@),
        lookup(final(ms)@, key@) == Some(value),
{
    proof {
        lemma_key_index(old(ms)@, key@);
    }
    match at {
        Some(i) => {
            let (name, _) = ms.remove(i);
            ms.insert(i, (name, value));
            assert(ms@ =~= old(ms)@.update(i as int, (old(ms)@[i as int].0, value)));
        },
        None => {
            ms.push((key.to_owned(), value));
            assert(ms@.drop_last() =~= old(ms)@);
        },
    }
    proof {
        lemma_replaced_lookup(old(ms)@, ms@, key@);
    }
}

/// Takes the value of the member `key` out of `ms`, leaving `null` in its place.
fn take_member(ms: &mut Vec<(String, Json)>, at: Option<usize>) -> (v: Json)
    requires
        at matches Some(i) ==> i < old(ms)@.len(),
    ensures
        match at {
            Some(i) => v == old(ms)@[i as int].1 && final(ms)@ == old(ms)@.update(
                i as int,
                (old(ms)@[i as int].0, Json::Null),
            ),
            None => v == Json::Null && final(ms)@ == old(ms)@,
        },
{
    match at {
        Some(i) => {
            let (name, value) = ms.remove(i);
            ms.insert(i, (name, Json::Null));
            assert(ms@ =~= old(ms)@.update(i as int, (old(ms)@[i as int].0, Json::Null)));
            value
        },
        None => Json::Null,
    }
}

/// The entries that do not run this project's hook binary, in order.
fn keep_foreign(entries: Vec<Json>) -> (r: Vec<Json>)
    ensures
        r@ == foreign_entries(entries@),
{
    let mut rest = entries;
    let ghost all = rest@;
    let mut kept: Vec<Json> = Vec::new();
    let ghost mut i: int = 0;
    assert(all.take(0) =~= Seq::<Json>::empty());
    while rest.len() > 0
        invariant
            0 <= i <= all.len(),
            rest@ == all.skip(i),
            kept@ == foreign_entries(all.take(i)),
        decreases rest.len(),
    {
        let e = rest.remove(0);
        assert(e == all[i]);
        assert(all.take(i + 1).drop_last() =~= all.take(i));
        assert(all.take(i + 1).last() == all[i]);
        if !mentions_truncus(&e) {
            kept.push(e);
        }
        proof {
            i = i + 1;
        }
        assert(rest@ =~= all.skip(i));
    }
    assert(all.take(i) =~= all);
    kept
}

/// `{"hooks": [{"type": "command", "command": command}], "matcher": m}`.
fn hook_entry(matcher: Option<&str>, command: String) -> (e: Json)
    ensures
        is_hook_entry(
            e,
            match matcher {
                Some(m) => Some(m@),
                None => None,
            },
            command@,
        ),
{
    let mut hook: Vec<(String, Json)> = Vec::new();
    hook.push(("type".to_owned(), Json::Str("command".to_owned())));
    hook.push(("command".to_owned(), Json::Str(command)));
    let mut hooks: Vec<Json> = Vec::new();
    hooks.push(Json::Object(hook));
    let mut entry: Vec<(String, Json)> = Vec::new();
    entry.push(("hooks".to_owned(), Json::Array(hooks)));
    match matcher {
        Some(m) => {
            entry.push(("matcher".to_owned(), Json::Str(m.to_owned())));
        },
        None => {},
    }
    Json::Object(entry)
}

/// Registers `command` for `event` (run only for sessions matching `matcher`, when given)
/// in the settings document, replacing any earlier entry that ran this project's hook
/// binary. The settings must be an object or `null`, as a settings file holds.
pub fn upsert_hook(settings: &mut Json, event: &str, matcher: Option<&str>, command: String)
    requires
        *old(settings) is Object || *old(settings) is Null,
    ensures
        hook_upserted(
            *old(settings),
            *final(settings),
            event@,
            match matcher {
                Some(m) => Some(m@),
                None => None,
            },
            command@,
        ),
{
    let ghost matcher_v = match matcher {
        Some(m) => Some(m@),
        None => None,
    };
    let mut whole = Json::Null;
    std::mem::swap(&mut whole, settings);
    let ghost before_call = whole;
    let mut members = match whole {
        Json::Object(ms) => ms,
        _ => Vec::new(),
    };
    assert(members@ == members_of(before_call));
    proof {
        lemma_key_index(members@, "hooks"@);
    }
    let at_hooks = find_member(&members, "hooks");
    let ghost before = members@;
    let hooks = take_member(&mut members, at_hooks);
    assert(hooks == field(before_call, "hooks"@));
    let mut hook_members = match hooks {
        Json::Object(hs) => hs,
        _ => Vec::new(),
    };
    let ghost old_hook_members = hook_members@;
    proof {
        lemma_key_index(hook_members@, event@);
    }
    let at_event = find_member(&hook_members, event);
    let list = take_member(&mut hook_members, at_event);
    let ghost old_entries = match lookup(old_hook_members, event@) {
        Some(l) => items_of(l),
        None => Seq::<Json>::empty(),
    };
    let entries = match list {
        Json::Array(es) => es,
        _ => Vec::new(),
    };
    assert(entries@ == old_entries);
    let mut new_entries = keep_foreign(entries);
    new_entries.push(hook_entry(matcher, command));
    assert(new_entries@.drop_last() =~= foreign_entries(old_entries));
    proof {
        assert forall|j: int| 0 <= j < hook_members@.len() implies #[trigger] hook_members@[j].0
            == old_hook_members[j].0 by {}
        lemma_key_index_names(hook_members@, old_hook_members, event@);
    }
    let ghost mid = hook_members@;
    put_member(&mut hook_members, at_event, event, Json::Array(new_entries));
    assert(member_replaced(old_hook_members, hook_members@, event@)) by {
        match key_index(old_hook_members, event@) {
            Some(k) => {
                assert forall|j: int| 0 <= j < old_hook_members.len() && j != k implies
                    #[trigger] hook_members@[j] == old_hook_members[j] by {
                    assert(hook_members@[j] == mid[j]);
                }
            },
            None => {
                assert(mid =~= old_hook_members);
            },
        }
    }
    let new_hooks = Json::Object(hook_members);
    proof {
        assert forall|j: int| 0 <= j < members@.len() implies #[trigger] members@[j].0
            == before[j].0 by {}
        lemma_key_index_names(members@, before, "hooks"@);
    }
    let ghost mid2 = members@;
    put_member(&mut members, at_hooks, "hooks", new_hooks);
    assert(member_replaced(before, members@, "hooks"@)) by {
        match key_index(before, "hooks"@) {
            Some(k) => {
                assert forall|j: int| 0 <= j < before.len() && j != k implies
                    #[trigger] members@[j] == before[j] by {
                    assert(members@[j] == mid2[j]);
                }
            },
            None => {
                assert(mid2 =~= before);
            },
        }
    }
    *settings = Json::Object(members);
}

/// `new` is `old` with this project's three hooks registered in turn, run by the hook
/// binary at `hook_bin`: session end, session start (on startup, resume and clear) and the
/// periodic capture on stop.
pub open spec fn hooks_registered(old: Json, new: Json, hook_bin: Seq<char>) -> bool {
    exists|a: Json, b: Json|
        hook_upserted(old, a, "SessionEnd"@, None, hook_bin + " session-end"@) && #[trigger] hook_upserted(
            a,
            b,
            "SessionStart"@,
            Some("startup|resume|clear"@),
            hook_bin + " session-start"@,
        ) && hook_upserted(b, new, "Stop"@, None, hook_bin + " capture"@)
}

/// Registers this project's three hooks, run by the hook binary at `hook_bin`: session
/// end, session start (on startup, resume and clear) and the periodic capture on stop.
pub fn register_hooks(settings: &mut Json, hook_bin: &str)
    requires
        *old(settings) is Object || *old(settings) is Null,
    ensures
        hooks_registered(*old(settings), *final(settings), hook_bin@),
{
    upsert_hook(settings, "SessionEnd", None, concat(hook_bin, " session-end"));
    let ghost a = *settings;
    upsert_hook(settings, "SessionStart", Some("startup|resume|clear"), concat(hook_bin, " session-start"));
    let ghost b = *settings;
    upsert_hook(settings, "Stop", None, concat(hook_bin, " capture"));
}

/// The entries of an event's hook list in the settings.
pub open spec fn event_items(settings: Json, event: Seq<char>) -> Seq<Json> {
    match field(settings, "hooks"@) {
        Json::Object(hs) => match lookup(hs@, event) {
            Some(list) => items_of(list),
            None => Seq::empty(),
        },
        _ => Seq::empty(),
    }
}

proof fn lemma_foreign_clean(es: Seq<Json>)
    ensures
        forall|k: int| 0 <= k < foreign_entries(es).len() ==> !mentions_truncus_of(#[trigger] foreign_entries(es)[k]),
    decreases es.len(),
{
    if es.len() > 0 {
        lemma_foreign_clean(es.drop_last());
        let f = foreign_entries(es.drop_last());
        if !mentions_truncus_of(es.last()) {
            assert forall|k: int| 0 <= k < f.len() + 1 implies !mentions_truncus_of(
                #[trigger] f.push(es.last())[k],
            ) by {
                if k < f.len() {
                    assert(f.push(es.last())[k] == f[k]);
                }
            }
        }
    }
}

proof fn lemma_foreign_of_clean(es: Seq<Json>)
    requires
        forall|k: int| 0 <= k < es.len() ==> !mentions_truncus_of(#[trigger] es[k]),
    ensures
        foreign_entries(es) == es,
    decreases es.len(),
{
    if es.len() > 0 {
        lemma_foreign_of_clean(es.drop_last());
        assert(es.drop_last().push(es.last()) =~= es);
    }
}

proof fn lemma_entry_mentions_truncus(e: Json, matcher: Option<Seq<char>>, command: Seq<char>)
    requires
        is_hook_entry(e, matcher, command),
        contains_text(command, "truncus-hook"@),
    ensures
        mentions_truncus_of(e),
{
    reveal_strlit("type");
    reveal_strlit("command");
    reveal_strlit("hooks");
    if let Json::Object(ms) = e {
        assert(lookup(ms@, "hooks"@) == Some(ms@[0].1));
        if let Json::Array(hooks) = ms@[0].1 {
            if let Json::Object(h) = hooks@[0] {
                assert(h@[0].0@ == "type"@);
                assert("type"@.len() == 4);
                assert("command"@.len() == 7);
                assert(h@[0].0@ != "command"@);
                assert(h@.drop_first()[0] == h@[1]);
                assert(lookup(h@.drop_first(), "command"@) == Some(h@[1].1));
                assert(lookup(h@, "command"@) == Some(h@[1].1));
                assert(command_of(hooks@[0]) == command);
                assert(field(e, "hooks"@) == Json::Array(hooks));
                assert(contains_text(command_of(hooks@[0]), "truncus-hook"@));
            }
        }
    }
}

/// Registration law: registering this project's hook for an event a second time, with the
/// same command (one that runs the hook binary), leaves the event's hook list as the first
/// registration left it: the other tools' entries, in order, then one entry of this project.
pub proof fn lemma_register_twice(
    s0: Json,
    s1: Json,
    s2: Json,
    event: Seq<char>,
    matcher: Option<Seq<char>>,
    command: Seq<char>,
)
    requires
        hook_upserted(s0, s1, event, matcher, command),
        hook_upserted(s1, s2, event, matcher, command),
        contains_text(command, "truncus-hook"@),
    ensures
        event_items(s2, event).len() == event_items(s1, event).len(),
        event_items(s2, event).drop_last() == event_items(s1, event).drop_last(),
        event_items(s1, event).drop_last() == foreign_entries(event_items(s0, event)),
        is_hook_entry(event_items(s2, event).last(), matcher, command),
{
    let ms1 = members_of(s1);
    let h1 = lookup(ms1, "hooks"@)->0;
    assert(field(s1, "hooks"@) == h1);
    let hs1 = members_of(h1);
    let l1 = lookup(hs1, event)->0;
    let es1 = items_of(l1);
    assert(event_items(s1, event) == es1);
    let ms2 = members_of(s2);
    let h2 = lookup(ms2, "hooks"@)->0;
    assert(field(s2, "hooks"@) == h2);
    let hs2 = members_of(h2);
    let l2 = lookup(hs2, event)->0;
    let es2 = items_of(l2);
    assert(event_items(s2, event) == es2);
    let old0 = match field(s0, "hooks"@) {
        Json::Object(hs) => match lookup(hs@, event) {
            Some(list) => items_of(list),
            None => Seq::empty(),
        },
        _ => Seq::empty(),
    };
    assert(event_items(s0, event) == old0);
    lemma_entry_mentions_truncus(es1.last(), matcher, command);
    assert(es1.drop_last().push(es1.last()) =~= es1);
    assert(foreign_entries(es1) == foreign_entries(es1.drop_last()));
    lemma_foreign_clean(old0);
    lemma_foreign_of_clean(foreign_entries(old0));
}

/// The text of a file, if there is one.
pub open spec fn file_view(text: Option<&str>) -> Option<Seq<char>> {
    match text {
        Some(t) => Some(t@),
        None => None,
    }
}

/// The settings a registration starts from, given the text of the settings file if there is
/// one: the document it holds when it reads as JSON, else an empty object.
pub open spec fn settings_start(current: Option<Seq<char>>, s: Json) -> bool {
    match current {
        Some(text) => match json_value(text) {
            Some(v) => s == v,
            None => s matches Json::Object(ms) && ms@.len() == 0,
        },
        None => s matches Json::Object(ms) && ms@.len() == 0,
    }
}

/// The settings file can take the hooks: it is absent, unreadable as JSON, or holds an object
/// or `null`.
pub open spec fn settings_usable(current: Option<Seq<char>>) -> bool {
    match current {
        Some(text) => match json_value(text) {
            Some(v) => v is Object || v is Null,
            None => true,
        },
        None => true,
    }
}

/// The new text of the settings file, given its current text if there is one: its document
/// (an empty object when it is absent or not JSON) with this project's hooks registered,
/// written out pretty-printed; nothing when the document is neither an object nor `null`.
pub fn updated_settings(current: Option<&str>, hook_bin: &str) -> (r: Option<String>)
    ensures
        r is Some <==> settings_usable(file_view(current)),
        r matches Some(out) ==> exists|s0: Json, s: Json|
            #![trigger settings_start(file_view(current), s0), hooks_registered(s0, s, hook_bin@)]
            settings_start(file_view(current), s0) && hooks_registered(s0, s, hook_bin@) && out@ == pretty_json(s),
{
    let ghost cur = file_view(current);
    let mut settings = match current {
        Some(text) => match parse_json(text) {
            Some(v) => v,
            None => Json::Object(Vec::new()),
        },
        None => Json::Object(Vec::new()),
    };
    assert(settings_start(cur, settings));
    let ghost s0 = settings;
    match settings {
        Json::Object(_) => {},
        Json::Null => {},
        _ => {
            return None;
        },
    }
    register_hooks(&mut settings, hook_bin);
    let out = to_pretty_json(&settings);
    assert(settings_start(cur, s0) && hooks_registered(s0, settings, hook_bin@) && out@ == pretty_json(settings));
    Some(out)
}

} // verus!
