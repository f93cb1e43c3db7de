use truncus::install::{mentions_truncus, register_hooks, upsert_hook};
use truncus::json::{get, Json};

fn s(v: &str) -> Json {
    Json::Str(v.to_string())
}

fn obj(members: Vec<(&str, Json)>) -> Json {
    Json::Object(members.into_iter().map(|(k, v)| (k.to_string(), v)).collect())
}

fn entry(command: &str) -> Json {
    obj(vec![("hooks", Json::Array(vec![obj(vec![("type", s("command")), ("command", s(command))])]))])
}

fn event_list<'a>(settings: &'a Json, event: &str) -> &'a Vec<Json> {
    match get(get(settings, "hooks").unwrap(), event) {
        Some(Json::Array(items)) => items,
        other => panic!("no list for {event}: {other:?}"),
    }
}

#[test]
fn mentions_only_this_projects_hook() {
    assert!(mentions_truncus(&entry("/usr/bin/truncus-hook session-end")));
    assert!(!mentions_truncus(&entry("/usr/bin/other-tool")));
    assert!(!mentions_truncus(&obj(vec![("hooks", s("truncus-hook"))])));
    assert!(!mentions_truncus(&Json::Null));
    let no_command = obj(vec![("hooks", Json::Array(vec![obj(vec![("type", s("command"))])]))]);
    assert!(!mentions_truncus(&no_command));
}

#[test]
fn upsert_into_empty_settings() {
    let mut settings = Json::Null;
    upsert_hook(&mut settings, "SessionStart", Some("startup|resume|clear"), "/b/truncus-hook session-start".to_string());
    let expected = obj(vec![(
        "hooks",
        obj(vec![(
            "SessionStart",
            Json::Array(vec![obj(vec![
                ("hooks", Json::Array(vec![obj(vec![("type", s("command")), ("command", s("/b/truncus-hook session-start"))])])),
                ("matcher", s("startup|resume|clear")),
            ])]),
        )]),
    )]);
    assert_eq!(settings, expected);
}

#[test]
fn upsert_replaces_old_entry_and_keeps_others() {
    let mut settings = obj(vec![
        ("theme", s("dark")),
        ("hooks", obj(vec![
            ("Stop", Json::Array(vec![entry("/old/truncus-hook capture"), entry("notify-send done")])),
            ("Other", Json::Array(vec![])),
        ])),
    ]);
    upsert_hook(&mut settings, "Stop", None, "/new/truncus-hook capture".to_string());
    let list = event_list(&settings, "Stop");
    assert_eq!(list, &vec![entry("notify-send done"), entry("/new/truncus-hook capture")]);
    assert_eq!(get(&settings, "theme"), Some(&s("dark")));
    assert_eq!(get(get(&settings, "hooks").unwrap(), "Other"), Some(&Json::Array(vec![])));
}

#[test]
fn non_object_hooks_are_replaced() {
    let mut settings = obj(vec![("hooks", s("broken"))]);
    upsert_hook(&mut settings, "Stop", None, "truncus-hook capture".to_string());
    assert_eq!(event_list(&settings, "Stop"), &vec![entry("truncus-hook capture")]);
    let mut settings = obj(vec![("hooks", obj(vec![("Stop", s("broken"))]))]);
    upsert_hook(&mut settings, "Stop", None, "truncus-hook capture".to_string());
    assert_eq!(event_list(&settings, "Stop"), &vec![entry("truncus-hook capture")]);
}

#[test]
fn registering_twice_keeps_one_entry_per_hook() {
    let mut settings = obj(vec![("hooks", obj(vec![("Stop", Json::Array(vec![entry("notify-send done")]))]))]);
    register_hooks(&mut settings, "/bin/truncus-hook");
    let once = format!("{settings:?}");
    register_hooks(&mut settings, "/bin/truncus-hook");
    assert_eq!(format!("{settings:?}"), once);
    assert_eq!(event_list(&settings, "SessionEnd"), &vec![entry("/bin/truncus-hook session-end")]);
    assert_eq!(event_list(&settings, "Stop"), &vec![entry("notify-send done"), entry("/bin/truncus-hook capture")]);
    assert_eq!(event_list(&settings, "SessionStart").len(), 1);
}
