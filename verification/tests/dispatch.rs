use obslog::dispatch::build_request;
use obslog::dispatch::dispatch;
use obslog::dispatch::Command;
use obslog::dispatch::Effect;
use obslog::settings::bootstrap;
use obslog::settings::Settings;
use obslog::settings::StoredSettings;

fn with_key(key: &str, target: &str) -> Settings {
    Settings {
        api_key: Some(key.to_string()),
        target_file: target.to_string(),
    }
}

#[test]
fn log_without_key_sends_nothing() {
    let step = dispatch(bootstrap(None), Command::Log { body: "note".to_string() });
    assert!(!step.persist);
    match step.action {
        Effect::Print(m) => {
            assert_eq!(m, "You need to set your api key with $ obs key <API_KEY>");
        }
        _ => panic!("log without a key must only print the remediation hint"),
    }
}

#[test]
fn log_with_key_builds_exactly_one_post() {
    let step = dispatch(
        with_key("secret", "/periodic/daily/"),
        Command::Log { body: "note text".to_string() },
    );
    assert!(!step.persist);
    match step.action {
        Effect::Send(req) => {
            assert_eq!(req.url, "http://127.0.0.1:27123/periodic/daily/");
            assert_eq!(req.authorization, "Bearer secret");
            assert_eq!(req.accept, "*/*");
            assert_eq!(req.content_type, "text/markdown");
            assert_eq!(req.body, "note text");
            assert_eq!(req.target, "/periodic/daily/");
            assert_eq!(req.timeout_secs, 3);
        }
        _ => panic!("log with a key must send"),
    }
}

#[test]
fn build_request_fields() {
    let req = build_request("k", "hello".to_string(), "/vault/a");
    assert_eq!(req.url, "http://127.0.0.1:27123/vault/a");
    assert_eq!(req.authorization, "Bearer k");
    assert_eq!(req.accept, "*/*");
    assert_eq!(req.content_type, "text/markdown");
    assert_eq!(req.body, "hello");
    assert_eq!(req.target, "/vault/a");
    assert_eq!(req.timeout_secs, 3);
}

#[test]
fn key_command_overwrites_and_persists() {
    let step = dispatch(
        with_key("old", "/vault/inbox"),
        Command::Key { api_key: "new".to_string() },
    );
    assert!(step.persist);
    assert_eq!(step.settings.api_key.as_deref(), Some("new"));
    assert_eq!(step.settings.target_file, "/vault/inbox");
    match step.action {
        Effect::Print(m) => assert_eq!(m, "Key saved"),
        _ => panic!("key command only prints"),
    }
}

#[test]
fn target_command_resolves_persists_and_echoes() {
    let step = dispatch(
        bootstrap(None),
        Command::Target { target_file: "my notes/Idea #1".to_string() },
    );
    assert!(step.persist);
    assert_eq!(step.settings.target_file, "/vault/my%20notes/Idea%20%231");
    match step.action {
        Effect::Print(m) => assert_eq!(m, "/vault/my notes/Idea #1 set to target file"),
        _ => panic!("target command only prints"),
    }
}

#[test]
fn target_command_shorthand() {
    let step = dispatch(
        bootstrap(None),
        Command::Target { target_file: "quarterly".to_string() },
    );
    assert!(step.persist);
    assert_eq!(step.settings.target_file, "/periodic/quarterly/");
    match step.action {
        Effect::Print(m) => assert_eq!(m, "/periodic/quarterly/ set to target file"),
        _ => panic!("target command only prints"),
    }
}

#[test]
fn get_target_prints_decoded() {
    let step = dispatch(
        with_key("k", "/vault/my%20notes"),
        Command::GetTarget,
    );
    assert!(!step.persist);
    match step.action {
        Effect::Print(m) => assert_eq!(m, "/vault/my notes"),
        _ => panic!("get-target only prints"),
    }
}

#[test]
fn get_target_fails_on_undecodable_store() {
    let step = dispatch(with_key("k", "/vault/%FF"), Command::GetTarget);
    assert!(matches!(step.action, Effect::FailDecode));
}

#[test]
fn log_after_target_uses_the_new_target() {
    let step = dispatch(
        with_key("k", "/periodic/daily/"),
        Command::Target { target_file: "a b".to_string() },
    );
    let step = dispatch(step.settings, Command::Log { body: "x".to_string() });
    match step.action {
        Effect::Send(req) => {
            assert_eq!(req.url, "http://127.0.0.1:27123/vault/a%20b");
            assert_eq!(req.target, "/vault/a%20b");
        }
        _ => panic!("log with a key must send"),
    }
}

#[test]
fn key_and_target_survive_a_simulated_reload() {
    let step = dispatch(
        bootstrap(None),
        Command::Target { target_file: "notes/today".to_string() },
    );
    assert!(step.persist);
    let step = dispatch(step.settings, Command::Key { api_key: "abc".to_string() });
    assert!(step.persist);
    // A fresh load of exactly the saved entries reflects both values.
    let reloaded = bootstrap(Some(StoredSettings {
        api_key: step.settings.api_key.clone(),
        target_file: Some(step.settings.target_file.clone()),
    }));
    assert_eq!(reloaded.api_key.as_deref(), Some("abc"));
    assert_eq!(reloaded.target_file, "/vault/notes/today");
}
