use raddex::config::answers::Answers;
use raddex::config::compiled::CompiledConfig;
use raddex::config::expand::{ImportOutcome, ImportedFile, Sources};
use raddex::config::snapshot::{build, reload, BuildFailure, ConfigStore};

const TWO_SITES: &str =
    "api.example.com {\n    reverse_proxy 127.0.0.1:8080\n}\n:8080 {\n    respond 200 ok\n}\n";

fn snapshot(text: &str) -> CompiledConfig {
    match build("Raddexfile", Ok(text), &Sources::none(), &Answers::none()) {
        Ok(c) => c,
        Err(_) => panic!("a configuration"),
    }
}

#[test]
fn store_swap_is_visible() {
    let store = ConfigStore::new(snapshot(TWO_SITES));
    let a = store.load();
    assert_eq!(a.sites.len(), 2);

    store.store(snapshot(TWO_SITES));
    assert_eq!(store.load().sites.len(), 2);

    store.store(snapshot(":9090 {\n    respond 200 ok\n}\n"));
    assert_eq!(store.load().sites.len(), 1);
    // What was loaded before stays as it was.
    assert_eq!(a.sites.len(), 2);
}

#[test]
fn failed_reload_changes_nothing() {
    let store = ConfigStore::new(snapshot(TWO_SITES));
    assert!(reload(&store, "f", Ok("{"), &Sources::none(), &Answers::none()).is_err());
    assert_eq!(store.load().sites.len(), 2);
    let one = ":9090 {\n    respond 200 ok\n}\n";
    assert!(reload(&store, "f", Ok(one), &Sources::none(), &Answers::none()).is_ok());
    assert_eq!(store.load().sites.len(), 1);
}

#[test]
fn unreadable_files_are_reported() {
    let failure = build(
        "Raddexfile",
        Err("No such file or directory"),
        &Sources::none(),
        &Answers::none(),
    );
    match failure {
        Err(BuildFailure::Config(e)) => assert_eq!(
            e.describe(),
            "failed to read config file Raddexfile: No such file or directory"
        ),
        _ => panic!("an I/O error"),
    }
}

#[test]
fn missing_answers_are_asked_for() {
    let none = Answers::none();
    let text = "import other\n";
    assert!(matches!(
        build("Raddexfile", Ok(text), &Sources::none(), &none),
        Err(BuildFailure::NeedsImport { target, .. }) if target == "other"
    ));
    let mut sources = Sources::none();
    sources.imports.push(ImportedFile {
        file: "Raddexfile".to_string(),
        target: "other".to_string(),
        outcome: ImportOutcome::Read {
            path: "/etc/other".to_string(),
            text: TWO_SITES.to_string(),
        },
    });
    match build("Raddexfile", Ok(text), &sources, &none) {
        Ok(c) => assert_eq!(c.sites.len(), 2),
        Err(_) => panic!("a configuration"),
    }
    let by_name = ":80 {\n    reverse_proxy db.internal:5432\n}\n";
    assert!(matches!(
        build("Raddexfile", Ok(by_name), &Sources::none(), &none),
        Err(BuildFailure::NeedsHost { host, port: 5432 }) if host == "db.internal"
    ));
    let with_ca = ":80 {\n    reverse_proxy {\n        to https://127.0.0.1:1\n        tls_ca /ca.pem\n    }\n}\n";
    assert!(matches!(
        build("Raddexfile", Ok(with_ca), &Sources::none(), &none),
        Err(BuildFailure::NeedsCertificate { path }) if path == "/ca.pem"
    ));
}

#[test]
fn topology_is_the_set_of_site_ports() {
    let c = snapshot("a.test:80 {\n    respond 200 ok\n}\nb.test:80 {\n    respond 200 ok\n}\n:9000 {\n    respond 200 ok\n}\n");
    let ports: Vec<u16> = c.listeners().into_iter().collect();
    assert_eq!(ports, vec![80, 9000]);
}
