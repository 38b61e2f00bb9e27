use neo4j_testcontainers::env::EnvVars;
use neo4j_testcontainers::neo4j::resolve;
use neo4j_testcontainers::{EnvOverrides, Neo4j};

#[test]
fn default_environment() {
    let image = Neo4j::default().build();
    let env = image.env_vars();
    assert_eq!(env.len(), 2);
    assert_eq!(env.get("NEO4J_AUTH").unwrap(), "neo4j/neo");
    assert_eq!(
        env.get("NEO4J_dbms_security_auth__minimum__password__length").unwrap(),
        "3"
    );
    assert_eq!(image.user(), "neo4j");
    assert_eq!(image.pass(), "neo");
    assert_eq!(image.version(), "5");
}

#[test]
fn long_password_only_auth() {
    let image = Neo4j::from_auth_and_version("5", "u", "longpassword123").build();
    let env = image.env_vars();
    assert_eq!(env.len(), 1);
    assert_eq!(env.get("NEO4J_AUTH").unwrap(), "u/longpassword123");
    assert_eq!(
        env.get("NEO4J_dbms_security_auth__minimum__password__length"),
        None
    );
}

#[test]
fn password_length_boundary() {
    let seven = Neo4j::from_auth_and_version("5", "u", "1234567").build();
    assert_eq!(
        seven
            .env_vars()
            .get("NEO4J_dbms_security_auth__minimum__password__length")
            .unwrap(),
        "7"
    );
    let eight = Neo4j::from_auth_and_version("5", "u", "12345678").build();
    assert_eq!(
        eight
            .env_vars()
            .get("NEO4J_dbms_security_auth__minimum__password__length"),
        None
    );
    let empty = Neo4j::from_auth_and_version("5", "u", "").build();
    assert_eq!(
        empty
            .env_vars()
            .get("NEO4J_dbms_security_auth__minimum__password__length")
            .unwrap(),
        "0"
    );
    assert_eq!(empty.env_vars().get("NEO4J_AUTH").unwrap(), "u/");
}

#[test]
fn password_length_counts_bytes() {
    let image = Neo4j::from_auth_and_version("5", "u", "\u{e9}\u{e9}\u{e9}\u{e9}").build();
    assert_eq!(
        image
            .env_vars()
            .get("NEO4J_dbms_security_auth__minimum__password__length"),
        None
    );
    let image = Neo4j::from_auth_and_version("5", "u", "\u{e9}").build();
    assert_eq!(
        image
            .env_vars()
            .get("NEO4J_dbms_security_auth__minimum__password__length")
            .unwrap(),
        "2"
    );
}

#[test]
fn explicit_settings_carried_over() {
    let image = Neo4j::from_auth_and_version("4.4", "admin", "secretpass").build();
    assert_eq!(image.version(), "4.4");
    assert_eq!(image.user(), "admin");
    assert_eq!(image.pass(), "secretpass");
    assert_eq!(image.tag(), "4.4");
    assert_eq!(image.name(), "neo4j");
    assert_eq!(
        image.ready_messages(),
        vec!["Bolt enabled on".to_owned(), "Started.".to_owned()]
    );
}

#[test]
fn overrides_take_precedence_over_fallbacks() {
    let overrides = EnvOverrides {
        user: Some("env-user".to_owned()),
        pass: None,
        version: Some("5.1".to_owned()),
    };
    let image = Neo4j::from_env(&overrides).build();
    assert_eq!(image.user(), "env-user");
    assert_eq!(image.pass(), "neo");
    assert_eq!(image.version(), "5.1");
    let image = Neo4j::from_version("4.3", &overrides).build();
    assert_eq!(image.version(), "4.3");
    assert_eq!(image.user(), "env-user");
    assert_eq!(image.env_vars().get("NEO4J_AUTH").unwrap(), "env-user/neo");
}

#[test]
fn resolve_precedence() {
    let env = Some("env".to_owned());
    assert_eq!(resolve(Some("explicit".to_owned()), &env, "fallback"), "explicit");
    assert_eq!(resolve(None, &env, "fallback"), "env");
    assert_eq!(resolve(None, &None, "fallback"), "fallback");
}

#[test]
fn auth_entry_format() {
    let neo4j = Neo4j::from_auth_and_version("5", "alice", "pw");
    assert_eq!(
        neo4j.auth_env(),
        Some(("NEO4J_AUTH".to_owned(), "alice/pw".to_owned()))
    );
    assert_eq!(neo4j.plugins_env(), None);
    assert_eq!(
        neo4j.conf_env(),
        Some((
            "NEO4J_dbms_security_auth__minimum__password__length".to_owned(),
            "2".to_owned()
        ))
    );
}

#[test]
fn env_vars_keep_first_value() {
    let mut env = EnvVars::new();
    env.insert("A".to_owned(), "1".to_owned());
    env.insert("B".to_owned(), "2".to_owned());
    env.insert("A".to_owned(), "3".to_owned());
    assert_eq!(env.len(), 2);
    assert_eq!(env.get("A").unwrap(), "1");
    assert_eq!(env.get("B").unwrap(), "2");
    assert_eq!(env.get("C"), None);
    assert_eq!(
        env.entries(),
        &vec![
            ("A".to_owned(), "1".to_owned()),
            ("B".to_owned(), "2".to_owned())
        ]
    );
}
