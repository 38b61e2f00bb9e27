use neo4j_testcontainers::{Neo4j, Neo4jLabsPlugin};

#[test]
fn single_plugin_definition() {
    let neo4j = Neo4j::default()
        .with_neo4j_labs_plugin(&[Neo4jLabsPlugin::Apoc])
        .build();
    assert_eq!(
        neo4j.env_vars().get("NEO4JLABS_PLUGINS").unwrap(),
        "[\"apoc\"]"
    );
}

#[test]
fn multiple_plugin_definition() {
    let neo4j = Neo4j::default()
        .with_neo4j_labs_plugin(&[Neo4jLabsPlugin::Apoc, Neo4jLabsPlugin::Bloom])
        .build();
    assert_eq!(
        neo4j.env_vars().get("NEO4JLABS_PLUGINS").unwrap(),
        "[\"apoc\",\"bloom\"]"
    );
}

#[test]
fn multiple_wiht_plugin_calls() {
    let neo4j = Neo4j::default()
        .with_neo4j_labs_plugin(&[Neo4jLabsPlugin::Apoc])
        .with_neo4j_labs_plugin(&[Neo4jLabsPlugin::Bloom])
        .with_neo4j_labs_plugin(&[Neo4jLabsPlugin::Apoc])
        .build();
    assert_eq!(
        neo4j.env_vars().get("NEO4JLABS_PLUGINS").unwrap(),
        "[\"apoc\",\"bloom\"]"
    );
}

#[test]
fn plugin_order_does_not_matter() {
    let a = Neo4j::default()
        .with_neo4j_labs_plugin(&[Neo4jLabsPlugin::Bloom, Neo4jLabsPlugin::Apoc])
        .build();
    let b = Neo4j::default()
        .with_neo4j_labs_plugin(&[Neo4jLabsPlugin::Apoc])
        .with_neo4j_labs_plugin(&[Neo4jLabsPlugin::Bloom, Neo4jLabsPlugin::Bloom])
        .build();
    assert_eq!(
        a.env_vars().get("NEO4JLABS_PLUGINS"),
        b.env_vars().get("NEO4JLABS_PLUGINS")
    );
    assert_eq!(
        a.env_vars().get("NEO4JLABS_PLUGINS").unwrap(),
        "[\"apoc\",\"bloom\"]"
    );
}

#[test]
fn plugins_sorted_by_canonical_name() {
    let neo4j = Neo4j::default()
        .with_neo4j_labs_plugin(&[
            Neo4jLabsPlugin::Custom("zeta".to_owned()),
            Neo4jLabsPlugin::NeoSemantics,
            Neo4jLabsPlugin::GraphDataScience,
            Neo4jLabsPlugin::Streams,
            Neo4jLabsPlugin::ApocCore,
        ])
        .build();
    assert_eq!(
        neo4j.env_vars().get("NEO4JLABS_PLUGINS").unwrap(),
        "[\"apoc-core\",\"graph-data-science\",\"n10s\",\"streams\",\"zeta\"]"
    );
}

#[test]
fn custom_plugin_with_known_name_collapses() {
    let neo4j = Neo4j::default()
        .with_neo4j_labs_plugin(&[
            Neo4jLabsPlugin::Custom("apoc".to_owned()),
            Neo4jLabsPlugin::Apoc,
            Neo4jLabsPlugin::Custom("apoc".to_owned()),
        ])
        .build();
    assert_eq!(
        neo4j.env_vars().get("NEO4JLABS_PLUGINS").unwrap(),
        "[\"apoc\"]"
    );
}

#[test]
fn no_plugins_no_plugin_variable() {
    let neo4j = Neo4j::default().build();
    assert_eq!(neo4j.env_vars().get("NEO4JLABS_PLUGINS"), None);
    let neo4j = Neo4j::default().with_neo4j_labs_plugin(&[]).build();
    assert_eq!(neo4j.env_vars().get("NEO4JLABS_PLUGINS"), None);
}

#[test]
fn plugin_names() {
    assert_eq!(Neo4jLabsPlugin::Apoc.name(), "apoc");
    assert_eq!(Neo4jLabsPlugin::ApocCore.name(), "apoc-core");
    assert_eq!(Neo4jLabsPlugin::Bloom.name(), "bloom");
    assert_eq!(Neo4jLabsPlugin::Streams.name(), "streams");
    assert_eq!(Neo4jLabsPlugin::GraphDataScience.name(), "graph-data-science");
    assert_eq!(Neo4jLabsPlugin::NeoSemantics.name(), "n10s");
    assert_eq!(Neo4jLabsPlugin::Custom("my-plugin".to_owned()).name(), "my-plugin");
}

#[test]
fn sorted_names_deduplicated() {
    let plugins = vec![
        Neo4jLabsPlugin::Bloom,
        Neo4jLabsPlugin::Apoc,
        Neo4jLabsPlugin::Bloom,
        Neo4jLabsPlugin::Custom("b".to_owned()),
    ];
    assert_eq!(
        neo4j_testcontainers::plugin::sorted_plugin_names(&plugins),
        vec!["apoc".to_owned(), "b".to_owned(), "bloom".to_owned()]
    );
}
