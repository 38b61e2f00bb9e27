//! Configuration of a Neo4j container image for integration tests: the
//! builder, the environment that it derives, and the connection URIs.

pub mod env;
pub mod image;
pub mod laws;
pub mod neo4j;
pub mod plugin;
pub mod text;

pub use env::EnvVars;
pub use image::Neo4jImage;
pub use neo4j::{EnvOverrides, Neo4j};
pub use plugin::Neo4jLabsPlugin;
