//! The finished image description handed to the container engine.

use crate::env::EnvVars;
use vstd::prelude::*;

verus! {

/// What an image description holds, as mathematical values.
pub struct ImageView {
    pub version: Seq<char>,
    pub user: Seq<char>,
    pub pass: Seq<char>,
    pub env: Map<Seq<char>, Seq<char>>,
}

/// The Neo4j image: name, tag, credentials, environment and readiness markers.
#[derive(Clone, Debug, PartialEq, Eq)]
pub struct Neo4jImage {
    version: String,
    user: String,
    pass: String,
    env_vars: EnvVars,
}

impl View for Neo4jImage {
    type V = ImageView;

    closed spec fn view(&self) -> ImageView {
        ImageView {
            version: self.version@,
            user: self.user@,
            pass: self.pass@,
            env: self.env_vars@,
        }
    }
}

impl Neo4jImage {
    /// The environment mapping is well formed.
    pub closed spec fn wf(&self) -> bool {
        self.env_vars.wf()
    }

    pub(crate) fn new(version: String, user: String, pass: String, env_vars: EnvVars) -> (r: Self)
        requires
            env_vars.wf(),
        ensures
            r.wf(),
            r@ == (ImageView { version: version@, user: user@, pass: pass@, env: env_vars@ }),
    {
        Neo4jImage { version, user, pass, env_vars }
    }

    /// Returns the version of the Neo4j image.
    pub fn version(&self) -> (r: &str)
        ensures
            r@ == self@.version,
    {
        self.version.as_str()
    }

    /// Returns the user of the Neo4j server.
    pub fn user(&self) -> (r: &str)
        ensures
            r@ == self@.user,
    {
        self.user.as_str()
    }

    /// Returns the password of the Neo4j server.
    pub fn pass(&self) -> (r: &str)
        ensures
            r@ == self@.pass,
    {
        self.pass.as_str()
    }

    /// The name of the image to pull.
    pub fn name(&self) -> (r: String)
        ensures
            r@ == "neo4j"@,
    {
        "neo4j".to_owned()
    }

    /// The tag of the image to pull: its version.
    pub fn tag(&self) -> (r: String)
        ensures
            r@ == self@.version,
    {
        self.version.clone()
    }

    /// The messages that must appear on the container's standard output, in
    /// this order, before it is ready.
    pub fn ready_messages(&self) -> (r: Vec<String>)
        ensures
            r@.len() == 2,
            r@[0]@ == "Bolt enabled on"@,
            r@[1]@ == "Started."@,
    {
        let mut r: Vec<String> = Vec::new();
        r.push("Bolt enabled on".to_owned());
        r.push("Started.".to_owned());
        r
    }

    /// The environment variables of the container.
    pub fn env_vars(&self) -> (r: &EnvVars)
        requires
            self.wf(),
        ensures
            r.wf(),
            r@ == self@.env,
    {
        &self.env_vars
    }
}

} // verus!
