//! The builder of a Neo4j image and the environment that it derives.

use crate::env::EnvVars;
use crate::image::{ImageView, Neo4jImage};
use crate::plugin::{sorted_names, sorted_plugin_names, texts, Neo4jLabsPlugin};
use crate::text::{decimal, decimal_text};
use vstd::prelude::*;

verus! {

/// The container port on which the server speaks Bolt.
pub const BOLT_PORT: u16 = 7687;

/// The container port on which the server speaks HTTP.
pub const HTTP_PORT: u16 = 7474;

/// The minimum password length that the server accepts by default.
pub const MIN_DEFAULT_PASSWORD_LEN: usize = 8;

/// The value of an optional string, as an optional character sequence.
pub open spec fn opt_text(o: Option<String>) -> Option<Seq<char>> {
    match o {
        Some(s) => Some(s@),
        None => None,
    }
}

/// Precedence of a setting: an explicit value, else the environment's, else
/// the fallback.
pub open spec fn pick(explicit: Option<Seq<char>>, env: Option<Seq<char>>, fallback: Seq<char>) -> Seq<char> {
    match explicit {
        Some(v) => v,
        None => match env {
            Some(v) => v,
            None => fallback,
        },
    }
}

/// Settings that the process environment overrides: the values of
/// `NEO4J_TEST_USER`, `NEO4J_TEST_PASS` and `NEO4J_VERSION_TAG`, where set.
#[derive(Clone, Debug, PartialEq, Eq, Default)]
pub struct EnvOverrides {
    pub user: Option<String>,
    pub pass: Option<String>,
    pub version: Option<String>,
}

impl EnvOverrides {
    /// No setting overridden.
    pub fn none() -> (r: Self)
        ensures
            r.user is None,
            r.pass is None,
            r.version is None,
    {
        EnvOverrides { user: None, pass: None, version: None }
    }
}

/// Resolves a setting: `explicit` if given, else `env` if given, else `fallback`.
pub fn resolve(explicit: Option<String>, env: &Option<String>, fallback: &str) -> (r: String)
    ensures
        r@ == pick(opt_text(explicit), opt_text(*env), fallback@),
{
    match explicit {
        Some(v) => v,
        None => match env {
            Some(v) => v.clone(),
            None => fallback.to_owned(),
        },
    }
}

/// The builder's settings, as mathematical values.
pub struct Neo4jView {
    pub version: Seq<char>,
    pub user: Seq<char>,
    pub pass: Seq<char>,
    pub plugins: Seq<Neo4jLabsPlugin>,
}

/// The name of the variable that holds the credentials.
pub open spec fn auth_key() -> Seq<char> {
    "NEO4J_AUTH"@
}

/// The name of the variable that lists the lab plugins.
pub open spec fn plugins_key() -> Seq<char> {
    "NEO4JLABS_PLUGINS"@
}

/// The name of the variable that lowers the minimum password length.
pub open spec fn min_len_key() -> Seq<char> {
    "NEO4J_dbms_security_auth__minimum__password__length"@
}

/// The three variable names differ.
pub proof fn lemma_keys_distinct()
    ensures
        auth_key() != plugins_key(),
        auth_key() != min_len_key(),
        plugins_key() != min_len_key(),
{
    reveal_strlit("NEO4J_AUTH");
    reveal_strlit("NEO4JLABS_PLUGINS");
    reveal_strlit("NEO4J_dbms_security_auth__minimum__password__length");
    assert(auth_key().len() != plugins_key().len());
    assert(auth_key().len() != min_len_key().len());
    assert(plugins_key().len() != min_len_key().len());
}

/// The credentials as the server reads them: `<user>/<pass>`.
pub open spec fn auth_value(user: Seq<char>, pass: Seq<char>) -> Seq<char> {
    user + "/"@ + pass
}

/// A name in double quotes.
pub open spec fn quoted(name: Seq<char>) -> Seq<char> {
    "\""@ + name + "\""@
}

/// The names, each quoted, joined by commas.
pub open spec fn quoted_list(names: Seq<Seq<char>>) -> Seq<char>
    decreases names.len(),
{
    if names.len() == 0 {
        Seq::empty()
    } else if names.len() == 1 {
        quoted(names[0])
    } else {
        quoted_list(names.drop_last()) + ","@ + quoted(names.last())
    }
}

/// The list of plugins as the server reads it: a JSON array of their names,
/// ascending and each once.
pub open spec fn plugins_value(plugins: Seq<Neo4jLabsPlugin>) -> Seq<char> {
    "["@ + quoted_list(sorted_names(plugins)) + "]"@
}

/// The length of a text in bytes, encoded as UTF-8.
pub open spec fn byte_len(s: Seq<char>) -> nat {
    vstd::utf8::encode_utf8(s).len()
}

/// The environment derived from the settings: the credentials always; the
/// plugins where there are any; a lowered minimum password length where the
/// password is shorter than the default minimum.
pub open spec fn derived_env(c: Neo4jView) -> Map<Seq<char>, Seq<char>> {
    let auth = Map::<Seq<char>, Seq<char>>::empty().insert(auth_key(), auth_value(c.user, c.pass));
    let with_plugins = if c.plugins.len() > 0 {
        auth.insert(plugins_key(), plugins_value(c.plugins))
    } else {
        auth
    };
    if byte_len(c.pass) < MIN_DEFAULT_PASSWORD_LEN {
        with_plugins.insert(min_len_key(), decimal(byte_len(c.pass)))
    } else {
        with_plugins
    }
}

/// A JSON array of the quoted names.
fn plugin_definition(names: &Vec<String>) -> (r: String)
    ensures
        r@ == "["@ + quoted_list(texts(names@)) + "]"@,
{
    let mut s = "[".to_owned();
    let mut i: usize = 0;
    while i < names.len()
        invariant
            i <= names.len(),
            s@ == "["@ + quoted_list(texts(names@).take(i as int)),
        decreases names.len() - i,
    {
        let ghost before = s@;
        if i > 0 {
            s.append(",");
        }
        s.append("\"");
        s.append(names[i].as_str());
        s.append("\"");
        proof {
            let t = texts(names@);
            assert(t.take(i + 1).drop_last() =~= t.take(i as int));
            assert(t.take(i + 1).last() == names@[i as int]@);
            if i == 0 {
                assert(t.take(i as int) =~= Seq::<Seq<char>>::empty());
            }
            assert(s@ =~= "["@ + quoted_list(t.take(i + 1)));
        }
        i = i + 1;
    }
    proof {
        assert(texts(names@).take(names@.len() as int) =~= texts(names@));
    }
    s.append("]");
    s
}

/// The Neo4j image builder: version, credentials and lab plugins.
#[derive(Clone, Debug, PartialEq, Eq)]
pub struct Neo4j {
    version: String,
    user: String,
    pass: String,
    plugins: Vec<Neo4jLabsPlugin>,
}

impl View for Neo4j {
    type V = Neo4jView;

    closed spec fn view(&self) -> Neo4jView {
        Neo4jView {
            version: self.version@,
            user: self.user@,
            pass: self.pass@,
            plugins: self.plugins@,
        }
    }
}

impl Neo4j {
    /// Creates a builder of a Neo4j 5 image with the default user and
    /// password, unless the environment overrides them.
    pub fn from_env(overrides: &EnvOverrides) -> (r: Self)
        ensures
            r@.user == pick(None, opt_text(overrides.user), "neo4j"@),
            r@.pass == pick(None, opt_text(overrides.pass), "neo"@),
            r@.version == pick(None, opt_text(overrides.version), "5"@),
            r@.plugins.len() == 0,
    {
        Self::new(None, None, None, overrides)
    }

    /// Creates a builder of a Neo4j image of the given version with the default
    /// user and password, unless the environment overrides them.
    pub fn from_version(version: &str, overrides: &EnvOverrides) -> (r: Self)
        ensures
            r@.user == pick(None, opt_text(overrides.user), "neo4j"@),
            r@.pass == pick(None, opt_text(overrides.pass), "neo"@),
            r@.version == version@,
            r@.plugins.len() == 0,
    {
        Self::new(None, None, Some(version.to_owned()), overrides)
    }

    /// Creates a builder of a Neo4j image of the given version, user and password.
    pub fn from_auth_and_version(version: &str, user: &str, pass: &str) -> (r: Self)
        ensures
            r@.user == user@,
            r@.pass == pass@,
            r@.version == version@,
            r@.plugins.len() == 0,
    {
        let overrides = EnvOverrides::none();
        Self::new(
            Some(user.to_owned()),
            Some(pass.to_owned()),
            Some(version.to_owned()),
            &overrides,
        )
    }

    /// Adds Neo4j lab plugins to start the database with; duplicates collapse
    /// when the image is built.
    pub fn with_neo4j_labs_plugin(self, plugins: &[Neo4jLabsPlugin]) -> (r: Self)
        ensures
            r@ == (Neo4jView { plugins: self@.plugins + plugins@, ..self@ }),
    {
        let mut this = self;
        let ghost start = this.plugins@;
        let mut i: usize = 0;
        while i < plugins.len()
            invariant
                i <= plugins@.len(),
                this.plugins@ == start + plugins@.take(i as int),
                this.version == self.version,
                this.user == self.user,
                this.pass == self.pass,
            decreases plugins@.len() - i,
        {
            let p = plugins[i].copied();
            this.plugins.push(p);
            proof {
                assert(plugins@.take(i + 1) =~= plugins@.take(i as int).push(plugins@[i as int]));
            }
            i = i + 1;
        }
        proof {
            assert(plugins@.take(plugins@.len() as int) =~= plugins@);
        }
        this
    }

    fn new(
        user: Option<String>,
        pass: Option<String>,
        version: Option<String>,
        overrides: &EnvOverrides,
    ) -> (r: Self)
        ensures
            r@.user == pick(opt_text(user), opt_text(overrides.user), "neo4j"@),
            r@.pass == pick(opt_text(pass), opt_text(overrides.pass), "neo"@),
            r@.version == pick(opt_text(version), opt_text(overrides.version), "5"@),
            r@.plugins.len() == 0,
    {
        let user = resolve(user, &overrides.user, "neo4j");
        let pass = resolve(pass, &overrides.pass, "neo");
        let version = resolve(version, &overrides.version, "5");
        Neo4j { version, user, pass, plugins: Vec::new() }
    }

    /// The URI of the server over Bolt and IPv4, given the host port to which
    /// the container's Bolt port is mapped. Same as `bolt_uri_ipv4`.
    pub fn uri_ipv4(bolt_port: u16) -> (r: String)
        ensures
            r@ == "bolt://127.0.0.1:"@ + decimal(bolt_port as nat),
    {
        Self::bolt_uri_ipv4(bolt_port)
    }

    /// The URI of the server over Bolt and IPv6, given the host port to which
    /// the container's Bolt port is mapped. Same as `bolt_uri_ipv6`.
    pub fn uri_ipv6(bolt_port: u16) -> (r: String)
        ensures
            r@ == "bolt://[::1]:"@ + decimal(bolt_port as nat),
    {
        Self::bolt_uri_ipv6(bolt_port)
    }

    /// The URI of the server over Bolt and IPv4, given the host port to which
    /// the container's Bolt port is mapped.
    pub fn bolt_uri_ipv4(bolt_port: u16) -> (r: String)
        ensures
            r@ == "bolt://127.0.0.1:"@ + decimal(bolt_port as nat),
    {
        let mut s = "bolt://127.0.0.1:".to_owned();
        let port = decimal_text(bolt_port as usize);
        s.append(port.as_str());
        s
    }

    /// The URI of the server over Bolt and IPv6, given the host port to which
    /// the container's Bolt port is mapped.
    pub fn bolt_uri_ipv6(bolt_port: u16) -> (r: String)
        ensures
            r@ == "bolt://[::1]:"@ + decimal(bolt_port as nat),
    {
        let mut s = "bolt://[::1]:".to_owned();
        let port = decimal_text(bolt_port as usize);
        s.append(port.as_str());
        s
    }

    /// The URI of the server over HTTP and IPv4, given the host port to which
    /// the container's HTTP port is mapped.
    pub fn http_uri_ipv4(http_port: u16) -> (r: String)
        ensures
            r@ == "http://127.0.0.1:"@ + decimal(http_port as nat),
    {
        let mut s = "http://127.0.0.1:".to_owned();
        let port = decimal_text(http_port as usize);
        s.append(port.as_str());
        s
    }

    /// The URI of the server over HTTP and IPv6, given the host port to which
    /// the container's HTTP port is mapped.
    pub fn http_uri_ipv6(http_port: u16) -> (r: String)
        ensures
            r@ == "http://[::1]:"@ + decimal(http_port as nat),
    {
        let mut s = "http://[::1]:".to_owned();
        let port = decimal_text(http_port as usize);
        s.append(port.as_str());
        s
    }

    /// The credentials variable: `NEO4J_AUTH` set to `<user>/<pass>`.
    pub fn auth_env(&self) -> (r: Option<(String, String)>)
        ensures
            r matches Some(e) && e.0@ == auth_key() && e.1@ == auth_value(self@.user, self@.pass),
    {
        let mut value = self.user.clone();
        value.append("/");
        value.append(self.pass.as_str());
        Some(("NEO4J_AUTH".to_owned(), value))
    }

    /// The plugins variable, where there are plugins: `NEO4JLABS_PLUGINS` set
    /// to a JSON array of their names, ascending and each once.
    pub fn plugins_env(&self) -> (r: Option<(String, String)>)
        ensures
            self@.plugins.len() == 0 ==> r is None,
            self@.plugins.len() > 0 ==> (r matches Some(e) && e.0@ == plugins_key() && e.1@
                == plugins_value(self@.plugins)),
    {
        if self.plugins.len() == 0 {
            return None;
        }
        let names = sorted_plugin_names(&self.plugins);
        let definition = plugin_definition(&names);
        Some(("NEO4JLABS_PLUGINS".to_owned(), definition))
    }

    /// The minimum password length variable, where the password is shorter
    /// than the default minimum: set to the password's length in bytes.
    pub fn conf_env(&self) -> (r: Option<(String, String)>)
        ensures
            byte_len(self@.pass) >= MIN_DEFAULT_PASSWORD_LEN ==> r is None,
            byte_len(self@.pass) < MIN_DEFAULT_PASSWORD_LEN ==> (r matches Some(e) && e.0@
                == min_len_key() && e.1@ == decimal(byte_len(self@.pass))),
    {
        let len = self.pass.as_str().as_bytes().len();
        if len < MIN_DEFAULT_PASSWORD_LEN {
            Some(
                (
                    "NEO4J_dbms_security_auth__minimum__password__length".to_owned(),
                    decimal_text(len),
                ),
            )
        } else {
            None
        }
    }

    /// Builds the image: the settings carried over and the derived environment.
    pub fn build(self) -> (r: Neo4jImage)
        ensures
            r.wf(),
            r@ == (ImageView {
                version: self@.version,
                user: self@.user,
                pass: self@.pass,
                env: derived_env(self@),
            }),
    {
        proof {
            lemma_keys_distinct();
        }
        let mut env_vars = EnvVars::new();
        if let Some((key, value)) = self.auth_env() {
            env_vars.insert(key, value);
        }
        if let Some((key, value)) = self.plugins_env() {
            env_vars.insert(key, value);
        }
        if let Some((key, value)) = self.conf_env() {
            env_vars.insert(key, value);
        }
        assert(env_vars@ =~= derived_env(self@));
        Neo4jImage::new(self.version, self.user, self.pass, env_vars)
    }
}

impl Default for Neo4j {
    /// The builder with the default settings and no environment override.
    fn default() -> (r: Self)
        ensures
            r@.user == "neo4j"@,
            r@.pass == "neo"@,
            r@.version == "5"@,
            r@.plugins.len() == 0,
    {
        let overrides = EnvOverrides::none();
        Self::from_env(&overrides)
    }
}

} // verus!
