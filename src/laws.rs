//! What holds of every environment that a builder derives.

use crate::neo4j::{
    auth_key, auth_value, byte_len, derived_env, lemma_keys_distinct, min_len_key, plugins_key,
    quoted_list, Neo4jView, MIN_DEFAULT_PASSWORD_LEN,
};
use crate::plugin::{
    lemma_sorted_names_exist, name_set, sorted_names, strictly_sorted, Neo4jLabsPlugin,
};
use crate::text::decimal;
use vstd::prelude::*;

verus! {

/// A password shorter than the default minimum gets the minimum-length
/// variable, set to its exact length; a longer one does not.
pub proof fn law_password_length_guard(c: Neo4jView)
    ensures
        derived_env(c).contains_key(min_len_key()) <==> byte_len(c.pass) < MIN_DEFAULT_PASSWORD_LEN,
        byte_len(c.pass) < MIN_DEFAULT_PASSWORD_LEN ==> derived_env(c)[min_len_key()] == decimal(
            byte_len(c.pass),
        ),
{
    lemma_keys_distinct();
}

/// With plugins, the plugins variable is a JSON array of their quoted names,
/// ascending and each name once.
pub proof fn law_plugins_listed(c: Neo4jView)
    requires
        c.plugins.len() > 0,
    ensures
        derived_env(c).contains_key(plugins_key()),
        derived_env(c)[plugins_key()] == "["@ + quoted_list(sorted_names(c.plugins)) + "]"@,
        strictly_sorted(sorted_names(c.plugins)),
        sorted_names(c.plugins).to_set() == name_set(c.plugins),
{
    lemma_keys_distinct();
    lemma_sorted_names_exist(c.plugins);
}

/// Without plugins there is no plugins variable.
pub proof fn law_no_plugins_no_entry(c: Neo4jView)
    requires
        c.plugins.len() == 0,
    ensures
        !derived_env(c).contains_key(plugins_key()),
{
    lemma_keys_distinct();
}

/// The credentials variable is always `<user>/<pass>`.
pub proof fn law_auth_entry(c: Neo4jView)
    ensures
        derived_env(c).contains_key(auth_key()),
        derived_env(c)[auth_key()] == auth_value(c.user, c.pass),
{
    lemma_keys_distinct();
}

proof fn lemma_name_set_empty(plugins: Seq<Neo4jLabsPlugin>)
    ensures
        name_set(plugins) == Set::<Seq<char>>::empty() <==> plugins.len() == 0,
{
    let f = |p: Neo4jLabsPlugin| p.spec_name();
    if plugins.len() == 0 {
        assert(name_set(plugins) =~= Set::<Seq<char>>::empty());
    } else {
        assert(plugins.map_values(f)[0] == f(plugins[0]));
        assert(name_set(plugins).contains(f(plugins[0])));
    }
}

/// Builders with the same settings and the same plugin names derive the same
/// environment, whatever the order and repetition of the plugins.
pub proof fn law_plugin_order_irrelevant(a: Neo4jView, b: Neo4jView)
    requires
        a.version == b.version,
        a.user == b.user,
        a.pass == b.pass,
        name_set(a.plugins) == name_set(b.plugins),
    ensures
        derived_env(a) == derived_env(b),
{
    lemma_name_set_empty(a.plugins);
    lemma_name_set_empty(b.plugins);
}

/// Attaching plugins adds their names to the set, and attaching the same
/// plugins again adds nothing.
pub proof fn law_attach_adds_names(p: Seq<Neo4jLabsPlugin>, q: Seq<Neo4jLabsPlugin>)
    ensures
        name_set(p + q) == name_set(p).union(name_set(q)),
        name_set(p + q + q) == name_set(p + q),
{
    let f = |x: Neo4jLabsPlugin| x.spec_name();
    assert forall|s: Seq<Neo4jLabsPlugin>, t: Seq<Neo4jLabsPlugin>| #[trigger] name_set(s + t) == name_set(s).union(name_set(t)) by {
        assert((s + t).map_values(f) =~= s.map_values(f) + t.map_values(f));
        assert(name_set(s + t) =~= name_set(s).union(name_set(t))) by {
            assert forall|n: Seq<char>| name_set(s + t).contains(n) implies name_set(s).union(name_set(t)).contains(n) by {
                let k = choose|k: int| 0 <= k < (s + t).map_values(f).len() && (s + t).map_values(f)[k] == n;
                if k < s.len() {
                    assert(s.map_values(f)[k] == n);
                } else {
                    assert(t.map_values(f)[k - s.len()] == n);
                }
            }
            assert forall|n: Seq<char>| name_set(s).union(name_set(t)).contains(n) implies name_set(s + t).contains(n) by {
                if name_set(s).contains(n) {
                    let k = choose|k: int| 0 <= k < s.map_values(f).len() && s.map_values(f)[k] == n;
                    assert((s + t).map_values(f)[k] == n);
                } else {
                    let k = choose|k: int| 0 <= k < t.map_values(f).len() && t.map_values(f)[k] == n;
                    assert((s + t).map_values(f)[k + s.len()] == n);
                }
            }
        }
    }
    assert(name_set(p + q + q) == name_set(p + q).union(name_set(q)));
    assert(name_set(p + q).union(name_set(q)) =~= name_set(p + q));
}

} // verus!
