//! Neo4j lab plugins and the canonical, sorted list of their names.

use crate::text::{
    compare_text, lemma_lex_irreflexive, lemma_lex_transitive, lemma_lex_trichotomy, lex_lt,
};
use vstd::prelude::*;

verus! {

/// Available Neo4j plugins.
/// See the Neo4j operations manual on Docker plugins for more information.
#[derive(Clone, Debug, PartialEq, Eq, PartialOrd, Ord)]
#[non_exhaustive]
pub enum Neo4jLabsPlugin {
    Apoc,
    ApocCore,
    Bloom,
    Streams,
    GraphDataScience,
    NeoSemantics,
    Custom(String),
}

impl Neo4jLabsPlugin {
    /// The canonical name of the plugin, as the container expects it.
    pub open spec fn spec_name(&self) -> Seq<char> {
        match self {
            Neo4jLabsPlugin::Apoc => "apoc"@,
            Neo4jLabsPlugin::ApocCore => "apoc-core"@,
            Neo4jLabsPlugin::Bloom => "bloom"@,
            Neo4jLabsPlugin::Streams => "streams"@,
            Neo4jLabsPlugin::GraphDataScience => "graph-data-science"@,
            Neo4jLabsPlugin::NeoSemantics => "n10s"@,
            Neo4jLabsPlugin::Custom(name) => name@,
        }
    }

    /// Returns the canonical name of the plugin.
    pub fn name(&self) -> (r: String)
        ensures
            r@ == self.spec_name(),
    {
        match self {
            Neo4jLabsPlugin::Apoc => "apoc".to_owned(),
            Neo4jLabsPlugin::ApocCore => "apoc-core".to_owned(),
            Neo4jLabsPlugin::Bloom => "bloom".to_owned(),
            Neo4jLabsPlugin::Streams => "streams".to_owned(),
            Neo4jLabsPlugin::GraphDataScience => "graph-data-science".to_owned(),
            Neo4jLabsPlugin::NeoSemantics => "n10s".to_owned(),
            Neo4jLabsPlugin::Custom(name) => name.clone(),
        }
    }

    /// Returns a copy of the plugin, equal to it.
    pub fn copied(&self) -> (r: Self)
        ensures
            r == *self,
    {
        match self {
            Neo4jLabsPlugin::Apoc => Neo4jLabsPlugin::Apoc,
            Neo4jLabsPlugin::ApocCore => Neo4jLabsPlugin::ApocCore,
            Neo4jLabsPlugin::Bloom => Neo4jLabsPlugin::Bloom,
            Neo4jLabsPlugin::Streams => Neo4jLabsPlugin::Streams,
            Neo4jLabsPlugin::GraphDataScience => Neo4jLabsPlugin::GraphDataScience,
            Neo4jLabsPlugin::NeoSemantics => Neo4jLabsPlugin::NeoSemantics,
            Neo4jLabsPlugin::Custom(name) => Neo4jLabsPlugin::Custom(name.clone()),
        }
    }
}

/// The set of canonical names of a sequence of plugins. Two plugins with the
/// same name count once, whatever their variants.
pub open spec fn name_set(plugins: Seq<Neo4jLabsPlugin>) -> Set<Seq<char>> {
    plugins.map_values(|p: Neo4jLabsPlugin| p.spec_name()).to_set()
}

/// Each name strictly precedes the next: ascending, without duplicates.
pub open spec fn strictly_sorted(names: Seq<Seq<char>>) -> bool {
    forall|i: int, j: int| 0 <= i < j < names.len() ==> lex_lt(#[trigger] names[i], #[trigger] names[j])
}

/// The names of the plugins, ascending and each once.
pub open spec fn sorted_names(plugins: Seq<Neo4jLabsPlugin>) -> Seq<Seq<char>> {
    choose|s: Seq<Seq<char>>| strictly_sorted(s) && s.to_set() == name_set(plugins)
}

/// The views of a sequence of strings.
pub open spec fn texts(v: Seq<String>) -> Seq<Seq<char>> {
    v.map_values(|s: String| s@)
}

/// Two strictly sorted sequences with the same elements are equal.
pub proof fn lemma_sorted_unique(a: Seq<Seq<char>>, b: Seq<Seq<char>>)
    requires
        strictly_sorted(a),
        strictly_sorted(b),
        a.to_set() == b.to_set(),
    ensures
        a == b,
    decreases a.len(),
{
    if a.len() == 0 {
        if b.len() > 0 {
            assert(b.to_set().contains(b[0]));
        }
        assert(a =~= b);
    } else {
        assert(a.to_set().contains(a[0]));
        assert(b.to_set().contains(b[0]));
        assert(b.contains(a[0]));
        assert(a.contains(b[0]));
        let j = choose|j: int| 0 <= j < b.len() && b[j] == a[0];
        let i = choose|i: int| 0 <= i < a.len() && a[i] == b[0];
        if a[0] != b[0] {
            assert(i > 0 && j > 0);
            assert(lex_lt(a[0], a[i]));
            assert(lex_lt(b[0], b[j]));
            lemma_lex_transitive(a[0], b[0], a[0]);
            lemma_lex_irreflexive(a[0]);
        }
        let ra = a.drop_first();
        let rb = b.drop_first();
        assert(ra.to_set() =~= rb.to_set()) by {
            assert forall|x: Seq<char>| ra.to_set().contains(x) implies rb.to_set().contains(x) by {
                let k = choose|k: int| 0 <= k < ra.len() && ra[k] == x;
                assert(a[k + 1] == x);
                assert(lex_lt(a[0], x));
                lemma_lex_irreflexive(x);
                assert(a.contains(x));
                assert(a.to_set().contains(x));
                assert(b.to_set().contains(x));
                let l = choose|l: int| 0 <= l < b.len() && b[l] == x;
                assert(l != 0);
                assert(rb[l - 1] == x);
            }
            assert forall|x: Seq<char>| rb.to_set().contains(x) implies ra.to_set().contains(x) by {
                let k = choose|k: int| 0 <= k < rb.len() && rb[k] == x;
                assert(b[k + 1] == x);
                assert(lex_lt(b[0], x));
                lemma_lex_irreflexive(x);
                assert(b.contains(x));
                assert(b.to_set().contains(x));
                assert(a.to_set().contains(x));
                let l = choose|l: int| 0 <= l < a.len() && a[l] == x;
                assert(l != 0);
                assert(ra[l - 1] == x);
            }
        }
        lemma_sorted_unique(ra, rb);
        assert(a =~= b) by {
            assert forall|k: int| 0 <= k < a.len() implies a[k] == b[k] by {
                if k > 0 {
                    assert(a[k] == ra[k - 1]);
                    assert(b[k] == rb[k - 1]);
                }
            }
        }
    }
}

/// A strictly sorted sequence with the names of the plugins is theirs.
pub proof fn lemma_sorted_names_is(plugins: Seq<Neo4jLabsPlugin>, s: Seq<Seq<char>>)
    requires
        strictly_sorted(s),
        s.to_set() == name_set(plugins),
    ensures
        sorted_names(plugins) == s,
{
    let c = sorted_names(plugins);
    assert(strictly_sorted(c) && c.to_set() == name_set(plugins));
    lemma_sorted_unique(c, s);
}

/// `x` inserted at its place in an ascending sequence, unless it is there.
pub open spec fn sorted_insert(s: Seq<Seq<char>>, x: Seq<char>) -> Seq<Seq<char>>
    decreases s.len(),
{
    if s.len() == 0 {
        seq![x]
    } else if x == s[0] {
        s
    } else if lex_lt(x, s[0]) {
        seq![x] + s
    } else {
        seq![s[0]] + sorted_insert(s.drop_first(), x)
    }
}

proof fn lemma_sorted_insert(s: Seq<Seq<char>>, x: Seq<char>)
    requires
        strictly_sorted(s),
    ensures
        strictly_sorted(sorted_insert(s, x)),
        sorted_insert(s, x).to_set() == s.to_set().insert(x),
    decreases s.len(),
{
    let r = sorted_insert(s, x);
    if s.len() == 0 {
        assert(r.to_set() =~= s.to_set().insert(x)) by {
            assert(r[0] == x);
        }
    } else if x == s[0] {
        assert(r.to_set() =~= s.to_set().insert(x)) by {
            assert(s.contains(x));
        }
    } else if lex_lt(x, s[0]) {
        assert forall|i: int, j: int| 0 <= i < j < r.len() implies lex_lt(#[trigger] r[i], #[trigger] r[j]) by {
            assert(r[j] == s[j - 1]);
            if i == 0 {
                if j > 1 {
                    lemma_lex_transitive(x, s[0], s[j - 1]);
                }
            } else {
                assert(r[i] == s[i - 1]);
            }
        }
        assert(r.to_set() =~= s.to_set().insert(x)) by {
            assert(r[0] == x);
            assert forall|y: Seq<char>| s.contains(y) implies r.contains(y) by {
                let k = choose|k: int| 0 <= k < s.len() && s[k] == y;
                assert(r[k + 1] == y);
            }
            assert forall|y: Seq<char>| r.contains(y) && y != x implies s.contains(y) by {
                let k = choose|k: int| 0 <= k < r.len() && r[k] == y;
                assert(s[k - 1] == y);
            }
        }
    } else {
        let t = s.drop_first();
        assert(strictly_sorted(t)) by {
            assert forall|i: int, j: int| 0 <= i < j < t.len() implies lex_lt(#[trigger] t[i], #[trigger] t[j]) by {
                assert(t[i] == s[i + 1] && t[j] == s[j + 1]);
            }
        }
        lemma_sorted_insert(t, x);
        let u = sorted_insert(t, x);
        lemma_lex_trichotomy(x, s[0]);
        assert(lex_lt(s[0], x));
        assert forall|y: Seq<char>| u.contains(y) implies lex_lt(s[0], y) by {
            assert(u.to_set().contains(y));
            if y != x {
                let k = choose|k: int| 0 <= k < t.len() && t[k] == y;
                assert(s[k + 1] == y);
            }
        }
        assert forall|i: int, j: int| 0 <= i < j < r.len() implies lex_lt(#[trigger] r[i], #[trigger] r[j]) by {
            assert(r[j] == u[j - 1]);
            assert(u.contains(u[j - 1]));
            if i > 0 {
                assert(r[i] == u[i - 1]);
            }
        }
        assert(r.to_set() =~= s.to_set().insert(x)) by {
            assert forall|y: Seq<char>| r.contains(y) implies s.to_set().insert(x).contains(y) by {
                let k = choose|k: int| 0 <= k < r.len() && r[k] == y;
                if k > 0 {
                    assert(u[k - 1] == y);
                    assert(u.to_set().contains(y));
                    if y != x {
                        let l = choose|l: int| 0 <= l < t.len() && t[l] == y;
                        assert(s[l + 1] == y);
                    }
                }
            }
            assert forall|y: Seq<char>| s.to_set().insert(x).contains(y) implies r.contains(y) by {
                if y == s[0] {
                    assert(r[0] == y);
                } else {
                    if y != x {
                        let l = choose|l: int| 0 <= l < s.len() && s[l] == y;
                        assert(t[l - 1] == y);
                        assert(t.contains(y));
                    }
                    assert(u.to_set().contains(y));
                    let k = choose|k: int| 0 <= k < u.len() && u[k] == y;
                    assert(r[k + 1] == y);
                }
            }
        }
    }
}

/// The names of the plugins, inserted one after the other.
pub open spec fn insert_all(plugins: Seq<Neo4jLabsPlugin>) -> Seq<Seq<char>>
    decreases plugins.len(),
{
    if plugins.len() == 0 {
        Seq::empty()
    } else {
        sorted_insert(insert_all(plugins.drop_last()), plugins.last().spec_name())
    }
}

/// The set of names grows by one name with each plugin.
pub proof fn lemma_name_set_push(plugins: Seq<Neo4jLabsPlugin>, p: Neo4jLabsPlugin)
    ensures
        name_set(plugins.push(p)) == name_set(plugins).insert(p.spec_name()),
{
    let f = |q: Neo4jLabsPlugin| q.spec_name();
    let post = plugins.push(p);
    assert(post.map_values(f) =~= plugins.map_values(f).push(f(p)));
    assert(name_set(post) =~= name_set(plugins).insert(p.spec_name())) by {
        assert forall|x: Seq<char>| name_set(post).contains(x) implies name_set(plugins).insert(
            p.spec_name(),
        ).contains(x) by {
            let k = choose|k: int| 0 <= k < post.map_values(f).len() && post.map_values(f)[k] == x;
            if k < plugins.len() {
                assert(plugins.map_values(f)[k] == x);
            }
        }
        assert forall|x: Seq<char>| name_set(plugins).insert(p.spec_name()).contains(x) implies name_set(
            post,
        ).contains(x) by {
            if x == f(p) {
                assert(post.map_values(f)[plugins.len() as int] == x);
            } else {
                let k = choose|k: int|
                    0 <= k < plugins.map_values(f).len() && plugins.map_values(f)[k] == x;
                assert(post.map_values(f)[k] == x);
            }
        }
    }
}

proof fn lemma_insert_all(plugins: Seq<Neo4jLabsPlugin>)
    ensures
        strictly_sorted(insert_all(plugins)),
        insert_all(plugins).to_set() == name_set(plugins),
    decreases plugins.len(),
{
    if plugins.len() == 0 {
        assert(insert_all(plugins).to_set() =~= name_set(plugins));
    } else {
        lemma_insert_all(plugins.drop_last());
        lemma_sorted_insert(insert_all(plugins.drop_last()), plugins.last().spec_name());
        lemma_name_set_push(plugins.drop_last(), plugins.last());
        assert(plugins.drop_last().push(plugins.last()) =~= plugins);
    }
}

/// Every sequence of plugins has its ascending list of names, each once.
pub proof fn lemma_sorted_names_exist(plugins: Seq<Neo4jLabsPlugin>)
    ensures
        strictly_sorted(sorted_names(plugins)),
        sorted_names(plugins).to_set() == name_set(plugins),
{
    lemma_insert_all(plugins);
    lemma_sorted_names_is(plugins, insert_all(plugins));
}

/// Inserts `name` at its place in a strictly sorted vector, unless it is there.
fn insert_sorted(names: &mut Vec<String>, name: String)
    requires
        strictly_sorted(texts(old(names)@)),
    ensures
        strictly_sorted(texts(final(names)@)),
        texts(final(names)@).to_set() == texts(old(names)@).to_set().insert(name@),
{
    let ghost old_names = texts(names@);
    let mut k: usize = 0;
    while k < names.len()
        invariant
            k <= names.len(),
            texts(names@) == old_names,
            strictly_sorted(old_names),
            forall|j: int| 0 <= j < k ==> lex_lt(#[trigger] old_names[j], name@),
        ensures
            k <= names.len(),
            texts(names@) == old_names,
            forall|j: int| 0 <= j < k ==> lex_lt(#[trigger] old_names[j], name@),
            k < names.len() ==> lex_lt(name@, old_names[k as int]),
        decreases names.len() - k,
    {
        let c = compare_text(names[k].as_str(), name.as_str());
        assert(old_names[k as int] == names@[k as int]@);
        match c {
            core::cmp::Ordering::Less => {},
            core::cmp::Ordering::Equal => {
                assert(old_names.to_set().insert(name@) =~= old_names.to_set());
                return;
            },
            core::cmp::Ordering::Greater => {
                break;
            },
        }
        k = k + 1;
    }
    names.insert(k, name);
    let ghost now = texts(names@);
    assert(now =~= old_names.insert(k as int, name@));
    assert forall|i: int, j: int| 0 <= i < j < now.len() implies lex_lt(#[trigger] now[i], #[trigger] now[j]) by {
        if j < k {
        } else if j == k {
        } else if i < k {
            assert(now[j] == old_names[j - 1]);
            if j - 1 > k {
                assert(lex_lt(old_names[k as int], old_names[j - 1]));
                lemma_lex_transitive(name@, old_names[k as int], old_names[j - 1]);
            }
            lemma_lex_transitive(now[i], name@, now[j]);
        } else if i == k {
            assert(now[j] == old_names[j - 1]);
            if j - 1 > k {
                assert(lex_lt(old_names[k as int], old_names[j - 1]));
                lemma_lex_transitive(name@, old_names[k as int], old_names[j - 1]);
            }
        } else {
            assert(now[i] == old_names[i - 1]);
            assert(now[j] == old_names[j - 1]);
        }
    }
    assert(now.to_set() =~= old_names.to_set().insert(name@)) by {
        assert forall|x: Seq<char>| now.contains(x) implies old_names.to_set().insert(name@).contains(x) by {
            let i = choose|i: int| 0 <= i < now.len() && now[i] == x;
            if i < k {
                assert(old_names[i] == x);
            } else if i > k {
                assert(old_names[i - 1] == x);
            }
        }
        assert forall|x: Seq<char>| old_names.to_set().insert(name@).contains(x) implies now.contains(x) by {
            if x == name@ {
                assert(now[k as int] == x);
            } else {
                let i = choose|i: int| 0 <= i < old_names.len() && old_names[i] == x;
                if i < k {
                    assert(now[i] == x);
                } else {
                    assert(now[i + 1] == x);
                }
            }
        }
    }
}

/// Returns the canonical names of the plugins, ascending and each once.
pub fn sorted_plugin_names(plugins: &Vec<Neo4jLabsPlugin>) -> (r: Vec<String>)
    ensures
        texts(r@) == sorted_names(plugins@),
{
    let mut names: Vec<String> = Vec::new();
    let mut i: usize = 0;
    while i < plugins.len()
        invariant
            i <= plugins.len(),
            strictly_sorted(texts(names@)),
            texts(names@).to_set() == name_set(plugins@.take(i as int)),
        decreases plugins.len() - i,
    {
        let n = plugins[i].name();
        insert_sorted(&mut names, n);
        proof {
            assert(plugins@.take(i + 1) =~= plugins@.take(i as int).push(plugins@[i as int]));
            lemma_name_set_push(plugins@.take(i as int), plugins@[i as int]);
        }
        i = i + 1;
    }
    proof {
        assert(plugins@.take(plugins@.len() as int) =~= plugins@);
        lemma_sorted_names_is(plugins@, texts(names@));
    }
    names
}

} // verus!
