//! Connection-string handling. A DSN is a keyword/value map written as
//! space-separated `key=value` words; parsing, merging and rendering are
//! specified exactly at the level of character sequences. Unlike a hash
//! map, the entries keep a deterministic order: first insertion wins the
//! place, later values replace in place.

use crate::text::{join_with, lemma_join_push};
use vstd::prelude::*;
use vstd::string::{StrSliceExecFns, StringExecFns};

verus! {

/// The first index of `c` in `s`, or -1 when it does not occur.
pub open spec fn find_char(s: Seq<char>, c: char) -> int
    decreases s.len(),
{
    if s.len() == 0 {
        -1
    } else if s[0] == c {
        0
    } else {
        let r = find_char(s.drop_first(), c);
        if r < 0 {
            -1
        } else {
            r + 1
        }
    }
}

/// `find_char` finds the first occurrence, exactly when one exists.
pub proof fn lemma_find_char(s: Seq<char>, c: char)
    ensures
        find_char(s, c) >= 0 <==> s.contains(c),
        find_char(s, c) >= 0 ==> {
            let i = find_char(s, c);
            &&& 0 <= i < s.len()
            &&& s[i] == c
            &&& forall|k: int| 0 <= k < i ==> s[k] != c
        },
    decreases s.len(),
{
    if s.len() == 0 {
    } else if s[0] == c {
        assert(s.contains(c)) by {
            assert(s[0] == c);
        }
    } else {
        lemma_find_char(s.drop_first(), c);
        assert(forall|k: int| 1 <= k < s.len() ==> s[k] == s.drop_first()[k - 1]);
        if s.contains(c) {
            let w = choose|k: int| 0 <= k < s.len() && s[k] == c;
            assert(s.drop_first()[w - 1] == c);
            assert(s.drop_first().contains(c));
        }
        if s.drop_first().contains(c) {
            let w = choose|k: int| 0 <= k < s.drop_first().len() && s.drop_first()[k] == c;
            assert(s[w + 1] == c);
        }
    }
}

/// The words of `s`, split at every single space; consecutive spaces give
/// empty words, as `str::split` would.
pub open spec fn split_spaces_spec(s: Seq<char>) -> Seq<Seq<char>>
    decreases s.len()
        via split_spaces_spec_decreases
{
    let i = find_char(s, ' ');
    if i < 0 {
        seq![s]
    } else {
        seq![s.take(i)] + split_spaces_spec(s.skip(i + 1))
    }
}

#[via_fn]
proof fn split_spaces_spec_decreases(s: Seq<char>) {
    lemma_find_char(s, ' ');
}

/// The key/value split of one word at its first `=`, or nothing when the
/// word has no `=`.
pub open spec fn key_value_of(tok: Seq<char>) -> Option<(Seq<char>, Seq<char>)> {
    let i = find_char(tok, '=');
    if i < 0 {
        Option::None
    } else {
        Option::Some((tok.take(i), tok.skip(i + 1)))
    }
}

/// Whether no two pairs share a key.
pub open spec fn pairs_unique(ps: Seq<(Seq<char>, Seq<char>)>) -> bool {
    forall|i: int, j: int| 0 <= i < j < ps.len() ==> (#[trigger] ps[i]).0 != (#[trigger] ps[j]).0
}

/// Whether some pair has the key.
pub open spec fn pairs_has_key(ps: Seq<(Seq<char>, Seq<char>)>, k: Seq<char>) -> bool {
    exists|i: int| 0 <= i < ps.len() && (#[trigger] ps[i]).0 == k
}

/// The index of the pair with the key, or -1 when there is none.
pub open spec fn pairs_find(ps: Seq<(Seq<char>, Seq<char>)>, k: Seq<char>) -> int
    decreases ps.len(),
{
    if ps.len() == 0 {
        -1
    } else if ps[0].0 == k {
        0
    } else {
        let r = pairs_find(ps.drop_first(), k);
        if r < 0 {
            -1
        } else {
            r + 1
        }
    }
}

/// `pairs_find` finds the first pair with the key, exactly when one
/// exists.
pub proof fn lemma_pairs_find(ps: Seq<(Seq<char>, Seq<char>)>, k: Seq<char>)
    ensures
        pairs_find(ps, k) >= 0 <==> pairs_has_key(ps, k),
        pairs_find(ps, k) >= 0 ==> {
            let i = pairs_find(ps, k);
            &&& 0 <= i < ps.len()
            &&& ps[i].0 == k
            &&& forall|j: int| 0 <= j < i ==> (#[trigger] ps[j]).0 != k
        },
    decreases ps.len(),
{
    if ps.len() == 0 {
    } else if ps[0].0 == k {
    } else {
        lemma_pairs_find(ps.drop_first(), k);
        assert(forall|j: int| 1 <= j < ps.len() ==> (#[trigger] ps[j]) == ps.drop_first()[j - 1]);
        if pairs_has_key(ps, k) {
            let w = choose|j: int| 0 <= j < ps.len() && (#[trigger] ps[j]).0 == k;
            assert(ps.drop_first()[w - 1].0 == k);
        }
    }
}

/// The pairs after setting `k` to `v`: an existing key keeps its place
/// with the new value; a new key appends.
pub open spec fn pairs_set(
    ps: Seq<(Seq<char>, Seq<char>)>,
    k: Seq<char>,
    v: Seq<char>,
) -> Seq<(Seq<char>, Seq<char>)> {
    let i = pairs_find(ps, k);
    if i >= 0 {
        ps.update(i, (k, v))
    } else {
        ps.push((k, v))
    }
}

/// Setting a key keeps the keys unique.
pub proof fn lemma_pairs_set(ps: Seq<(Seq<char>, Seq<char>)>, k: Seq<char>, v: Seq<char>)
    requires
        pairs_unique(ps),
    ensures
        pairs_unique(pairs_set(ps, k, v)),
{
    lemma_pairs_find(ps, k);
}

/// The pairs a DSN string denotes: every word with an `=` sets its key,
/// in order; words without an `=` are ignored.
pub open spec fn pairs_of_tokens(toks: Seq<Seq<char>>) -> Seq<(Seq<char>, Seq<char>)>
    decreases toks.len(),
{
    if toks.len() == 0 {
        Seq::empty()
    } else {
        let prev = pairs_of_tokens(toks.drop_last());
        match key_value_of(toks.last()) {
            Option::None => prev,
            Option::Some(kv) => pairs_set(prev, kv.0, kv.1),
        }
    }
}

/// What parsing a whole DSN string yields.
pub open spec fn dsn_of_string(s: Seq<char>) -> Seq<(Seq<char>, Seq<char>)> {
    pairs_of_tokens(split_spaces_spec(s))
}

/// Every prefix of the token fold keeps unique keys.
pub proof fn lemma_pairs_of_tokens_unique(toks: Seq<Seq<char>>)
    ensures
        pairs_unique(pairs_of_tokens(toks)),
    decreases toks.len(),
{
    if toks.len() == 0 {
    } else {
        lemma_pairs_of_tokens_unique(toks.drop_last());
        match key_value_of(toks.last()) {
            Option::None => {},
            Option::Some(kv) => {
                lemma_pairs_set(pairs_of_tokens(toks.drop_last()), kv.0, kv.1);
            },
        }
    }
}

/// The pairs after laying `over` on top of `base`, in order: each pair of
/// `over` sets its key.
pub open spec fn pairs_merge(
    base: Seq<(Seq<char>, Seq<char>)>,
    over: Seq<(Seq<char>, Seq<char>)>,
) -> Seq<(Seq<char>, Seq<char>)>
    decreases over.len(),
{
    if over.len() == 0 {
        base
    } else {
        pairs_set(pairs_merge(base, over.drop_last()), over.last().0, over.last().1)
    }
}

/// A connection-parameter map: keyword/value pairs with unique keys, in a
/// deterministic order.
pub struct Dsn {
    entries: Vec<(String, String)>,
}

impl Dsn {
    /// The keyword/value pairs, as character sequences, in order.
    pub closed spec fn pairs(self) -> Seq<(Seq<char>, Seq<char>)> {
        self.entries@.map_values(|e: (String, String)| (e.0@, e.1@))
    }

    /// The map's invariant: no two entries share a keyword.
    pub open spec fn inv(self) -> bool {
        pairs_unique(self.pairs())
    }

    /// An empty map.
    pub fn new() -> (r: Dsn)
        ensures
            r.pairs() == Seq::<(Seq<char>, Seq<char>)>::empty(),
            r.inv(),
    {
        let r = Dsn { entries: Vec::new() };
        proof {
            assert(r.pairs() =~= Seq::<(Seq<char>, Seq<char>)>::empty());
        }
        r
    }

    /// Sets one keyword: an existing entry keeps its place with the new
    /// value; a new keyword appends.
    pub fn set(&mut self, key: String, value: String)
        requires
            old(self).inv(),
        ensures
            final(self).inv(),
            final(self).pairs() == pairs_set(old(self).pairs(), key@, value@),
    {
        proof {
            lemma_pairs_find(self.pairs(), key@);
            lemma_pairs_set(self.pairs(), key@, value@);
        }
        let ghost gk = key@;
        let ghost gv = value@;
        let n = self.entries.len();
        let mut j: usize = 0;
        while j < n
            invariant
                n == self.entries@.len(),
                j <= n,
                self == old(self),
                old(self).inv(),
                forall|t: int| 0 <= t < j ==> (#[trigger] self.pairs()[t]).0 != gk,
                gk == key@,
                gv == value@,
            decreases n - j,
        {
            if self.entries[j].0 == key {
                proof {
                    lemma_pairs_find(old(self).pairs(), gk);
                    lemma_pairs_set(old(self).pairs(), gk, gv);
                    assert(self.pairs()[j as int].0 == gk);
                    assert(pairs_has_key(old(self).pairs(), gk)) by {
                        assert(old(self).pairs()[j as int].0 == gk);
                    }
                    let i0 = pairs_find(old(self).pairs(), gk);
                    assert(i0 >= 0);
                    if i0 < j {
                        assert(old(self).pairs()[i0].0 == gk);
                    }
                    if j < i0 {
                        assert((old(self).pairs()[j as int]).0 != gk);
                    }
                    assert(i0 == j);
                }
                self.entries.remove(j);
                self.entries.insert(j, (key, value));
                proof {
                    assert(self.entries@ =~= old(self).entries@.update(j as int, (
                        old(self).entries@[j as int].0,
                        old(self).entries@[j as int].1,
                    )).update(j as int, self.entries@[j as int]));
                    assert(self.entries@[j as int].0@ == gk);
                    assert(self.entries@[j as int].1@ == gv);
                    assert(self.pairs() =~= pairs_set(old(self).pairs(), gk, gv));
                }
                return ;
            }
            proof {
                assert(self.pairs()[j as int].0 == self.entries@[j as int].0@);
            }
            j += 1;
        }
        self.entries.push((key, value));
        proof {
            assert(!pairs_has_key(old(self).pairs(), gk));
            assert(self.pairs() =~= pairs_set(old(self).pairs(), gk, gv));
        }
    }

    /// Parses a DSN string: every space-separated word holding an `=`
    /// sets the keyword before its first `=` to the text after it.
    #[verifier::rlimit(50)]
    pub fn from_string(from: &str) -> (r: Dsn)
        ensures
            r.pairs() == dsn_of_string(from@),
            r.inv(),
    {
        let toks = split_spaces(from);
        let mut r = Dsn::new();
        let mut i: usize = 0;
        proof {
            assert(pairs_of_tokens(toks.deep_view().take(0)) =~= Seq::<(
                Seq<char>,
                Seq<char>,
            )>::empty());
            lemma_pairs_of_tokens_unique(toks.deep_view());
        }
        while i < toks.len()
            invariant
                i <= toks@.len(),
                toks.deep_view() == split_spaces_spec(from@),
                r.pairs() == pairs_of_tokens(toks.deep_view().take(i as int)),
                r.inv(),
            decreases toks@.len() - i,
        {
            let tok = &toks[i];
            proof {
                assert(tok@ == toks.deep_view()[i as int]);
                lemma_find_char(tok@, '=');
            }
            let tl = tok.unicode_len();
            match find_char_str(tok, '=') {
                Option::Some(p) => {
                    let key = tok.substring_char(0, p);
                    let value = tok.substring_char(p + 1, tl);
                    proof {
                        assert(key@ =~= tok@.take(p as int));
                        assert(value@ =~= tok@.skip(p as int + 1));
                    }
                    r.set(key.to_owned(), value.to_owned());
                    proof {
                        assert(key_value_of(toks.deep_view()[i as int]) matches Option::Some(kv)
                            && kv.0 == key@ && kv.1 == value@);
                    }
                },
                Option::None => {
                    proof {
                        assert(key_value_of(toks.deep_view()[i as int]) is None);
                    }
                },
            }
            proof {
                assert(toks.deep_view().take(i as int + 1).drop_last() =~= toks.deep_view().take(
                    i as int,
                ));
                assert(toks.deep_view().take(i as int + 1).last() == toks.deep_view()[i as int]);
                assert(r.pairs() == pairs_of_tokens(toks.deep_view().take(i as int + 1)));
            }
            i += 1;
        }
        proof {
            assert(toks.deep_view().take(toks.deep_view().len() as int) =~= toks.deep_view());
        }
        r
    }

    /// Lays this map's entries over `with`: `with`'s pairs come first, in
    /// their order, and this map's pairs then set their keys on top.
    pub fn merge(self, with: Dsn) -> (r: Dsn)
        requires
            self.inv(),
            with.inv(),
        ensures
            r.pairs() == pairs_merge(with.pairs(), self.pairs()),
            r.inv(),
    {
        let mut r = with;
        let mut mine = self.entries;
        let n = mine.len();
        proof {
            assert(self.pairs().take(0) =~= Seq::<(Seq<char>, Seq<char>)>::empty());
        }
        let mut i: usize = 0;
        while i < n
            invariant
                n == mine@.len(),
                i <= n,
                mine@.map_values(|e: (String, String)| (e.0@, e.1@)) == self.pairs(),
                r.pairs() == pairs_merge(with.pairs(), self.pairs().take(i as int)),
                r.inv(),
            decreases n - i,
        {
            let k = mine[i].0.clone();
            let v = mine[i].1.clone();
            proof {
                assert(self.pairs()[i as int] == (k@, v@)) by {
                    assert(self.pairs()[i as int] == (mine@[i as int].0@, mine@[i as int].1@));
                }
            }
            r.set(k, v);
            proof {
                assert(self.pairs().take(i as int + 1).drop_last() =~= self.pairs().take(i as int));
                assert(self.pairs().take(i as int + 1).last() == self.pairs()[i as int]);
            }
            i += 1;
        }
        proof {
            assert(self.pairs().take(self.pairs().len() as int) =~= self.pairs());
        }
        r
    }

    /// Renders the map as a DSN string: `key=value` words joined by
    /// single spaces, in entry order.
    pub fn as_string(self) -> (r: String)
        requires
            self.inv(),
        ensures
            r@ == join_with(
                self.pairs().map_values(|p: (Seq<char>, Seq<char>)| p.0 + seq!['='] + p.1),
                seq![' '],
            ),
    {
        let mut r = String::new();
        let n = self.entries.len();
        let ghost parts = self.pairs().map_values(
            |p: (Seq<char>, Seq<char>)| p.0 + seq!['='] + p.1,
        );
        let mut i: usize = 0;
        proof {
            assert(join_with(parts.take(0), seq![' ']) =~= Seq::<char>::empty());
        }
        while i < n
            invariant
                n == self.entries@.len(),
                i <= n,
                parts == self.pairs().map_values(
                    |p: (Seq<char>, Seq<char>)| p.0 + seq!['='] + p.1,
                ),
                r@ == join_with(parts.take(i as int), seq![' ']),
            decreases n - i,
        {
            proof {
                reveal_strlit(" ");
                reveal_strlit("=");
            }
            if i > 0 {
                r.append(" ");
            }
            r.append(self.entries[i].0.as_str());
            r.append("=");
            r.append(self.entries[i].1.as_str());
            proof {
                lemma_join_push(parts.take(i as int), parts[i as int], seq![' ']);
                assert(parts.take(i as int + 1) =~= parts.take(i as int).push(parts[i as int]));
                assert(parts[i as int] == self.pairs()[i as int].0 + seq!['=']
                    + self.pairs()[i as int].1);
                assert(r@ =~= join_with(parts.take(i as int + 1), seq![' ']));
            }
            i += 1;
        }
        proof {
            assert(parts.take(n as int) =~= parts);
        }
        r
    }
}

/// The connection-related environment values, each absent when its
/// variable is unset. The caller reads them; this module only assembles.
pub struct DsnEnv {
    /// The `PGUSER` value.
    pub pguser: Option<String>,
    /// The `PGDATABASE` value.
    pub pgdatabase: Option<String>,
    /// The `PGHOST` value.
    pub pghost: Option<String>,
    /// The `PGSSLMODE` value.
    pub pgsslmode: Option<String>,
    /// The `PGSSLCERT` value.
    pub pgsslcert: Option<String>,
    /// The `PGSSLKEY` value; it also stands in for the root-certificate
    /// and revocation-list paths.
    pub pgsslkey: Option<String>,
}

/// An environment value if set and nonempty, else the default.
pub open spec fn env_or(v: Option<String>, def: Seq<char>) -> Seq<char> {
    match v {
        Option::Some(s) => if s@.len() > 0 {
            s@
        } else {
            def
        },
        Option::None => def,
    }
}

/// The default connection parameters: the user from the environment or
/// the operating system, the database defaulting to the user, a local
/// socket host, and the conventional TLS file locations.
pub open spec fn defaults_pairs(env: DsnEnv, os_user: Seq<char>) -> Seq<(Seq<char>, Seq<char>)> {
    let user = env_or(env.pguser, os_user);
    seq![
        ("user"@, user),
        ("dbname"@, env_or(env.pgdatabase, user)),
        ("host"@, env_or(env.pghost, "/tmp"@)),
        ("sslmode"@, env_or(env.pgsslmode, "prefer"@)),
        ("sslcert"@, env_or(env.pgsslcert, "~/.postgresql/postgresql.crt"@)),
        ("sslkey"@, env_or(env.pgsslkey, "~/.postgresql/postgresql.key"@)),
        ("sslrootcert"@, env_or(env.pgsslkey, "~/.postgresql/root.crt"@)),
        ("sslcrl"@, env_or(env.pgsslkey, "~/.postgresql/root.crl"@)),
    ]
}

/// An environment value if set and nonempty, else the default.
fn env_or_exec(v: &Option<String>, def: &str) -> (r: String)
    ensures
        r@ == env_or(*v, def@),
{
    match v {
        Option::Some(s) => {
            if s.as_str().unicode_len() > 0 {
                s.clone()
            } else {
                String::from_str(def)
            }
        },
        Option::None => String::from_str(def),
    }
}

impl Dsn {
    /// Assembles the default connection parameters, exactly as
    /// `defaults_pairs` lays them out, from the given environment values
    /// and the operating-system user name.
    pub fn from_defaults(env: &DsnEnv, os_user: &str) -> (r: Dsn)
        ensures
            r.pairs() == defaults_pairs(*env, os_user@),
            r.inv(),
    {
        proof {
            reveal_strlit("user");
            reveal_strlit("dbname");
            reveal_strlit("host");
            reveal_strlit("sslmode");
            reveal_strlit("sslcert");
            reveal_strlit("sslkey");
            reveal_strlit("sslrootcert");
            reveal_strlit("sslcrl");
            assert("user"@.len() == 4);
            assert("dbname"@.len() == 6);
            assert("host"@.len() == 4);
            assert("sslmode"@.len() == 7);
            assert("sslcert"@.len() == 7);
            assert("sslkey"@.len() == 6);
            assert("sslrootcert"@.len() == 11);
            assert("sslcrl"@.len() == 6);
            assert("user"@[0] != "host"@[0]);
            assert("dbname"@[0] != "sslkey"@[0]);
            assert("dbname"@[0] != "sslcrl"@[0]);
            assert("sslkey"@[3] != "sslcrl"@[3]);
            assert("sslmode"@[3] != "sslcert"@[3]);
        }
        let user = env_or_exec(&env.pguser, os_user);
        let mut r = Dsn::new();
        let ghost p0 = Seq::<(Seq<char>, Seq<char>)>::empty();
        r.set(String::from_str("user"), user.clone());
        proof {
            lemma_pairs_find(p0, "user"@);
            assert(r.pairs() =~= p0.push(("user"@, user@)));
        }
        let ghost p1 = p0.push(("user"@, user@));
        let dbname = env_or_exec(&env.pgdatabase, user.as_str());
        r.set(String::from_str("dbname"), dbname);
        proof {
            lemma_pairs_find(p1, "dbname"@);
            assert(!pairs_has_key(p1, "dbname"@));
            assert(r.pairs() =~= p1.push(("dbname"@, env_or(env.pgdatabase, user@))));
        }
        let ghost p2 = p1.push(("dbname"@, env_or(env.pgdatabase, user@)));
        let host = env_or_exec(&env.pghost, "/tmp");
        r.set(String::from_str("host"), host);
        proof {
            lemma_pairs_find(p2, "host"@);
            assert(!pairs_has_key(p2, "host"@));
            assert(r.pairs() =~= p2.push(("host"@, env_or(env.pghost, "/tmp"@))));
        }
        let ghost p3 = p2.push(("host"@, env_or(env.pghost, "/tmp"@)));
        let sslmode = env_or_exec(&env.pgsslmode, "prefer");
        r.set(String::from_str("sslmode"), sslmode);
        proof {
            lemma_pairs_find(p3, "sslmode"@);
            assert(!pairs_has_key(p3, "sslmode"@));
            assert(r.pairs() =~= p3.push(("sslmode"@, env_or(env.pgsslmode, "prefer"@))));
        }
        let ghost p4 = p3.push(("sslmode"@, env_or(env.pgsslmode, "prefer"@)));
        let sslcert = env_or_exec(&env.pgsslcert, "~/.postgresql/postgresql.crt");
        r.set(String::from_str("sslcert"), sslcert);
        proof {
            lemma_pairs_find(p4, "sslcert"@);
            assert(!pairs_has_key(p4, "sslcert"@));
            assert(r.pairs() =~= p4.push(
                ("sslcert"@, env_or(env.pgsslcert, "~/.postgresql/postgresql.crt"@)),
            ));
        }
        let ghost p5 = p4.push(
            ("sslcert"@, env_or(env.pgsslcert, "~/.postgresql/postgresql.crt"@)),
        );
        let sslkey = env_or_exec(&env.pgsslkey, "~/.postgresql/postgresql.key");
        r.set(String::from_str("sslkey"), sslkey);
        proof {
            lemma_pairs_find(p5, "sslkey"@);
            assert(!pairs_has_key(p5, "sslkey"@));
            assert(r.pairs() =~= p5.push(
                ("sslkey"@, env_or(env.pgsslkey, "~/.postgresql/postgresql.key"@)),
            ));
        }
        let ghost p6 = p5.push(("sslkey"@, env_or(env.pgsslkey, "~/.postgresql/postgresql.key"@)));
        let sslrootcert = env_or_exec(&env.pgsslkey, "~/.postgresql/root.crt");
        r.set(String::from_str("sslrootcert"), sslrootcert);
        proof {
            lemma_pairs_find(p6, "sslrootcert"@);
            assert(!pairs_has_key(p6, "sslrootcert"@));
            assert(r.pairs() =~= p6.push(
                ("sslrootcert"@, env_or(env.pgsslkey, "~/.postgresql/root.crt"@)),
            ));
        }
        let ghost p7 = p6.push(("sslrootcert"@, env_or(env.pgsslkey, "~/.postgresql/root.crt"@)));
        let sslcrl = env_or_exec(&env.pgsslkey, "~/.postgresql/root.crl");
        r.set(String::from_str("sslcrl"), sslcrl);
        proof {
            lemma_pairs_find(p7, "sslcrl"@);
            assert(!pairs_has_key(p7, "sslcrl"@));
            assert(r.pairs() =~= p7.push(
                ("sslcrl"@, env_or(env.pgsslkey, "~/.postgresql/root.crl"@)),
            ));
            assert(r.pairs() =~= defaults_pairs(*env, os_user@));
        }
        r
    }
}

/// The first position of `c` in `s`, scanning the characters in order.
fn find_char_str(s: &str, c: char) -> (r: Option<usize>)
    ensures
        match r {
            Option::Some(i) => find_char(s@, c) == i,
            Option::None => find_char(s@, c) < 0,
        },
{
    proof {
        lemma_find_char(s@, c);
    }
    let n = s.unicode_len();
    let mut i: usize = 0;
    while i < n
        invariant
            n == s@.len(),
            i <= n,
            forall|k: int| 0 <= k < i ==> s@[k] != c,
        decreases n - i,
    {
        if s.get_char(i) == c {
            proof {
                lemma_find_char(s@, c);
                assert(s@.contains(c)) by {
                    assert(s@[i as int] == c);
                }
            }
            return Some(i);
        }
        i += 1;
    }
    proof {
        if s@.contains(c) {
            let w = choose|k: int| 0 <= k < s@.len() && s@[k] == c;
        }
    }
    None
}

/// Splits a string at every single space, as `split_spaces_spec` says.
fn split_spaces(s: &str) -> (r: Vec<String>)
    ensures
        r.deep_view() == split_spaces_spec(s@),
    decreases s@.len(),
{
    proof {
        lemma_find_char(s@, ' ');
    }
    match find_char_str(s, ' ') {
        Option::None => {
            let mut r: Vec<String> = Vec::new();
            r.push(s.to_owned());
            proof {
                assert(r.deep_view() =~= split_spaces_spec(s@));
            }
            r
        },
        Option::Some(i) => {
            let n = s.unicode_len();
            let head = s.substring_char(0, i);
            let tail = s.substring_char(i + 1, n);
            let mut r = split_spaces(tail);
            r.insert(0, head.to_owned());
            proof {
                assert(tail@ =~= s@.skip(i as int + 1));
                assert(head@ =~= s@.take(i as int));
                assert(r.deep_view() =~= split_spaces_spec(s@));
            }
            r
        },
    }
}

} // verus!
