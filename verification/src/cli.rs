//! Run configuration. The tool's parameters arrive from the command line
//! and from environment overrides; both are handed in as plain values and
//! resolved here, field by field: a nonempty command-line value wins, then
//! a nonempty environment value, then the documented default. The core
//! never reads ambient process state itself.

use vstd::prelude::*;
use vstd::string::{StrSliceExecFns, StringExecFns};

verus! {

/// The run's parameters, as the diff driver consumes them.
pub struct Params {
    /// Source connection string.
    pub source_dsn: String,
    /// Destination connection string.
    pub dest_dsn: String,
    /// Table name for INSERT statements against the source.
    pub source_table_name: String,
    /// Table name for INSERT statements against the destination.
    pub dest_table_name: String,
    /// Output format: `hashmap` or `insert`.
    pub output_format: String,
    /// Query to run on the source database.
    pub source_query: String,
    /// Query to run on the destination database.
    pub dest_query: String,
    /// Bound on the combined number of unmatched rows.
    pub max_unmatched: usize,
}

/// The environment overrides, one per parameter, each absent when the
/// variable is unset. The caller reads them; this module only resolves.
pub struct ParamsEnv {
    /// Override for the source connection string.
    pub source_dsn: Option<String>,
    /// Override for the destination connection string.
    pub dest_dsn: Option<String>,
    /// Override for the source table name.
    pub source_table_name: Option<String>,
    /// Override for the destination table name.
    pub dest_table_name: Option<String>,
    /// Override for the output format.
    pub output_format: Option<String>,
    /// Override for the source query.
    pub source_query: Option<String>,
    /// Override for the destination query.
    pub dest_query: Option<String>,
    /// Override for the unmatched-row bound.
    pub max_unmatched: Option<String>,
}

/// The resolved text of one parameter: the given value if nonempty, else
/// a nonempty environment value, else the default.
pub open spec fn resolve_spec(cur: Seq<char>, env: Option<String>, def: Seq<char>) -> Seq<char> {
    if cur.len() > 0 {
        cur
    } else {
        match env {
            Option::Some(s) => if s@.len() > 0 {
                s@
            } else {
                def
            },
            Option::None => def,
        }
    }
}

/// Whether the character is a decimal digit.
pub open spec fn is_digit(c: char) -> bool {
    48 <= c as u32 <= 57
}

/// Whether every character of the sequence is a decimal digit.
pub open spec fn all_digits(s: Seq<char>) -> bool {
    forall|k: int| 0 <= k < s.len() ==> is_digit(#[trigger] s[k])
}

/// The numeric value of a digit sequence, most significant first.
pub open spec fn digits_val(s: Seq<char>) -> nat
    decreases s.len(),
{
    if s.len() == 0 {
        0
    } else {
        (digits_val(s.drop_last()) * 10 + (s.last() as u32 - 48)) as nat
    }
}

/// What parsing a decimal number yields: the value of a nonempty all-digit
/// sequence that fits, nothing otherwise.
pub open spec fn parse_u32_spec(s: Seq<char>) -> Option<u32> {
    if s.len() > 0 && all_digits(s) && digits_val(s) <= u32::MAX {
        Option::Some(digits_val(s) as u32)
    } else {
        Option::None
    }
}

/// A digit prefix never exceeds the whole sequence's value.
proof fn lemma_digits_val_prefix(s: Seq<char>, i: int)
    requires
        0 <= i <= s.len(),
        all_digits(s),
    ensures
        digits_val(s.take(i)) <= digits_val(s),
    decreases s.len(),
{
    if i < s.len() {
        assert(s.drop_last().take(i) =~= s.take(i));
        assert(all_digits(s.drop_last()));
        lemma_digits_val_prefix(s.drop_last(), i);
    } else {
        assert(s.take(i) =~= s);
    }
}

/// Parses a decimal `u32`, exactly as `parse_u32_spec` says: digits only,
/// no sign, no overflow.
pub fn parse_u32(s: &str) -> (r: Option<u32>)
    ensures
        r == parse_u32_spec(s@),
{
    let n = s.unicode_len();
    if n == 0 {
        return None;
    }
    let mut val: u32 = 0;
    let mut i: usize = 0;
    while i < n
        invariant
            n == s@.len(),
            0 < n,
            i <= n,
            all_digits(s@.take(i as int)),
            val == digits_val(s@.take(i as int)),
        decreases n - i,
    {
        let c = s.get_char(i);
        let cv = c as u32;
        if cv < 48 || cv > 57 {
            proof {
                assert(!is_digit(s@[i as int]));
            }
            return None;
        }
        let d = cv - 48;
        if val > (u32::MAX - d) / 10 {
            proof {
                assert(s@.take(i as int + 1).drop_last() =~= s@.take(i as int));
                assert(digits_val(s@.take(i as int + 1)) > u32::MAX);
                if all_digits(s@) {
                    lemma_digits_val_prefix(s@, i as int + 1);
                    assert(digits_val(s@) > u32::MAX);
                }
            }
            return None;
        }
        val = val * 10 + d;
        proof {
            assert(s@.take(i as int + 1).drop_last() =~= s@.take(i as int));
            assert(all_digits(s@.take(i as int + 1)));
            assert(val == digits_val(s@.take(i as int + 1)));
        }
        i += 1;
    }
    proof {
        assert(s@.take(n as int) =~= s@);
    }
    Some(val)
}

/// Resolves one text parameter.
fn resolve_str(cur: String, env: &Option<String>, def: &str) -> (r: String)
    ensures
        r@ == resolve_spec(cur@, *env, def@),
{
    if cur.as_str().unicode_len() > 0 {
        cur
    } else {
        match env {
            Option::Some(s) => {
                if s.as_str().unicode_len() > 0 {
                    s.clone()
                } else {
                    String::from_str(def)
                }
            },
            Option::None => String::from_str(def),
        }
    }
}

/// The fallback bound on unmatched rows.
pub open spec fn default_max_unmatched() -> int {
    1048576
}

/// The resolved unmatched-row bound: the given value if nonzero, else a
/// parsable environment value, else the default.
pub open spec fn resolve_max_spec(cur: usize, env: Option<String>) -> int {
    if cur != 0 {
        cur as int
    } else {
        match env {
            Option::Some(s) => match parse_u32_spec(s@) {
                Option::Some(v) => v as int,
                Option::None => default_max_unmatched(),
            },
            Option::None => default_max_unmatched(),
        }
    }
}

impl Params {
    /// Resolves the final parameters from the command-line values and the
    /// environment overrides. Each text field takes the command-line
    /// value if nonempty, else the environment value, else its default;
    /// the destination table, query and connection string each default to
    /// their resolved source counterpart.
    pub fn get_args(cli: Params, env: &ParamsEnv) -> (r: Params)
        ensures
            r.max_unmatched as int == resolve_max_spec(cli.max_unmatched, env.max_unmatched),
            r.output_format@ == resolve_spec(cli.output_format@, env.output_format, "hashmap"@),
            r.source_table_name@ == resolve_spec(
                cli.source_table_name@,
                env.source_table_name,
                "t1"@,
            ),
            r.dest_table_name@ == resolve_spec(
                cli.dest_table_name@,
                env.dest_table_name,
                r.source_table_name@,
            ),
            r.source_query@ == resolve_spec(
                cli.source_query@,
                env.source_query,
                "select * from pg_tables"@,
            ),
            r.dest_query@ == resolve_spec(cli.dest_query@, env.dest_query, r.source_query@),
            r.source_dsn@ == resolve_spec(cli.source_dsn@, env.source_dsn, ""@),
            r.dest_dsn@ == resolve_spec(cli.dest_dsn@, env.dest_dsn, r.source_dsn@),
    {
        let max_unmatched: usize = if cli.max_unmatched != 0 {
            cli.max_unmatched
        } else {
            let parsed = match &env.max_unmatched {
                Option::Some(s) => parse_u32(s.as_str()),
                Option::None => None,
            };
            match parsed {
                Option::Some(v) => v as usize,
                Option::None => 1048576,
            }
        };
        let output_format = resolve_str(cli.output_format, &env.output_format, "hashmap");
        let source_table_name = resolve_str(cli.source_table_name, &env.source_table_name, "t1");
        let dest_table_name = resolve_str(
            cli.dest_table_name,
            &env.dest_table_name,
            source_table_name.as_str(),
        );
        let source_query = resolve_str(
            cli.source_query,
            &env.source_query,
            "select * from pg_tables",
        );
        let dest_query = resolve_str(cli.dest_query, &env.dest_query, source_query.as_str());
        let source_dsn = resolve_str(cli.source_dsn, &env.source_dsn, "");
        let dest_dsn = resolve_str(cli.dest_dsn, &env.dest_dsn, source_dsn.as_str());
        Params {
            source_dsn,
            dest_dsn,
            source_table_name,
            dest_table_name,
            output_format,
            source_query,
            dest_query,
            max_unmatched,
        }
    }
}

/// The text after tilde expansion: a lone `~`, or a leading `~/`, stands
/// for the home directory; anything else passes through unchanged.
pub open spec fn shellexpand_spec(path: Seq<char>, home: Seq<char>) -> Seq<char> {
    if path == seq!['~'] {
        home
    } else if path.len() >= 2 && path[0] == '~' && path[1] == '/' {
        home + path.skip(1)
    } else {
        path
    }
}

/// Expands a leading tilde in a path against the given home directory.
pub fn shellexpand(path: &str, home: &str) -> (r: String)
    ensures
        r@ == shellexpand_spec(path@, home@),
{
    let n = path.unicode_len();
    if n >= 1 && path.get_char(0) == '~' {
        if n == 1 {
            proof {
                assert(path@ =~= seq!['~']);
            }
            home.to_owned()
        } else if path.get_char(1) == '/' {
            let mut r = home.to_owned();
            let rest = path.substring_char(1, n);
            r.append(rest);
            proof {
                assert(path@ != seq!['~']);
                assert(r@ =~= home@ + path@.skip(1));
            }
            r
        } else {
            proof {
                assert(path@ != seq!['~'] || n == 1);
            }
            path.to_owned()
        }
    } else {
        proof {
            if path@ == seq!['~'] {
                assert(path@[0] == '~');
            }
        }
        path.to_owned()
    }
}

} // verus!
