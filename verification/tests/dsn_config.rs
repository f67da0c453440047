use dbdiff::cli::{parse_u32, shellexpand, Params, ParamsEnv};
use dbdiff::dsn::{Dsn, DsnEnv};

#[test]
fn dsn_parse_and_render_keep_order() {
    let d = Dsn::from_string("host=/tmp user=bob");
    assert_eq!(d.as_string(), "host=/tmp user=bob");
}

#[test]
fn dsn_later_value_wins_in_place() {
    let d = Dsn::from_string("a=1 b=2 a=3");
    assert_eq!(d.as_string(), "a=3 b=2");
}

#[test]
fn dsn_words_without_equals_are_ignored() {
    let d = Dsn::from_string("xyz a=1  b=2");
    assert_eq!(d.as_string(), "a=1 b=2");
}

#[test]
fn dsn_empty_values_and_embedded_equals() {
    assert_eq!(Dsn::from_string("a=").as_string(), "a=");
    assert_eq!(Dsn::from_string("a=b=c").as_string(), "a=b=c");
    assert_eq!(Dsn::from_string("").as_string(), "");
}

#[test]
fn dsn_merge_prefers_own_entries() {
    let own = Dsn::from_string("a=1 b=2");
    let base = Dsn::from_string("b=9 c=3");
    let merged = own.merge(base);
    assert_eq!(merged.as_string(), "b=2 c=3 a=1");
}

fn empty_env() -> DsnEnv {
    DsnEnv {
        pguser: None,
        pgdatabase: None,
        pghost: None,
        pgsslmode: None,
        pgsslcert: None,
        pgsslkey: None,
    }
}

#[test]
fn dsn_defaults_from_os_user() {
    let d = Dsn::from_defaults(&empty_env(), "bob");
    assert_eq!(
        d.as_string(),
        "user=bob dbname=bob host=/tmp sslmode=prefer \
         sslcert=~/.postgresql/postgresql.crt sslkey=~/.postgresql/postgresql.key \
         sslrootcert=~/.postgresql/root.crt sslcrl=~/.postgresql/root.crl"
    );
}

#[test]
fn dsn_defaults_prefer_environment() {
    let mut env = empty_env();
    env.pguser = Some(String::from("alice"));
    env.pghost = Some(String::from("db.example"));
    let d = Dsn::from_defaults(&env, "bob");
    let s = d.as_string();
    assert!(s.starts_with("user=alice dbname=alice host=db.example "));
}

#[test]
fn parse_u32_accepts_digits_only() {
    assert_eq!(parse_u32("42"), Some(42));
    assert_eq!(parse_u32("0"), Some(0));
    assert_eq!(parse_u32("4294967295"), Some(4294967295));
    assert_eq!(parse_u32("4294967296"), None);
    assert_eq!(parse_u32(""), None);
    assert_eq!(parse_u32("x9"), None);
    assert_eq!(parse_u32("-3"), None);
    assert_eq!(parse_u32("99999999999999999999"), None);
}

fn empty_params() -> Params {
    Params {
        source_dsn: String::new(),
        dest_dsn: String::new(),
        source_table_name: String::new(),
        dest_table_name: String::new(),
        output_format: String::new(),
        source_query: String::new(),
        dest_query: String::new(),
        max_unmatched: 0,
    }
}

fn no_overrides() -> ParamsEnv {
    ParamsEnv {
        source_dsn: None,
        dest_dsn: None,
        source_table_name: None,
        dest_table_name: None,
        output_format: None,
        source_query: None,
        dest_query: None,
        max_unmatched: None,
    }
}

#[test]
fn get_args_fills_documented_defaults() {
    let p = Params::get_args(empty_params(), &no_overrides());
    assert_eq!(p.output_format, "hashmap");
    assert_eq!(p.source_table_name, "t1");
    assert_eq!(p.dest_table_name, "t1");
    assert_eq!(p.source_query, "select * from pg_tables");
    assert_eq!(p.dest_query, "select * from pg_tables");
    assert_eq!(p.source_dsn, "");
    assert_eq!(p.dest_dsn, "");
    assert_eq!(p.max_unmatched, 1048576);
}

#[test]
fn get_args_prefers_given_values_then_environment() {
    let mut cli = empty_params();
    cli.output_format = String::from("insert");
    cli.max_unmatched = 7;
    let mut env = no_overrides();
    env.output_format = Some(String::from("hashmap"));
    env.source_table_name = Some(String::from("src_t"));
    env.max_unmatched = Some(String::from("42"));
    let p = Params::get_args(cli, &env);
    assert_eq!(p.output_format, "insert");
    assert_eq!(p.source_table_name, "src_t");
    assert_eq!(p.dest_table_name, "src_t");
    assert_eq!(p.max_unmatched, 7);
}

#[test]
fn get_args_parses_environment_bound() {
    let mut env = no_overrides();
    env.max_unmatched = Some(String::from("42"));
    let p = Params::get_args(empty_params(), &env);
    assert_eq!(p.max_unmatched, 42);
    let mut env = no_overrides();
    env.max_unmatched = Some(String::from("not-a-number"));
    let p = Params::get_args(empty_params(), &env);
    assert_eq!(p.max_unmatched, 1048576);
}

#[test]
fn get_args_chains_destination_fallbacks() {
    let mut cli = empty_params();
    cli.source_dsn = String::from("host=a");
    cli.source_query = String::from("select 1");
    let p = Params::get_args(cli, &no_overrides());
    assert_eq!(p.dest_dsn, "host=a");
    assert_eq!(p.dest_query, "select 1");
}

#[test]
fn tilde_expansion() {
    assert_eq!(shellexpand("~", "/home/u"), "/home/u");
    assert_eq!(shellexpand("~/x/y", "/home/u"), "/home/u/x/y");
    assert_eq!(shellexpand("~other/x", "/home/u"), "~other/x");
    assert_eq!(shellexpand("/abs/path", "/home/u"), "/abs/path");
    assert_eq!(shellexpand("", "/home/u"), "");
}
