use pipboy::errors::Error;
use pipboy::ids::pid_eq;
use pipboy::ids::split_mod_value;
use pipboy::ids::PackageId;
use pipboy::text::contains_str;
use pipboy::text::join_lines;
use pipboy::text::parse_lines;
use pipboy::text::split_str;

#[test]
fn parse_accepts_two_segments() {
    let p = PackageId::parse("alice/sunrise").unwrap();
    assert_eq!(p.author, "alice");
    assert_eq!(p.name, "sunrise");
}

#[test]
fn parse_rejects_missing_separator() {
    assert_eq!(PackageId::parse("alicesunrise"), Err(Error::ConfigError));
}

#[test]
fn parse_rejects_three_segments() {
    assert_eq!(PackageId::parse("a/b/c"), Err(Error::ConfigError));
}

#[test]
fn parse_rejects_empty_segments() {
    assert_eq!(PackageId::parse("/sunrise"), Err(Error::ConfigError));
    assert_eq!(PackageId::parse("alice/"), Err(Error::ConfigError));
    assert_eq!(PackageId::parse(""), Err(Error::ConfigError));
}

#[test]
fn render_writes_back_the_same_string() {
    let p = PackageId::parse("alice/sunrise").unwrap();
    assert_eq!(p.render(), "alice/sunrise");
    let q = PackageId::parse(p.render().as_str()).unwrap();
    assert!(pid_eq(&p, &q));
}

#[test]
fn split_mod_value_keeps_every_piece() {
    assert_eq!(split_mod_value("a/b"), vec!["a", "b"]);
    assert_eq!(split_mod_value("a//b"), vec!["a", "", "b"]);
    assert_eq!(split_mod_value("plain"), vec!["plain"]);
}

#[test]
fn split_str_matches_str_split() {
    assert_eq!(split_str("x,y", ','), vec!["x", "y"]);
    assert_eq!(split_str("", ','), vec![""]);
    assert_eq!(split_str("x,", ','), vec!["x", ""]);
    assert_eq!(split_str(",x", ','), vec!["", "x"]);
}

#[test]
fn parse_lines_matches_str_lines() {
    assert_eq!(parse_lines("a\nb\n"), vec!["a", "b"]);
    assert_eq!(parse_lines("a\nb"), vec!["a", "b"]);
    assert_eq!(parse_lines(""), Vec::<String>::new());
    assert_eq!(parse_lines("a\n\nb"), vec!["a", "", "b"]);
}

#[test]
fn parse_lines_strips_a_trailing_carriage_return() {
    assert_eq!(parse_lines("a\r\nb\r\n"), vec!["a", "b"]);
    assert_eq!(parse_lines("a\r\nb"), vec!["a", "b"]);
    // Only a trailing carriage return is stripped; interior ones stay.
    assert_eq!(parse_lines("a\rx\ny"), vec!["a\rx", "y"]);
    assert_eq!(parse_lines("\r\n"), vec![""]);
}

#[test]
fn lines_round_trip_concrete() {
    let items = vec![String::from("Data/one.esp"), String::from("Data/two.esp")];
    let joined = join_lines(&items);
    assert_eq!(joined, "Data/one.esp\nData/two.esp\n");
    assert_eq!(parse_lines(joined.as_str()), items);
}

#[test]
fn contains_str_finds_only_members() {
    let v = vec![String::from("a"), String::from("b")];
    assert!(contains_str(&v, &String::from("a")));
    assert!(!contains_str(&v, &String::from("c")));
}

#[test]
fn pid_eq_compares_by_value() {
    let a = PackageId::parse("alice/sunrise").unwrap();
    let b = PackageId::parse("alice/sunrise").unwrap();
    let c = PackageId::parse("alice/sunset").unwrap();
    assert!(pid_eq(&a, &b));
    assert!(!pid_eq(&a, &c));
}
