use rl::bookmark::{extract_url_from_autocomplete_selection, is_bookmark_url_field, Bookmark};
use rl::time::Timestamp;

fn at(secs: i64) -> Timestamp {
    Timestamp::from_unix(secs, 0).unwrap()
}

fn sample(tags: Vec<&str>) -> Bookmark {
    Bookmark::builder()
        .url("https://rust-lang.org")
        .name("Rust")
        .tags(tags.into_iter().map(|t| t.to_string()).collect())
        .created(at(1431648000))
        .updated(at(1431648001))
        .visited(at(1431648002))
        .build()
        .unwrap()
}

#[test]
fn url_fields() {
    assert!(is_bookmark_url_field("https://example.com"));
    assert!(is_bookmark_url_field("  http://example.com  "));
    assert!(is_bookmark_url_field("file:///tmp/a.txt"));
    assert!(is_bookmark_url_field(":nogo: notes"));
    assert!(!is_bookmark_url_field("ftp://example.com"));
    assert!(!is_bookmark_url_field("example.com"));
    assert!(!is_bookmark_url_field(""));
    assert!(!is_bookmark_url_field("HTTPS://EXAMPLE.COM"));
}

#[test]
fn extract_url_from_selection() {
    assert_eq!(
        extract_url_from_autocomplete_selection("Rust\n  lang\n  https://rust-lang.org\n  "),
        Some("https://rust-lang.org".to_string())
    );
    assert_eq!(
        extract_url_from_autocomplete_selection("a\n  file://x\n  http://y"),
        Some("file://x".to_string())
    );
    assert_eq!(extract_url_from_autocomplete_selection("no url here\nnor here"), None);
    assert_eq!(extract_url_from_autocomplete_selection(""), None);
}

#[test]
fn time_text() {
    assert_eq!(at(1431648000).to_text(), "2015-05-15 00:00:00 UTC");
    assert!(Timestamp::from_unix(0, 2_000_000_000).is_none());
    assert!(Timestamp::from_unix(i64::MAX, 0).is_none());
    let t = Timestamp::from_unix(59, 1_500_000_000).unwrap();
    assert_eq!((t.secs(), t.nanos()), (59, 1_500_000_000));
}

#[test]
fn short_form() {
    assert_eq!(sample(vec!["lang", "sys"]).to_string(), "Rust\n  lang, sys\n  https://rust-lang.org\n  ");
    assert_eq!(sample(vec![]).to_string(), "Rust\n  https://rust-lang.org\n  ");
}

#[test]
fn long_form() {
    assert_eq!(
        sample(vec!["lang", "sys"]).to_string_alternate(),
        "\n   name    | Rust\n   tags    | lang,sys\n   url     | https://rust-lang.org\n   created | 2015-05-15 00:00:00 UTC\n   updated | 2015-05-15 00:00:01 UTC\n   visited | 2015-05-15 00:00:02 UTC\n"
    );
}

#[test]
fn builder_and_new() {
    let b = sample(vec!["a"]);
    assert_eq!(b.url, "https://rust-lang.org");
    assert_eq!(b.name, "Rust");
    assert_eq!(b.tags, vec!["a".to_string()]);
    assert_eq!(b.created, at(1431648000));
    let n = Bookmark::new(":nogo:", "n", vec!["t".to_string()]).unwrap();
    assert!(n.is_nogo());
    assert!(!b.is_nogo());
    assert_eq!(n.name, "n");
    let d = b.duplicate();
    assert_eq!(d.url, b.url);
    assert_eq!(d.visited, b.visited);
    let built = Bookmark::builder().url("u").name("v").build().unwrap();
    assert!(built.tags.is_empty());
}

#[test]
fn clock_readings() {
    let after = Timestamp::from_clock_reading(false, 1431648000, 5).unwrap();
    assert_eq!((after.secs(), after.nanos()), (1431648000, 5));
    let before = Timestamp::from_clock_reading(true, 10, 0).unwrap();
    assert_eq!((before.secs(), before.nanos()), (-10, 0));
    let before_frac = Timestamp::from_clock_reading(true, 10, 250_000_000).unwrap();
    assert_eq!((before_frac.secs(), before_frac.nanos()), (-11, 750_000_000));
    assert!(Timestamp::from_clock_reading(false, u64::MAX, 0).is_none());
    assert!(Timestamp::now().is_some());
}
