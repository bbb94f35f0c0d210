use rl::bookmark::Bookmark;
use rl::cli::{
    action_name, bookmark_from_form, first_line, main_action, menu_label, parse_tags,
    search_action, tags_field, visit_plan, MainAction, MyError, SearchAction, UrlValidation,
    UrlValidator, VisitPlan,
};
use rl::config::CliConfig;
use rl::time::Timestamp;

fn strings(v: &[&str]) -> Vec<String> {
    v.iter().map(|s| s.to_string()).collect()
}

#[test]
fn my_error_message() {
    assert_eq!(MyError::new("boom").0, "boom");
}

#[test]
fn url_validator() {
    assert!(matches!(UrlValidator.validate("  https://a.b "), UrlValidation::Valid));
    assert!(matches!(UrlValidator.validate(":nogo:"), UrlValidation::Valid));
    match UrlValidator.validate("a.b") {
        UrlValidation::Invalid(m) => assert_eq!(
            m,
            "input must start with one of 'https://', 'http://', 'file://' (or ':nogo:' if you don't need to link to an external file or web page)"
        ),
        UrlValidation::Valid => panic!("accepted a non-URL"),
    }
}

#[test]
fn tags_are_trimmed_and_blank_ones_dropped() {
    assert_eq!(parse_tags(" rust , ,lang,"), strings(&["rust", "lang"]));
    assert_eq!(parse_tags(""), Vec::<String>::new());
    assert_eq!(parse_tags("a b"), strings(&["a b"]));
}

#[test]
fn tags_field_reads_back() {
    let b = Bookmark::new("https://x", "x", strings(&["one", "two words", "three"])).unwrap();
    let field = tags_field(&b);
    assert_eq!(field, "one,two words,three");
    assert_eq!(parse_tags(&field), b.tags);
}

#[test]
fn form_and_edit() {
    let b = bookmark_from_form("  https://a.b ", " A ", "x, y").unwrap();
    assert_eq!(b.url, "https://a.b");
    assert_eq!(b.name, "A");
    assert_eq!(b.tags, strings(&["x", "y"]));
    let e = b.edited(" http://c ", "C", " z ");
    assert_eq!(e.url, " http://c ");
    assert_eq!(e.name, "C");
    assert_eq!(e.tags, strings(&["z"]));
    assert_eq!(e.created, b.created);
    let t = Timestamp::from_unix(1000, 5).unwrap();
    assert_eq!(b.with_visited(t).visited, t);
    assert_eq!(b.with_visited(t).updated, b.updated);
    assert_eq!(b.with_updated(t).updated, t);
}

#[test]
fn menus() {
    assert_eq!(menu_label("Search:    search your bookmarks"), "search your bookmarks");
    assert_eq!(menu_label("Visit:     open this bookmark's file or website (if it links to one)"), "open this bookmark's file or website (if it links to one)");
    assert_eq!(action_name("Add:       add a new bookmark"), "Add:");
    assert_eq!(main_action("Search:    search your bookmarks"), MainAction::Search);
    assert_eq!(main_action("Add:       add a new bookmark"), MainAction::Add);
    assert_eq!(main_action("Quit"), MainAction::Nothing);
    assert_eq!(search_action("Visit:     open"), SearchAction::Visit);
    assert_eq!(search_action("Edit:      edit this bookmark"), SearchAction::Edit);
    assert_eq!(search_action("Delete:    delete this bookmark"), SearchAction::Nothing);
    assert_eq!(first_line("Rust\n  https://x"), "Rust");
    assert_eq!(first_line(""), "");
}

#[test]
fn visiting() {
    let nogo = Bookmark::new(":nogo:", "n", vec![]).unwrap();
    let web = Bookmark::new("https://x", "x", vec![]).unwrap();
    let with_browser = CliConfig {
        browser_bin_path: Some("/usr/bin/firefox".to_string()),
        browser_args: Some(strings(&["--new-tab"])),
    };
    let no_browser = CliConfig { browser_bin_path: None, browser_args: None };
    match visit_plan(&nogo, &with_browser) {
        VisitPlan::Refuse(m) => assert_eq!(m, "Unable to open a file or web page for this bookmark. Try updating the URL to a proper URL or file path"),
        other => panic!("unexpected {:?}", other),
    }
    match visit_plan(&web, &no_browser) {
        VisitPlan::MissingBrowser(m) => assert_eq!(m, "Please add an entry for 'cli.browser_bin_path' in your installation's config.local file"),
        other => panic!("unexpected {:?}", other),
    }
    match visit_plan(&web, &with_browser) {
        VisitPlan::Launch { program, args } => {
            assert_eq!(program, "/usr/bin/firefox");
            assert_eq!(args, strings(&["--new-tab", "https://x"]));
        }
        other => panic!("unexpected {:?}", other),
    }
    let bare = CliConfig { browser_bin_path: Some("b".to_string()), browser_args: None };
    match visit_plan(&web, &bare) {
        VisitPlan::Launch { args, .. } => assert_eq!(args, strings(&["https://x"])),
        other => panic!("unexpected {:?}", other),
    }
}

#[test]
fn validator_agrees_with_url_field_check() {
    for input in ["https://a", "  file://b", " x ", "", ":nogo:", " http:/ "] {
        let valid = matches!(UrlValidator.validate(input), UrlValidation::Valid);
        assert_eq!(valid, rl::bookmark::is_bookmark_url_field(input));
    }
}
