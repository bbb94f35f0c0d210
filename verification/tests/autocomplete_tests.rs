use rl::autocomplete::BookmarkAutocompleter;
use rl::bookmark::Bookmark;

fn bm(url: &str, name: &str, tags: &[&str]) -> Bookmark {
    Bookmark::new(url, name, tags.iter().map(|t| t.to_string()).collect()).unwrap()
}

#[test]
fn blank_input_lists_everything() {
    let a = bm("https://a", "A", &[]);
    let b = bm("https://b", "B", &["t"]);
    let ac = BookmarkAutocompleter::new(vec![a.clone(), b.clone()]);
    assert_eq!(ac.get_suggestions("  "), vec![a.to_string(), b.to_string()]);
}

#[test]
fn ranked_by_ascending_weight_and_stable() {
    let heavy = bm("https://rust-lang.org", "Rust", &["rust"]);
    let none = bm("https://python.org", "Python", &[]);
    let light1 = bm("https://x", "Rusty", &[]);
    let light2 = bm("https://y", "y", &["RUST"]);
    let ac = BookmarkAutocompleter::new(vec![heavy.clone(), none, light1.clone(), light2.clone()]);
    assert_eq!(
        ac.get_suggestions("RuSt"),
        vec![light1.to_string(), light2.to_string(), heavy.to_string()]
    );
    assert!(ac.get_suggestions("nothing-matches").is_empty());
}

#[test]
fn chosen_suggestion_gives_back_url() {
    for b in [
        bm("https://a.example", "A page", &["x", "y"]),
        bm(" file:///notes.txt", "notes", &[]),
        bm(":nogo:", "draft", &["todo"]),
    ] {
        let picked = rl::bookmark::extract_url_from_autocomplete_selection(&b.to_string());
        assert_eq!(picked, Some(b.url.trim().to_string()));
    }
    let tricky = bm("https://real", "http://name-looks-like-url", &[]);
    assert_eq!(
        rl::bookmark::extract_url_from_autocomplete_selection(&tricky.to_string()),
        Some("http://name-looks-like-url".to_string())
    );
}

#[test]
fn many_tags_still_ranked() {
    let tags: Vec<String> = (0..300).map(|i| format!("tag{i}")).collect();
    let refs: Vec<&str> = tags.iter().map(|t| t.as_str()).collect();
    let big = bm("https://big", "Big", &refs);
    let small = bm("https://tag", "small", &[]);
    let ac = BookmarkAutocompleter::new(vec![big.clone(), small.clone()]);
    assert_eq!(ac.get_suggestions("zzz"), Vec::<String>::new());
    assert_eq!(ac.get_suggestions("tag"), vec![small.to_string(), big.to_string()]);
    assert_eq!(ac.get_suggestions(""), vec![big.to_string(), small.to_string()]);
}
