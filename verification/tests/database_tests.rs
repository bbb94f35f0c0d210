use rl::bookmark::Bookmark;
use rl::config::{CliConfig, Config};
use rl::context::Context;
use rl::database::{Database, SqlValue};
use rl::time::Timestamp;

fn at(secs: i64) -> Timestamp {
    Timestamp::from_unix(secs, 0).unwrap()
}

fn sample() -> Bookmark {
    Bookmark::builder()
        .url("https://x")
        .name("X")
        .tags(vec!["a".to_string(), "b".to_string()])
        .created(at(1))
        .updated(at(2))
        .visited(at(3))
        .build()
        .unwrap()
}

fn text(v: &SqlValue) -> String {
    match v {
        SqlValue::Text(s) => s.clone(),
        SqlValue::Time(t) => format!("@{}", t.secs()),
    }
}

#[test]
fn add_plan() {
    let plan = Database::add_bookmark_statements(&sample());
    let sql: Vec<&str> = plan.iter().map(|s| s.sql.as_str()).collect();
    assert_eq!(
        sql,
        vec![
            "INSERT INTO bookmark (url, name, created, updated, visited)\n            VALUES (?1, ?2, ?3, ?4, ?5)",
            "INSERT INTO tag (name) VALUES (?1) ON CONFLICT (name) DO NOTHING",
            "INSERT INTO bookmark_tag (tag_name, bookmark_url) VALUES ($1, $2)",
            "INSERT INTO tag (name) VALUES (?1) ON CONFLICT (name) DO NOTHING",
            "INSERT INTO bookmark_tag (tag_name, bookmark_url) VALUES ($1, $2)",
        ]
    );
    let params: Vec<Vec<String>> = plan.iter().map(|s| s.params.iter().map(text).collect()).collect();
    assert_eq!(params[0], vec!["https://x", "X", "@1", "@2", "@3"]);
    assert_eq!(params[2], vec!["a", "https://x"]);
    assert_eq!(params[3], vec!["b"]);
}

#[test]
fn delete_and_update_plans() {
    let b = sample();
    let del = Database::delete_bookmark_statements(&b);
    let sql: Vec<&str> = del.iter().map(|s| s.sql.as_str()).collect();
    assert_eq!(
        sql,
        vec![
            "DELETE FROM bookmark_tag WHERE bookmark_url = ?1 AND tag_name = ?2",
            "DELETE FROM tag WHERE name = ?1",
            "DELETE FROM bookmark_tag WHERE bookmark_url = ?1 AND tag_name = ?2",
            "DELETE FROM tag WHERE name = ?1",
            "DELETE FROM bookmark WHERE url = ?1",
        ]
    );
    assert_eq!(del[0].params.iter().map(text).collect::<Vec<_>>(), vec!["https://x", "a"]);
    let upd = Database::update_bookmark_statements(&b, &b.with_visited(at(9)));
    assert_eq!(upd.len(), 10);
    assert_eq!(upd[4].sql, "DELETE FROM bookmark WHERE url = ?1");
    assert_eq!(text(&upd[5].params[4]), "@9");
}

#[test]
fn rows_become_bookmarks() {
    let b = Bookmark::from_row("u".to_string(), "n".to_string(), at(1), at(2), at(3), "[\"a\",\"b\"]");
    assert_eq!(b.tags, vec!["[\"a\"".to_string(), "\"b\"]".to_string()]);
    assert_eq!(b.url, "u");
    assert_eq!(b.visited, at(3));
}

#[test]
fn context_holds_its_parts() {
    let config = Config {
        cli: CliConfig { browser_bin_path: None, browser_args: None },
        database_name: "database.db".to_string(),
        assets_dir: "/tmp".to_string(),
    };
    let db = Database::new(&config);
    let ctx = Context::new(&db, &config);
    assert_eq!(ctx.config.database_name, "database.db");
    assert_eq!(ctx.database.get_config().assets_dir, "/tmp");
}
