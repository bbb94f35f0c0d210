//! The bookmark store: which statements adding, deleting and updating a
//! bookmark run, in which order and with which parameters, and how a row
//! read back becomes a bookmark.
use crate::bookmark::{Bookmark, BookmarkModel};
use crate::config::Config;
use crate::text::{split, split_on, texts, to_text};
use crate::time::Timestamp;
use vstd::prelude::*;

verus! {

/// A parameter of a statement.
#[derive(Debug)]
pub enum SqlValue {
    Text(String),
    Time(Timestamp),
}

/// A parameter, as a mathematical value.
pub enum SqlValueModel {
    Text(Seq<char>),
    Time((i64, u32)),
}

impl View for SqlValue {
    type V = SqlValueModel;

    open spec fn view(&self) -> SqlValueModel {
        match self {
            SqlValue::Text(s) => SqlValueModel::Text(s@),
            SqlValue::Time(t) => SqlValueModel::Time(t@),
        }
    }
}

/// A statement with its parameters, in the order of its placeholders.
#[derive(Debug)]
pub struct SqlStatement {
    pub sql: String,
    pub params: Vec<SqlValue>,
}

/// A statement, as mathematical values.
#[verifier::ext_equal]
pub struct SqlStatementModel {
    pub sql: Seq<char>,
    pub params: Seq<SqlValueModel>,
}

impl View for SqlStatement {
    type V = SqlStatementModel;

    open spec fn view(&self) -> SqlStatementModel {
        SqlStatementModel { sql: self.sql@, params: self.params@.map_values(|p: SqlValue| p@) }
    }
}

/// The statements of a plan, as mathematical values.
pub open spec fn plan_view(v: Seq<SqlStatement>) -> Seq<SqlStatementModel> {
    v.map_values(|s: SqlStatement| s@)
}

pub open spec fn insert_bookmark_sql() -> Seq<char> {
    "INSERT INTO bookmark (url, name, created, updated, visited)\n            VALUES (?1, ?2, ?3, ?4, ?5)"@
}

pub open spec fn insert_tag_sql() -> Seq<char> {
    "INSERT INTO tag (name) VALUES (?1) ON CONFLICT (name) DO NOTHING"@
}

pub open spec fn insert_bookmark_tag_sql() -> Seq<char> {
    "INSERT INTO bookmark_tag (tag_name, bookmark_url) VALUES ($1, $2)"@
}

pub open spec fn delete_bookmark_tag_sql() -> Seq<char> {
    "DELETE FROM bookmark_tag WHERE bookmark_url = ?1 AND tag_name = ?2"@
}

pub open spec fn delete_tag_sql() -> Seq<char> {
    "DELETE FROM tag WHERE name = ?1"@
}

pub open spec fn delete_bookmark_sql() -> Seq<char> {
    "DELETE FROM bookmark WHERE url = ?1"@
}

/// Inserts the bookmark's own row.
pub open spec fn insert_bookmark_stmt(b: BookmarkModel) -> SqlStatementModel {
    SqlStatementModel {
        sql: insert_bookmark_sql(),
        params: seq![
            SqlValueModel::Text(b.url),
            SqlValueModel::Text(b.name),
            SqlValueModel::Time(b.created),
            SqlValueModel::Time(b.updated),
            SqlValueModel::Time(b.visited),
        ],
    }
}

/// For each tag in order: insert the tag unless it is there, then link it
/// to the bookmark.
pub open spec fn tag_inserts(tags: Seq<Seq<char>>, url: Seq<char>) -> Seq<SqlStatementModel>
    decreases tags.len(),
{
    if tags.len() == 0 {
        Seq::<SqlStatementModel>::empty()
    } else {
        tag_inserts(tags.drop_last(), url) + seq![
            SqlStatementModel {
                sql: insert_tag_sql(),
                params: seq![SqlValueModel::Text(tags.last())],
            },
            SqlStatementModel {
                sql: insert_bookmark_tag_sql(),
                params: seq![SqlValueModel::Text(tags.last()), SqlValueModel::Text(url)],
            },
        ]
    }
}

/// For each tag in order: unlink it from the bookmark, then delete the tag.
pub open spec fn tag_deletes(tags: Seq<Seq<char>>, url: Seq<char>) -> Seq<SqlStatementModel>
    decreases tags.len(),
{
    if tags.len() == 0 {
        Seq::<SqlStatementModel>::empty()
    } else {
        tag_deletes(tags.drop_last(), url) + seq![
            SqlStatementModel {
                sql: delete_bookmark_tag_sql(),
                params: seq![SqlValueModel::Text(url), SqlValueModel::Text(tags.last())],
            },
            SqlStatementModel {
                sql: delete_tag_sql(),
                params: seq![SqlValueModel::Text(tags.last())],
            },
        ]
    }
}

/// Adding a bookmark: its row, then its tags.
pub open spec fn add_plan(b: BookmarkModel) -> Seq<SqlStatementModel> {
    seq![insert_bookmark_stmt(b)] + tag_inserts(b.tags, b.url)
}

/// Deleting a bookmark: its tags, then its row.
pub open spec fn delete_plan(b: BookmarkModel) -> Seq<SqlStatementModel> {
    tag_deletes(b.tags, b.url) + seq![
        SqlStatementModel {
            sql: delete_bookmark_sql(),
            params: seq![SqlValueModel::Text(b.url)],
        },
    ]
}

/// Updating a bookmark: deleting the old one, then adding the new one.
pub open spec fn update_plan(old: BookmarkModel, new: BookmarkModel) -> Seq<SqlStatementModel> {
    delete_plan(old) + add_plan(new)
}

/// The statements that remove the tags of a bookmark: for the tag at `i`,
/// the statement at `2 * i` unlinks it from `url` and the one after deletes
/// it.
pub proof fn lemma_tag_deletes_at(tags: Seq<Seq<char>>, url: Seq<char>)
    ensures
        tag_deletes(tags, url).len() == 2 * tags.len(),
        forall|i: int|
            0 <= i < tags.len() ==> tag_deletes(tags, url)[2 * i] == (SqlStatementModel {
                sql: delete_bookmark_tag_sql(),
                params: seq![SqlValueModel::Text(url), SqlValueModel::Text(tags[i])],
            }) && tag_deletes(tags, url)[2 * i + 1] == (SqlStatementModel {
                sql: delete_tag_sql(),
                params: seq![SqlValueModel::Text(tags[i])],
            }),
    decreases tags.len(),
{
    if tags.len() > 0 {
        lemma_tag_deletes_at(tags.drop_last(), url);
        assert forall|i: int| 0 <= i < tags.len() - 1 implies tags.drop_last()[i] == tags[i] by {}
    }
}

/// The statements that add the tags of a bookmark: for the tag at `i`, the
/// statement at `2 * i` inserts it and the one after links it to `url`.
pub proof fn lemma_tag_inserts_at(tags: Seq<Seq<char>>, url: Seq<char>)
    ensures
        tag_inserts(tags, url).len() == 2 * tags.len(),
        forall|i: int|
            0 <= i < tags.len() ==> tag_inserts(tags, url)[2 * i] == (SqlStatementModel {
                sql: insert_tag_sql(),
                params: seq![SqlValueModel::Text(tags[i])],
            }) && tag_inserts(tags, url)[2 * i + 1] == (SqlStatementModel {
                sql: insert_bookmark_tag_sql(),
                params: seq![SqlValueModel::Text(tags[i]), SqlValueModel::Text(url)],
            }),
    decreases tags.len(),
{
    if tags.len() > 0 {
        lemma_tag_inserts_at(tags.drop_last(), url);
        assert forall|i: int| 0 <= i < tags.len() - 1 implies tags.drop_last()[i] == tags[i] by {}
    }
}

/// Updating replaces the old bookmark with the new one: first, for each tag
/// of the old bookmark, its link to the old URL and the tag itself are
/// deleted; then the row of the old URL is deleted; then the row of the new
/// bookmark is inserted, with its URL, name and three times; then each tag of
/// the new bookmark is inserted and linked to the new URL. Nothing else runs.
pub proof fn lemma_update_replaces_old_with_new(old: BookmarkModel, new: BookmarkModel)
    ensures
        ({
            let plan = update_plan(old, new);
            let n = old.tags.len() as int;
            let m = new.tags.len() as int;
            &&& plan.len() == 2 * n + 2 + 2 * m
            &&& forall|i: int|
                0 <= i < n ==> plan[2 * i] == (SqlStatementModel {
                    sql: delete_bookmark_tag_sql(),
                    params: seq![SqlValueModel::Text(old.url), SqlValueModel::Text(old.tags[i])],
                }) && plan[2 * i + 1] == (SqlStatementModel {
                    sql: delete_tag_sql(),
                    params: seq![SqlValueModel::Text(old.tags[i])],
                })
            &&& plan[2 * n] == (SqlStatementModel {
                sql: delete_bookmark_sql(),
                params: seq![SqlValueModel::Text(old.url)],
            })
            &&& plan[2 * n + 1] == (SqlStatementModel {
                sql: insert_bookmark_sql(),
                params: seq![
                    SqlValueModel::Text(new.url),
                    SqlValueModel::Text(new.name),
                    SqlValueModel::Time(new.created),
                    SqlValueModel::Time(new.updated),
                    SqlValueModel::Time(new.visited),
                ],
            })
            &&& forall|j: int|
                0 <= j < m ==> plan[2 * n + 2 + 2 * j] == (SqlStatementModel {
                    sql: insert_tag_sql(),
                    params: seq![SqlValueModel::Text(new.tags[j])],
                }) && plan[2 * n + 3 + 2 * j] == (SqlStatementModel {
                    sql: insert_bookmark_tag_sql(),
                    params: seq![SqlValueModel::Text(new.tags[j]), SqlValueModel::Text(new.url)],
                })
        }),
{
    lemma_tag_deletes_at(old.tags, old.url);
    lemma_tag_inserts_at(new.tags, new.url);
    let plan = update_plan(old, new);
    let d = delete_plan(old);
    let a = add_plan(new);
    let n = old.tags.len() as int;
    assert(plan == d + a);
    assert forall|i: int| #![trigger old.tags[i]] 0 <= i < n implies plan[2 * i] == d[2 * i] && plan[2 * i + 1] == d[2
        * i + 1] && d[2 * i] == tag_deletes(old.tags, old.url)[2 * i] && d[2 * i + 1]
        == tag_deletes(old.tags, old.url)[2 * i + 1] by {}
    assert(plan[2 * n] == d[2 * n]);
    assert(plan[2 * n + 1] == a[0]);
    assert forall|j: int| #![trigger new.tags[j]] 0 <= j < new.tags.len() implies plan[2 * n + 2 + 2 * j] == a[1 + 2 * j]
        && plan[2 * n + 3 + 2 * j] == a[2 + 2 * j] && a[1 + 2 * j] == tag_inserts(new.tags, new.url)[2
        * j] && a[2 + 2 * j] == tag_inserts(new.tags, new.url)[2 * j + 1] by {}
}

fn text_param(s: &String) -> (r: SqlValue)
    ensures
        r@ == SqlValueModel::Text(s@),
{
    SqlValue::Text(s.clone())
}

fn statement(sql: &str, params: Vec<SqlValue>) -> (r: SqlStatement)
    ensures
        r@ == (SqlStatementModel { sql: sql@, params: params@.map_values(|p: SqlValue| p@) }),
{
    SqlStatement { sql: to_text(sql), params }
}

/// The bookmark store, for one configuration.
pub struct Database<'c> {
    config: &'c Config,
}

impl<'c> Database<'c> {
    /// The store that the configuration names.
    pub fn new(config: &'c Config) -> (r: Self)
        ensures
            r.config() == config,
    {
        Database { config }
    }

    /// The configuration of the store.
    pub closed spec fn config(&self) -> &'c Config {
        self.config
    }

    /// The configuration of the store.
    pub fn get_config(&self) -> (r: &'c Config)
        ensures
            r == self.config(),
    {
        self.config
    }

    /// The statements that `add_bookmark` runs, in order; running stops at
    /// the first that fails.
    pub fn add_bookmark_statements(bookmark: &Bookmark) -> (r: Vec<SqlStatement>)
        ensures
            plan_view(r@) == add_plan(bookmark@),
    {
        let mut r: Vec<SqlStatement> = Vec::new();
        let mut params: Vec<SqlValue> = Vec::new();
        params.push(text_param(&bookmark.url));
        params.push(text_param(&bookmark.name));
        params.push(SqlValue::Time(bookmark.created));
        params.push(SqlValue::Time(bookmark.updated));
        params.push(SqlValue::Time(bookmark.visited));
        r.push(
            statement(
                "INSERT INTO bookmark (url, name, created, updated, visited)\n            VALUES (?1, ?2, ?3, ?4, ?5)",
                params,
            ),
        );
        assert(plan_view(r@) =~~= seq![insert_bookmark_stmt(bookmark@)]);
        let ghost tags = bookmark@.tags;
        let mut i: usize = 0;
        assert(tags.subrange(0, 0) =~= Seq::<Seq<char>>::empty());
        while i < bookmark.tags.len()
            invariant
                tags == bookmark@.tags,
                tags == texts(bookmark.tags@),
                i <= tags.len(),
                plan_view(r@) == seq![insert_bookmark_stmt(bookmark@)] + tag_inserts(
                    tags.subrange(0, i as int),
                    bookmark@.url,
                ),
            decreases tags.len() - i,
        {
            let ghost before = plan_view(r@);
            let tag = &bookmark.tags[i];
            let mut p1: Vec<SqlValue> = Vec::new();
            p1.push(text_param(tag));
            r.push(statement("INSERT INTO tag (name) VALUES (?1) ON CONFLICT (name) DO NOTHING", p1));
            let mut p2: Vec<SqlValue> = Vec::new();
            p2.push(text_param(tag));
            p2.push(text_param(&bookmark.url));
            r.push(
                statement("INSERT INTO bookmark_tag (tag_name, bookmark_url) VALUES ($1, $2)", p2),
            );
            assert(tags.subrange(0, i + 1).drop_last() =~= tags.subrange(0, i as int));
            assert(tags.subrange(0, i + 1).last() == tags[i as int]);
            let ghost added = plan_view(r@).subrange(before.len() as int, before.len() + 2int);
            assert(plan_view(r@) =~= before + added);
            assert(tag_inserts(tags.subrange(0, i + 1), bookmark@.url) =~~= tag_inserts(
                tags.subrange(0, i as int),
                bookmark@.url,
            ) + added);
            i = i + 1;
            assert(plan_view(r@) =~~= seq![insert_bookmark_stmt(bookmark@)] + tag_inserts(
                tags.subrange(0, i as int),
                bookmark@.url,
            ));
        }
        assert(tags.subrange(0, tags.len() as int) =~= tags);
        r
    }

    /// The statements that `delete_bookmark` runs, in order; running stops at
    /// the first that fails.
    pub fn delete_bookmark_statements(bookmark: &Bookmark) -> (r: Vec<SqlStatement>)
        ensures
            plan_view(r@) == delete_plan(bookmark@),
    {
        let mut r: Vec<SqlStatement> = Vec::new();
        let ghost tags = bookmark@.tags;
        let mut i: usize = 0;
        assert(tags.subrange(0, 0) =~= Seq::<Seq<char>>::empty());
        assert(plan_view(r@) =~~= Seq::<SqlStatementModel>::empty());
        while i < bookmark.tags.len()
            invariant
                tags == bookmark@.tags,
                tags == texts(bookmark.tags@),
                i <= tags.len(),
                plan_view(r@) == tag_deletes(tags.subrange(0, i as int), bookmark@.url),
            decreases tags.len() - i,
        {
            let tag = &bookmark.tags[i];
            let mut p1: Vec<SqlValue> = Vec::new();
            p1.push(text_param(&bookmark.url));
            p1.push(text_param(tag));
            r.push(
                statement("DELETE FROM bookmark_tag WHERE bookmark_url = ?1 AND tag_name = ?2", p1),
            );
            let mut p2: Vec<SqlValue> = Vec::new();
            p2.push(text_param(tag));
            r.push(statement("DELETE FROM tag WHERE name = ?1", p2));
            assert(tags.subrange(0, i + 1).drop_last() =~= tags.subrange(0, i as int));
            i = i + 1;
            assert(plan_view(r@) =~~= tag_deletes(tags.subrange(0, i as int), bookmark@.url));
        }
        let mut p: Vec<SqlValue> = Vec::new();
        p.push(text_param(&bookmark.url));
        r.push(statement("DELETE FROM bookmark WHERE url = ?1", p));
        assert(tags.subrange(0, tags.len() as int) =~= tags);
        assert(plan_view(r@) =~~= delete_plan(bookmark@));
        r
    }

    /// The statements that `update_bookmark` runs: those that delete the old
    /// bookmark, then those that add the new one.
    pub fn update_bookmark_statements(old: &Bookmark, new: &Bookmark) -> (r: Vec<SqlStatement>)
        ensures
            plan_view(r@) == update_plan(old@, new@),
    {
        let mut r = Self::delete_bookmark_statements(old);
        let mut a = Self::add_bookmark_statements(new);
        let ghost d = plan_view(r@);
        let ghost ad = plan_view(a@);
        r.append(&mut a);
        assert(plan_view(r@) =~~= d + ad);
        r
    }
}

impl Bookmark {
    /// The bookmark that a row of a query holds; the tags column is split at
    /// each `,`.
    pub fn from_row(
        url: String,
        name: String,
        created: Timestamp,
        updated: Timestamp,
        visited: Timestamp,
        tags: &str,
    ) -> (r: Bookmark)
        ensures
            r@ == (BookmarkModel {
                url: url@,
                name: name@,
                tags: split_on(tags@, ','),
                created: created@,
                updated: updated@,
                visited: visited@,
            }),
    {
        Bookmark { tags: split(tags, ','), url, name, created, updated, visited }
    }
}

} // verus!
