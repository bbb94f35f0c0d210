//! Bookmarks: a URL, a name, tags and three times; the test that tells a
//! URL field from other text; and the two ways a bookmark is printed.
use crate::text::{
    copy_texts, has_prefix, join, join_texts, lemma_trim_idempotent, split, split_on, starts_with,
    texts, to_text, trim, trim_str,
};
use crate::time::{utc_text, Timestamp};
use vstd::prelude::*;

verus! {

/// The prefixes that mark a bookmark's URL field. `:nogo:` is for bookmarks
/// that link to no file or web page.
pub open spec fn is_url_field(value: Seq<char>) -> bool {
    let v = trim(value);
    ||| has_prefix(v, "https://"@)
    ||| has_prefix(v, "http://"@)
    ||| has_prefix(v, "file://"@)
    ||| has_prefix(v, ":nogo:"@)
}

/// Whether `value`, once trimmed, starts with `https://`, `http://`,
/// `file://` or `:nogo:`.
pub fn is_bookmark_url_field(value: &str) -> (r: bool)
    ensures
        r == is_url_field(value@),
{
    let value = trim_str(value);
    starts_with(value, "https://") || starts_with(value, "http://") || starts_with(value, "file://")
        || starts_with(value, ":nogo:")
}

/// The first of the lines that is a URL field once trimmed, trimmed.
pub open spec fn first_url_line(lines: Seq<Seq<char>>) -> Option<Seq<char>>
    decreases lines.len(),
{
    if lines.len() == 0 {
        None
    } else {
        match first_url_line(lines.drop_last()) {
            Some(u) => Some(u),
            None => if is_url_field(trim(lines.last())) {
                Some(trim(lines.last()))
            } else {
                None
            },
        }
    }
}

/// The URL of an autocomplete choice: its first line that, trimmed, is a URL
/// field.
pub fn extract_url_from_autocomplete_selection(choice: &str) -> (r: Option<String>)
    ensures
        match r {
            Some(u) => first_url_line(split_on(choice@, '\n')) == Some(u@),
            None => first_url_line(split_on(choice@, '\n')) is None,
        },
{
    let lines = split(choice, '\n');
    let ghost ls = texts(lines@);
    let mut i: usize = 0;
    assert(ls.subrange(0, 0) =~= Seq::<Seq<char>>::empty());
    while i < lines.len()
        invariant
            ls == texts(lines@),
            ls == split_on(choice@, '\n'),
            i <= lines@.len(),
            first_url_line(ls.subrange(0, i as int)) is None,
        decreases lines@.len() - i,
    {
        let line = trim_str(lines[i].as_str());
        assert(ls.subrange(0, i + 1).drop_last() =~= ls.subrange(0, i as int));
        if is_bookmark_url_field(line) {
            proof {
                lemma_first_url_extends(ls, i as int, ls.len() as int);
                assert(ls.subrange(0, ls.len() as int) =~= ls);
            }
            return Some(to_text(line));
        }
        i = i + 1;
    }
    assert(ls.subrange(0, lines@.len() as int) =~= ls);
    None
}

/// A URL line found at `i`, with none before it, stays the first in longer prefixes.
proof fn lemma_first_url_extends(lines: Seq<Seq<char>>, i: int, n: int)
    requires
        0 <= i < n <= lines.len(),
        first_url_line(lines.subrange(0, i)) is None,
        is_url_field(trim(lines[i])),
    ensures
        first_url_line(lines.subrange(0, n)) == Some(trim(lines[i])),
    decreases n - i,
{
    assert(lines.subrange(0, n).drop_last() =~= lines.subrange(0, n - 1));
    if n > i + 1 {
        lemma_first_url_extends(lines, i, n - 1);
    }
}

/// The URL taken from a choice is a URL field, and trimmed.
pub proof fn lemma_extracted_url_is_url_field(lines: Seq<Seq<char>>)
    ensures
        first_url_line(lines) matches Some(u) ==> is_url_field(u) && trim(u) == u,
    decreases lines.len(),
{
    if lines.len() > 0 {
        lemma_extracted_url_is_url_field(lines.drop_last());
        lemma_trim_idempotent(lines.last());
    }
}

/// What a bookmark holds, as mathematical values.
pub struct BookmarkModel {
    pub url: Seq<char>,
    pub name: Seq<char>,
    pub tags: Seq<Seq<char>>,
    pub created: (i64, u32),
    pub updated: (i64, u32),
    pub visited: (i64, u32),
}

/// A saved link with a name, tags, and the times it was created, last
/// updated and last visited.
#[derive(Debug, Clone)]
pub struct Bookmark {
    pub url: String,
    pub name: String,
    pub tags: Vec<String>,
    pub created: Timestamp,
    pub updated: Timestamp,
    pub visited: Timestamp,
}

impl View for Bookmark {
    type V = BookmarkModel;

    open spec fn view(&self) -> BookmarkModel {
        BookmarkModel {
            url: self.url@,
            name: self.name@,
            tags: texts(self.tags@),
            created: self.created@,
            updated: self.updated@,
            visited: self.visited@,
        }
    }
}

/// The text of a time of a bookmark.
pub open spec fn time_text(t: (i64, u32)) -> Seq<char> {
    utc_text(t.0, t.1).unwrap()
}

/// The short form in which a bookmark is listed: its name; its tags, if it
/// has any, joined by `", "`; its URL; each indented by two spaces.
pub open spec fn summary_text(b: BookmarkModel) -> Seq<char> {
    b.name + "\n"@ + (if b.tags.len() > 0 {
        "  "@ + join(b.tags, ", "@) + "\n"@
    } else {
        Seq::<char>::empty()
    }) + "  "@ + b.url + "\n"@ + "  "@
}

/// The long form in which a bookmark is shown: one labelled line for each
/// of name, tags (joined by `","`), URL and the three times.
pub open spec fn detail_text(b: BookmarkModel) -> Seq<char> {
    "\n   name    | "@ + b.name + "\n   tags    | "@ + join(b.tags, ","@) + "\n   url     | "@ + b.url
        + "\n   created | "@ + time_text(b.created) + "\n   updated | "@ + time_text(b.updated)
        + "\n   visited | "@ + time_text(b.visited) + "\n"@
}

impl Bookmark {
    /// A bookmark created, updated and visited now; `None` where the system
    /// clock reads a time that cannot be held.
    pub fn new(url: &str, name: &str, tags: Vec<String>) -> (r: Option<Bookmark>)
        ensures
            r matches Some(b) ==> b@.url == url@ && b@.name == name@ && b@.tags == texts(tags@),
    {
        Bookmark::new_at(url, name, tags, Timestamp::now(), Timestamp::now(), Timestamp::now())
    }

    /// A bookmark stamped with three clock readings, taken in turn for its
    /// creation, update and visit; `None` exactly when one of them failed.
    pub fn new_at(
        url: &str,
        name: &str,
        tags: Vec<String>,
        created: Option<Timestamp>,
        updated: Option<Timestamp>,
        visited: Option<Timestamp>,
    ) -> (r: Option<Bookmark>)
        ensures
            r is Some <==> created is Some && updated is Some && visited is Some,
            r matches Some(b) ==> b@ == (BookmarkModel {
                url: url@,
                name: name@,
                tags: texts(tags@),
                created: created->0@,
                updated: updated->0@,
                visited: visited->0@,
            }),
    {
        match (created, updated, visited) {
            (Some(created), Some(updated), Some(visited)) => Some(
                Bookmark { url: to_text(url), name: to_text(name), tags, created, updated, visited },
            ),
            _ => None,
        }
    }

    /// A builder with nothing set.
    pub fn builder() -> (r: BookmarkBuilder)
        ensures
            r@ == BookmarkBuilder::empty_model(),
    {
        BookmarkBuilder::new_empty()
    }

    /// Whether the URL field says that the bookmark links nowhere.
    pub fn is_nogo(&self) -> (r: bool)
        ensures
            r == has_prefix(self.url@, ":nogo:"@),
    {
        starts_with(self.url.as_str(), ":nogo:")
    }

    /// A bookmark with the same fields.
    pub fn duplicate(&self) -> (r: Bookmark)
        ensures
            r@ == self@,
    {
        Bookmark {
            url: self.url.clone(),
            name: self.name.clone(),
            tags: copy_texts(&self.tags),
            created: self.created,
            updated: self.updated,
            visited: self.visited,
        }
    }

    /// The short form, in which search suggestions show a bookmark.
    pub fn to_string(&self) -> (r: String)
        ensures
            r@ == summary_text(self@),
    {
        let mut s = String::new();
        s.append(self.name.as_str());
        s.append("\n");
        if self.tags.len() > 0 {
            let tags = join_texts(&self.tags, ", ");
            s.append("  ");
            s.append(tags.as_str());
            s.append("\n");
        }
        s.append("  ");
        s.append(self.url.as_str());
        s.append("\n");
        s.append("  ");
        s
    }

    /// The long form, in which a selected or edited bookmark is shown.
    pub fn to_string_alternate(&self) -> (r: String)
        ensures
            r@ == detail_text(self@),
    {
        let tags = join_texts(&self.tags, ",");
        let created = self.created.to_text();
        let updated = self.updated.to_text();
        let visited = self.visited.to_text();
        let mut s = String::new();
        s.append("\n   name    | ");
        s.append(self.name.as_str());
        s.append("\n   tags    | ");
        s.append(tags.as_str());
        s.append("\n   url     | ");
        s.append(self.url.as_str());
        s.append("\n   created | ");
        s.append(created.as_str());
        s.append("\n   updated | ");
        s.append(updated.as_str());
        s.append("\n   visited | ");
        s.append(visited.as_str());
        s.append("\n");
        s
    }
}

/// What a builder holds, as mathematical values.
pub struct BuilderModel {
    pub url: Option<Seq<char>>,
    pub name: Option<Seq<char>>,
    pub tags: Seq<Seq<char>>,
    pub created: Option<(i64, u32)>,
    pub updated: Option<(i64, u32)>,
    pub visited: Option<(i64, u32)>,
}

/// Gathers the fields of a bookmark one by one.
#[derive(Debug)]
pub struct BookmarkBuilder {
    url: Option<String>,
    name: Option<String>,
    tags: Vec<String>,
    created: Option<Timestamp>,
    updated: Option<Timestamp>,
    visited: Option<Timestamp>,
}

/// The text of an optional string.
pub open spec fn opt_text(o: Option<String>) -> Option<Seq<char>> {
    match o {
        Some(s) => Some(s@),
        None => None,
    }
}

/// The value of an optional time.
pub open spec fn opt_time(o: Option<Timestamp>) -> Option<(i64, u32)> {
    match o {
        Some(t) => Some(t@),
        None => None,
    }
}

impl View for BookmarkBuilder {
    type V = BuilderModel;

    closed spec fn view(&self) -> BuilderModel {
        BuilderModel {
            url: opt_text(self.url),
            name: opt_text(self.name),
            tags: texts(self.tags@),
            created: opt_time(self.created),
            updated: opt_time(self.updated),
            visited: opt_time(self.visited),
        }
    }
}

impl Default for BookmarkBuilder {
    fn default() -> (r: Self)
        ensures
            r@ == BookmarkBuilder::empty_model(),
    {
        BookmarkBuilder::new_empty()
    }
}

impl BookmarkBuilder {
    /// A builder with no field set.
    pub open spec fn empty_model() -> BuilderModel {
        BuilderModel {
            url: None,
            name: None,
            tags: Seq::<Seq<char>>::empty(),
            created: None,
            updated: None,
            visited: None,
        }
    }

    fn new_empty() -> (r: BookmarkBuilder)
        ensures
            r@ == BookmarkBuilder::empty_model(),
    {
        let r = BookmarkBuilder {
            url: None,
            name: None,
            tags: Vec::new(),
            created: None,
            updated: None,
            visited: None,
        };
        assert(r@.tags =~= Seq::<Seq<char>>::empty());
        r
    }

    /// Sets the URL.
    pub fn url(self, url: &str) -> (r: Self)
        ensures
            r@ == (BuilderModel { url: Some(url@), ..self@ }),
    {
        BookmarkBuilder { url: Some(to_text(url)), ..self }
    }

    /// Sets the name.
    pub fn name(self, name: &str) -> (r: Self)
        ensures
            r@ == (BuilderModel { name: Some(name@), ..self@ }),
    {
        BookmarkBuilder { name: Some(to_text(name)), ..self }
    }

    /// Sets the tags to a copy of `tags`.
    pub fn tags(self, tags: Vec<String>) -> (r: Self)
        ensures
            r@ == (BuilderModel { tags: texts(tags@), ..self@ }),
    {
        BookmarkBuilder { tags: copy_texts(&tags), ..self }
    }

    /// Sets the time of creation.
    pub fn created(self, created: Timestamp) -> (r: Self)
        ensures
            r@ == (BuilderModel { created: Some(created@), ..self@ }),
    {
        BookmarkBuilder { created: Some(created), ..self }
    }

    /// Sets the time of the last update.
    pub fn updated(self, updated: Timestamp) -> (r: Self)
        ensures
            r@ == (BuilderModel { updated: Some(updated@), ..self@ }),
    {
        BookmarkBuilder { updated: Some(updated), ..self }
    }

    /// Sets the time of the last visit.
    pub fn visited(self, visited: Timestamp) -> (r: Self)
        ensures
            r@ == (BuilderModel { visited: Some(visited@), ..self@ }),
    {
        BookmarkBuilder { visited: Some(visited), ..self }
    }

    /// The bookmark; a time that was not set is the current time. `None`
    /// where such a time is needed and the system clock reads one that cannot
    /// be held.
    pub fn build(self) -> (r: Option<Bookmark>)
        requires
            self@.url is Some,
            self@.name is Some,
        ensures
            self@.created is Some && self@.updated is Some && self@.visited is Some ==> r is Some,
            r matches Some(b) ==> {
                &&& b@.url == self@.url->0
                &&& b@.name == self@.name->0
                &&& b@.tags == self@.tags
                &&& self@.created matches Some(t) ==> b@.created == t
                &&& self@.updated matches Some(t) ==> b@.updated == t
                &&& self@.visited matches Some(t) ==> b@.visited == t
            },
    {
        let created = if self.created.is_none() {
            Timestamp::now()
        } else {
            None
        };
        let updated = if self.updated.is_none() {
            Timestamp::now()
        } else {
            None
        };
        let visited = if self.visited.is_none() {
            Timestamp::now()
        } else {
            None
        };
        self.build_at(created, updated, visited)
    }

    /// The bookmark, where each time that was not set is taken from the
    /// matching clock reading; `None` exactly when such a reading is needed
    /// and failed.
    pub fn build_at(
        self,
        created: Option<Timestamp>,
        updated: Option<Timestamp>,
        visited: Option<Timestamp>,
    ) -> (r: Option<Bookmark>)
        requires
            self@.url is Some,
            self@.name is Some,
        ensures
            r is Some <==> (self@.created is Some || created is Some) && (self@.updated is Some
                || updated is Some) && (self@.visited is Some || visited is Some),
            r matches Some(b) ==> b@ == (BookmarkModel {
                url: self@.url->0,
                name: self@.name->0,
                tags: self@.tags,
                created: match self@.created {
                    Some(t) => t,
                    None => created->0@,
                },
                updated: match self@.updated {
                    Some(t) => t,
                    None => updated->0@,
                },
                visited: match self@.visited {
                    Some(t) => t,
                    None => visited->0@,
                },
            }),
    {
        let url = match self.url {
            Some(u) => u,
            None => String::new(),
        };
        let name = match self.name {
            Some(n) => n,
            None => String::new(),
        };
        let created = match self.created {
            Some(t) => t,
            None => match created {
                Some(t) => t,
                None => return None,
            },
        };
        let updated = match self.updated {
            Some(t) => t,
            None => match updated {
                Some(t) => t,
                None => return None,
            },
        };
        let visited = match self.visited {
            Some(t) => t,
            None => match visited {
                Some(t) => t,
                None => return None,
            },
        };
        Some(Bookmark { url, name, tags: self.tags, created, updated, visited })
    }
}

} // verus!
