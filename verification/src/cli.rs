//! The rules of the interactive command line: validating a URL field, reading
//! the tags field, building and editing bookmarks from what the user typed,
//! reading menu choices, and deciding how a bookmark is opened.
use crate::bookmark::{is_bookmark_url_field, is_url_field, Bookmark, BookmarkModel};
use crate::config::CliConfig;
use crate::text::{
    copy_texts, first_inclusive_piece, first_piece_inclusive, has_prefix, join, join_texts,
    last_inclusive_piece, last_piece_inclusive, lemma_split_join, lemma_split_nonempty,
    lemma_trim_idempotent, same_text, split, split_on, texts, to_text, trim, trim_end, trim_start,
    trim_str,
};
use crate::time::Timestamp;
use vstd::prelude::*;

verus! {

/// An error with a message for the user.
#[derive(Debug)]
pub struct MyError(pub String);

impl MyError {
    /// The error with this message.
    pub fn new(message: &str) -> (r: MyError)
        ensures
            r.0@ == message@,
    {
        MyError(to_text(message))
    }
}

/// The message shown when a URL field is refused.
pub open spec fn url_rule_message() -> Seq<char> {
    "input must start with one of 'https://', 'http://', 'file://' (or ':nogo:' if you don't need to link to an external file or web page)"@
}

/// What the URL validator says of an input.
#[derive(Debug)]
pub enum UrlValidation {
    Valid,
    Invalid(String),
}

/// Checks that the URL field of a bookmark is one.
#[derive(Clone, Copy, Debug)]
pub struct UrlValidator;

impl UrlValidator {
    /// Valid when the trimmed input is a URL field; otherwise the rule is
    /// given as the message.
    pub fn validate(&self, input: &str) -> (r: UrlValidation)
        ensures
            match r {
                UrlValidation::Valid => is_url_field(trim(input@)),
                UrlValidation::Invalid(m) => !is_url_field(trim(input@)) && m@
                    == url_rule_message(),
            },
    {
        let input = trim_str(input);
        if is_bookmark_url_field(input) {
            return UrlValidation::Valid;
        }
        UrlValidation::Invalid(
            to_text(
                "input must start with one of 'https://', 'http://', 'file://' (or ':nogo:' if you don't need to link to an external file or web page)",
            ),
        )
    }
}

/// The URL validator accepts exactly the URL fields.
pub proof fn lemma_validation_is_url_field(input: Seq<char>)
    ensures
        is_url_field(trim(input)) == is_url_field(input),
{
    lemma_trim_idempotent(input);
}

/// The trimmed pieces that are not empty, in order.
pub open spec fn kept_tags(pieces: Seq<Seq<char>>) -> Seq<Seq<char>>
    decreases pieces.len(),
{
    if pieces.len() == 0 {
        Seq::<Seq<char>>::empty()
    } else if trim(pieces.last()).len() > 0 {
        kept_tags(pieces.drop_last()).push(trim(pieces.last()))
    } else {
        kept_tags(pieces.drop_last())
    }
}

/// The tags of a comma-separated tags field: each piece trimmed, empty ones
/// left out.
pub open spec fn tag_list(text: Seq<char>) -> Seq<Seq<char>> {
    kept_tags(split_on(text, ','))
}

/// The tags that a comma-separated tags field holds.
pub fn parse_tags(text: &str) -> (r: Vec<String>)
    ensures
        texts(r@) == tag_list(text@),
{
    let pieces = split(text, ',');
    let ghost ps = texts(pieces@);
    let mut r: Vec<String> = Vec::new();
    let mut i: usize = 0;
    assert(ps.subrange(0, 0) =~= Seq::<Seq<char>>::empty());
    assert(texts(r@) =~= Seq::<Seq<char>>::empty());
    while i < pieces.len()
        invariant
            ps == texts(pieces@),
            ps == split_on(text@, ','),
            i <= pieces@.len(),
            texts(r@) == kept_tags(ps.subrange(0, i as int)),
        decreases pieces@.len() - i,
    {
        let ghost before = texts(r@);
        let tag = trim_str(pieces[i].as_str());
        assert(ps.subrange(0, i + 1).drop_last() =~= ps.subrange(0, i as int));
        if tag.unicode_len() > 0 {
            r.push(to_text(tag));
            assert(texts(r@) =~= before.push(tag@));
        }
        i = i + 1;
    }
    assert(ps.subrange(0, pieces@.len() as int) =~= ps);
    r
}

/// Kept pieces that are already trimmed and non-empty are kept as they are.
proof fn lemma_kept_tags_identity(tags: Seq<Seq<char>>)
    requires
        forall|i: int|
            0 <= i < tags.len() ==> trim(#[trigger] tags[i]) == tags[i] && tags[i].len() > 0,
    ensures
        kept_tags(tags) == tags,
    decreases tags.len(),
{
    if tags.len() > 0 {
        let init = tags.drop_last();
        assert forall|i: int| 0 <= i < init.len() implies trim(#[trigger] init[i]) == init[i]
            && init[i].len() > 0 by {
            assert(init[i] == tags[i]);
        }
        lemma_kept_tags_identity(init);
        assert(trim(tags[tags.len() - 1]) == tags.last());
        assert(init.push(tags.last()) =~= tags);
    }
}

/// The tags field that editing a bookmark starts from reads back as the
/// same tags, when each tag is trimmed, not empty and free of commas.
pub proof fn lemma_tags_field_round_trip(tags: Seq<Seq<char>>)
    requires
        forall|i: int|
            0 <= i < tags.len() ==> trim(#[trigger] tags[i]) == tags[i] && tags[i].len() > 0
                && !tags[i].contains(','),
    ensures
        tag_list(join(tags, ","@)) == tags,
{
    reveal_strlit(",");
    assert(","@ =~= seq![',']);
    if tags.len() == 0 {
        assert(join(tags, ","@) =~= Seq::<char>::empty());
        assert(split_on(Seq::<char>::empty(), ',') =~= seq![Seq::<char>::empty()]);
        let e = Seq::<char>::empty();
        assert(trim_start(e) == e);
        assert(trim_end(e) == e);
        assert(seq![e].drop_last() =~= Seq::<Seq<char>>::empty());
        assert(seq![e].last() == e);
        assert(kept_tags(Seq::<Seq<char>>::empty()) == Seq::<Seq<char>>::empty());
        assert(kept_tags(seq![e]) =~= tags);
    } else {
        assert forall|i: int| 0 <= i < tags.len() implies !(#[trigger] tags[i]).contains(',') by {}
        lemma_split_join(tags, ',');
        lemma_kept_tags_identity(tags);
    }
}

/// The tags field of a bookmark: its tags joined by `,`.
pub fn tags_field(bookmark: &Bookmark) -> (r: String)
    ensures
        r@ == join(bookmark@.tags, ","@),
{
    join_texts(&bookmark.tags, ",")
}

/// The bookmark that the add form describes: trimmed URL and name, and the
/// tags of the tags field; it is created, updated and visited now. `None`
/// where the system clock reads a time that cannot be held.
pub fn bookmark_from_form(url: &str, name: &str, tags: &str) -> (r: Option<Bookmark>)
    ensures
        r matches Some(b) ==> b@.url == trim(url@) && b@.name == trim(name@) && b@.tags
            == tag_list(tags@),
{
    bookmark_from_form_at(url, name, tags, Timestamp::now(), Timestamp::now(), Timestamp::now())
}

/// The bookmark that the add form describes, stamped with three clock
/// readings taken in turn for its creation, update and visit: trimmed URL
/// and name, the tags of the tags field (which may be blank); `None` exactly
/// when one of the readings failed.
pub fn bookmark_from_form_at(
    url: &str,
    name: &str,
    tags: &str,
    created: Option<Timestamp>,
    updated: Option<Timestamp>,
    visited: Option<Timestamp>,
) -> (r: Option<Bookmark>)
    ensures
        r is Some <==> created is Some && updated is Some && visited is Some,
        r matches Some(b) ==> b@ == (BookmarkModel {
            url: trim(url@),
            name: trim(name@),
            tags: tag_list(tags@),
            created: created->0@,
            updated: updated->0@,
            visited: visited->0@,
        }),
{
    let tags = parse_tags(tags);
    Bookmark::builder().url(trim_str(url)).name(trim_str(name)).tags(tags).build_at(
        created,
        updated,
        visited,
    )
}

impl Bookmark {
    /// The bookmark after an edit: the URL and name as typed, the tags of the
    /// tags field; the times are kept.
    pub fn edited(&self, url: &str, name: &str, tags: &str) -> (r: Bookmark)
        ensures
            r@ == (BookmarkModel { url: url@, name: name@, tags: tag_list(tags@), ..self@ }),
    {
        let tags = parse_tags(tags);
        Bookmark {
            url: to_text(url),
            name: to_text(name),
            tags,
            created: self.created,
            updated: self.updated,
            visited: self.visited,
        }
    }

    /// The same bookmark, updated at `t`.
    pub fn with_updated(&self, t: Timestamp) -> (r: Bookmark)
        ensures
            r@ == (BookmarkModel { updated: t@, ..self@ }),
    {
        let mut b = self.duplicate();
        b.updated = t;
        b
    }

    /// The same bookmark, visited at `t`.
    pub fn with_visited(&self, t: Timestamp) -> (r: Bookmark)
        ensures
            r@ == (BookmarkModel { visited: t@, ..self@ }),
    {
        let mut b = self.duplicate();
        b.visited = t;
        b
    }
}

/// The first line of an autocomplete choice, as the search prompt shows it.
pub fn first_line(choice: &str) -> (r: String)
    ensures
        r@ == split_on(choice@, '\n')[0],
{
    let lines = split(choice, '\n');
    proof {
        lemma_split_nonempty(choice@, '\n');
    }
    lines[0].clone()
}

/// The label that a menu shows for an entry `Name:    description`: what
/// follows the last `:`, trimmed.
pub fn menu_label(entry: &str) -> (r: String)
    requires
        entry@.len() > 0,
    ensures
        r@ == trim(last_inclusive_piece(entry@, ':')),
{
    to_text(trim_str(last_piece_inclusive(entry, ':')))
}

/// The action name of a menu entry: up to and including its first `:`.
pub fn action_name(entry: &str) -> (r: String)
    requires
        entry@.len() > 0,
    ensures
        r@ == first_inclusive_piece(entry@, ':'),
{
    to_text(first_piece_inclusive(entry, ':'))
}

/// What the main menu asks for.
#[derive(Debug, Clone, Copy, PartialEq, Eq, Structural)]
pub enum MainAction {
    Search,
    Add,
    Nothing,
}

/// The main menu action of a chosen entry.
pub fn main_action(entry: &str) -> (r: MainAction)
    requires
        entry@.len() > 0,
    ensures
        r == (if first_inclusive_piece(entry@, ':') == "Search:"@ {
            MainAction::Search
        } else if first_inclusive_piece(entry@, ':') == "Add:"@ {
            MainAction::Add
        } else {
            MainAction::Nothing
        }),
{
    let name = first_piece_inclusive(entry, ':');
    if same_text(name, "Search:") {
        MainAction::Search
    } else if same_text(name, "Add:") {
        MainAction::Add
    } else {
        MainAction::Nothing
    }
}

/// What the menu of a selected bookmark asks for; deleting and going back
/// do nothing.
#[derive(Debug, Clone, Copy, PartialEq, Eq, Structural)]
pub enum SearchAction {
    Visit,
    Edit,
    Nothing,
}

/// The action of an entry chosen in the menu of a selected bookmark.
pub fn search_action(entry: &str) -> (r: SearchAction)
    requires
        entry@.len() > 0,
    ensures
        r == (if first_inclusive_piece(entry@, ':') == "Visit:"@ {
            SearchAction::Visit
        } else if first_inclusive_piece(entry@, ':') == "Edit:"@ {
            SearchAction::Edit
        } else {
            SearchAction::Nothing
        }),
{
    let name = first_piece_inclusive(entry, ':');
    if same_text(name, "Visit:") {
        SearchAction::Visit
    } else if same_text(name, "Edit:") {
        SearchAction::Edit
    } else {
        SearchAction::Nothing
    }
}

/// The message for a bookmark that links nowhere.
pub open spec fn nogo_message() -> Seq<char> {
    "Unable to open a file or web page for this bookmark. Try updating the URL to a proper URL or file path"@
}

/// The message for a configuration that names no browser.
pub open spec fn missing_browser_message() -> Seq<char> {
    "Please add an entry for 'cli.browser_bin_path' in your installation's config.local file"@
}

/// How a bookmark is to be opened.
#[derive(Debug)]
pub enum VisitPlan {
    /// The bookmark links nowhere: fail with this message.
    Refuse(String),
    /// No browser is configured: tell the user this, and go on.
    MissingBrowser(String),
    /// Run the browser with these arguments, then record the visit.
    Launch { program: String, args: Vec<String> },
}

/// Decides how to open a bookmark: not at all if it links nowhere; with the
/// configured browser, its arguments and the URL last, if there is one.
pub fn visit_plan(bookmark: &Bookmark, cli: &CliConfig) -> (r: VisitPlan)
    ensures
        match r {
            VisitPlan::Refuse(m) => has_prefix(bookmark@.url, ":nogo:"@) && m@ == nogo_message(),
            VisitPlan::MissingBrowser(m) => !has_prefix(bookmark@.url, ":nogo:"@)
                && cli.browser_bin_path is None && m@ == missing_browser_message(),
            VisitPlan::Launch { program, args } => {
                &&& !has_prefix(bookmark@.url, ":nogo:"@)
                &&& cli.browser_bin_path matches Some(p) && program@ == p@
                &&& texts(args@) == (match cli.browser_args {
                    Some(a) => texts(a@),
                    None => Seq::<Seq<char>>::empty(),
                }).push(bookmark@.url)
            },
        },
{
    if bookmark.is_nogo() {
        return VisitPlan::Refuse(
            to_text(
                "Unable to open a file or web page for this bookmark. Try updating the URL to a proper URL or file path",
            ),
        );
    }
    match &cli.browser_bin_path {
        Some(program) => {
            let mut args = match &cli.browser_args {
                Some(a) => copy_texts(a),
                None => Vec::new(),
            };
            let ghost before = texts(args@);
            args.push(bookmark.url.clone());
            assert(texts(args@) =~= before.push(bookmark@.url));
            VisitPlan::Launch { program: program.clone(), args }
        },
        None => VisitPlan::MissingBrowser(
            to_text(
                "Please add an entry for 'cli.browser_bin_path' in your installation's config.local file",
            ),
        ),
    }
}

} // verus!
