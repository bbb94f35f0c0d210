//! Suggestions while searching: bookmarks that match what the user typed,
//! ranked by how many of their fields match.
use crate::bookmark::{first_url_line, is_url_field, summary_text, Bookmark, BookmarkModel};
use crate::text::{
    contains, join, lemma_concat_without, lemma_split_append_piece, lemma_split_without_separator,
    lemma_trim_after_two_spaces, lemma_trim_idempotent, lowercase, occurs_in, split_on, texts,
    to_lowercase, trim, trim_str,
};
use vstd::prelude::*;

verus! {

/// 1 if `q` occurs in the lower-case form of `text`, else 0.
pub open spec fn hit(text: Seq<char>, q: Seq<char>) -> int {
    if occurs_in(q, lowercase(text)) {
        1
    } else {
        0
    }
}

/// How many of the tags match `q`.
pub open spec fn tag_hits(tags: Seq<Seq<char>>, q: Seq<char>) -> int
    decreases tags.len(),
{
    if tags.len() == 0 {
        0
    } else {
        tag_hits(tags.drop_last(), q) + hit(tags.last(), q)
    }
}

/// How well a bookmark matches `q`: one for the URL, one for the name and
/// one for each tag in whose lower-case form `q` occurs.
pub open spec fn match_weight(b: BookmarkModel, q: Seq<char>) -> int {
    hit(b.url, q) + hit(b.name, q) + tag_hits(b.tags, q)
}

/// Each bookmark's weight and short form.
pub open spec fn weighted(bs: Seq<BookmarkModel>, q: Seq<char>) -> Seq<(int, Seq<char>)> {
    bs.map_values(|b: BookmarkModel| (match_weight(b, q), summary_text(b)))
}

/// The texts of the entries of weight `w`, in order.
pub open spec fn with_weight(entries: Seq<(int, Seq<char>)>, w: int) -> Seq<Seq<char>>
    decreases entries.len(),
{
    if entries.len() == 0 {
        Seq::<Seq<char>>::empty()
    } else if entries.last().0 == w {
        with_weight(entries.drop_last(), w).push(entries.last().1)
    } else {
        with_weight(entries.drop_last(), w)
    }
}

/// The greatest weight of the entries, or 0 where there are none.
pub open spec fn max_weight(entries: Seq<(int, Seq<char>)>) -> int
    decreases entries.len(),
{
    if entries.len() == 0 {
        0
    } else if entries.last().0 > max_weight(entries.drop_last()) {
        entries.last().0
    } else {
        max_weight(entries.drop_last())
    }
}

/// The texts of the entries of weight `w` to `top`, lightest first and,
/// among equal weights, in their order: a stable sort by ascending weight.
pub open spec fn ranked_from(entries: Seq<(int, Seq<char>)>, w: int, top: int) -> Seq<Seq<char>>
    decreases top + 1 - w,
{
    if w < 1 || w > top {
        Seq::<Seq<char>>::empty()
    } else {
        with_weight(entries, w) + ranked_from(entries, w + 1, top)
    }
}

/// The texts of the entries of weight at least 1, stably sorted by
/// ascending weight.
pub open spec fn ranked(entries: Seq<(int, Seq<char>)>) -> Seq<Seq<char>> {
    ranked_from(entries, 1, max_weight(entries))
}

/// The suggestions for an input: with a blank (lower-cased) input every
/// bookmark's short form; otherwise the short forms of the bookmarks that
/// match it, stably sorted by ascending weight.
pub open spec fn suggestions_for(bs: Seq<BookmarkModel>, input: Seq<char>) -> Seq<Seq<char>> {
    let q = lowercase(input);
    if trim(q).len() == 0 {
        bs.map_values(|b: BookmarkModel| summary_text(b))
    } else {
        ranked(weighted(bs, q))
    }
}

/// The weights and texts line up with the entries.
spec fn aligned(weights: Seq<u128>, values: Seq<String>, entries: Seq<(int, Seq<char>)>) -> bool {
    &&& weights.len() == entries.len()
    &&& values.len() == entries.len()
    &&& forall|k: int|
        0 <= k < entries.len() ==> #[trigger] weights[k] as int == entries[k].0 && values[k]@
            == entries[k].1
}

/// How many entries have weight `w`.
pub open spec fn weight_count(entries: Seq<(int, Seq<char>)>, w: int) -> int
    decreases entries.len(),
{
    if entries.len() == 0 {
        0
    } else {
        weight_count(entries.drop_last(), w) + if entries.last().0 == w {
            1int
        } else {
            0
        }
    }
}

/// How many entries have a weight from `w` to `top`.
pub open spec fn range_count(entries: Seq<(int, Seq<char>)>, w: int, top: int) -> int
    decreases entries.len(),
{
    if entries.len() == 0 {
        0
    } else {
        range_count(entries.drop_last(), w, top) + if w <= entries.last().0 <= top {
            1int
        } else {
            0
        }
    }
}

/// How many bookmarks match `q` in at least one field.
pub open spec fn matching_count(bs: Seq<BookmarkModel>, q: Seq<char>) -> int
    decreases bs.len(),
{
    if bs.len() == 0 {
        0
    } else {
        matching_count(bs.drop_last(), q) + if match_weight(bs.last(), q) >= 1 {
            1int
        } else {
            0
        }
    }
}

proof fn lemma_with_weight_len(entries: Seq<(int, Seq<char>)>, w: int)
    ensures
        with_weight(entries, w).len() == weight_count(entries, w),
    decreases entries.len(),
{
    if entries.len() > 0 {
        lemma_with_weight_len(entries.drop_last(), w);
    }
}

proof fn lemma_range_count_split(entries: Seq<(int, Seq<char>)>, w: int, top: int)
    requires
        1 <= w <= top,
    ensures
        range_count(entries, w, top) == weight_count(entries, w) + range_count(entries, w + 1, top),
    decreases entries.len(),
{
    if entries.len() > 0 {
        lemma_range_count_split(entries.drop_last(), w, top);
    }
}

proof fn lemma_range_count_empty(entries: Seq<(int, Seq<char>)>, top: int)
    ensures
        range_count(entries, top + 1, top) == 0,
    decreases entries.len(),
{
    if entries.len() > 0 {
        lemma_range_count_empty(entries.drop_last(), top);
    }
}

proof fn lemma_ranked_len(entries: Seq<(int, Seq<char>)>, w: int, top: int)
    requires
        1 <= w <= top + 1,
    ensures
        ranked_from(entries, w, top).len() == range_count(entries, w, top),
    decreases top + 1 - w,
{
    if w <= top {
        lemma_with_weight_len(entries, w);
        lemma_range_count_split(entries, w, top);
        lemma_ranked_len(entries, w + 1, top);
    } else {
        lemma_range_count_empty(entries, top);
    }
}

/// No entry weighs more than the greatest weight.
proof fn lemma_max_weight_bounds(entries: Seq<(int, Seq<char>)>)
    ensures
        max_weight(entries) >= 0,
        forall|i: int| 0 <= i < entries.len() ==> (#[trigger] entries[i]).0 <= max_weight(entries),
    decreases entries.len(),
{
    if entries.len() > 0 {
        lemma_max_weight_bounds(entries.drop_last());
        assert forall|i: int| 0 <= i < entries.len() implies (#[trigger] entries[i]).0 <= max_weight(
            entries,
        ) by {
            if i < entries.len() - 1 {
                assert(entries.drop_last()[i] == entries[i]);
            }
        }
    }
}

proof fn lemma_tag_hits_bounds(tags: Seq<Seq<char>>, q: Seq<char>)
    ensures
        0 <= tag_hits(tags, q) <= tags.len(),
    decreases tags.len(),
{
    if tags.len() > 0 {
        lemma_tag_hits_bounds(tags.drop_last(), q);
    }
}

proof fn lemma_weighted_count(bs: Seq<BookmarkModel>, q: Seq<char>, top: int)
    requires
        forall|i: int| 0 <= i < bs.len() ==> match_weight(#[trigger] bs[i], q) <= top,
    ensures
        range_count(weighted(bs, q), 1, top) == matching_count(bs, q),
    decreases bs.len(),
{
    if bs.len() > 0 {
        let init = bs.drop_last();
        assert forall|i: int| 0 <= i < init.len() implies match_weight(#[trigger] init[i], q)
            <= top by {
            assert(init[i] == bs[i]);
        }
        lemma_weighted_count(init, q, top);
        assert(weighted(bs, q).drop_last() =~= weighted(init, q));
        lemma_tag_hits_bounds(bs[bs.len() - 1].tags, q);
        assert(match_weight(bs[bs.len() - 1], q) <= top);
    }
}

/// With an input that is not blank, every bookmark that matches in at least
/// one field is suggested, and no other: there are as many suggestions as
/// matching bookmarks.
pub proof fn lemma_suggestions_count_matches(bs: Seq<BookmarkModel>, input: Seq<char>)
    requires
        trim(lowercase(input)).len() > 0,
    ensures
        suggestions_for(bs, input).len() == matching_count(bs, lowercase(input)),
{
    let q = lowercase(input);
    let e = weighted(bs, q);
    lemma_max_weight_bounds(e);
    assert forall|i: int| 0 <= i < bs.len() implies match_weight(#[trigger] bs[i], q)
        <= max_weight(e) by {
        assert(e[i].0 == match_weight(bs[i], q));
    }
    lemma_ranked_len(e, 1, max_weight(e));
    lemma_weighted_count(bs, q, max_weight(e));
}

/// Whether the typed text, in lower case, occurs in the lower-case form of
/// the bookmark's URL, its name or one of its tags.
pub open spec fn field_matches(b: BookmarkModel, input: Seq<char>) -> bool {
    let q = lowercase(input);
    ||| occurs_in(q, lowercase(b.url))
    ||| occurs_in(q, lowercase(b.name))
    ||| exists|k: int| 0 <= k < b.tags.len() && occurs_in(q, lowercase(#[trigger] b.tags[k]))
}

proof fn lemma_tag_hit_counts(tags: Seq<Seq<char>>, q: Seq<char>, k: int)
    requires
        0 <= k < tags.len(),
        occurs_in(q, lowercase(tags[k])),
    ensures
        tag_hits(tags, q) >= 1,
    decreases tags.len(),
{
    lemma_tag_hits_bounds(tags.drop_last(), q);
    if k < tags.len() - 1 {
        assert(tags.drop_last()[k] == tags[k]);
        lemma_tag_hit_counts(tags.drop_last(), q, k);
    }
}

proof fn lemma_tag_hits_witness(tags: Seq<Seq<char>>, q: Seq<char>)
    requires
        tag_hits(tags, q) >= 1,
    ensures
        exists|k: int| 0 <= k < tags.len() && occurs_in(q, lowercase(#[trigger] tags[k])),
    decreases tags.len(),
{
    if tags.len() > 0 {
        if occurs_in(q, lowercase(tags.last())) {
            assert(occurs_in(q, lowercase(tags[tags.len() - 1])));
        } else {
            lemma_tag_hits_witness(tags.drop_last(), q);
            let k = choose|k: int|
                0 <= k < tags.drop_last().len() && occurs_in(q, lowercase(#[trigger] tags.drop_last()[k]));
            assert(tags.drop_last()[k] == tags[k]);
        }
    }
}

/// A field match gives weight at least 1, and weight at least 1 comes only
/// from a field match.
proof fn lemma_weight_positive(b: BookmarkModel, input: Seq<char>)
    ensures
        match_weight(b, lowercase(input)) >= 1 <==> field_matches(b, input),
{
    let q = lowercase(input);
    lemma_tag_hits_bounds(b.tags, q);
    if exists|k: int| 0 <= k < b.tags.len() && occurs_in(q, lowercase(#[trigger] b.tags[k])) {
        let k = choose|k: int| 0 <= k < b.tags.len() && occurs_in(q, lowercase(#[trigger] b.tags[k]));
        lemma_tag_hit_counts(b.tags, q, k);
    }
    if tag_hits(b.tags, q) >= 1 {
        lemma_tag_hits_witness(b.tags, q);
    }
}

proof fn lemma_with_weight_contains(entries: Seq<(int, Seq<char>)>, w: int, i: int)
    requires
        0 <= i < entries.len(),
        entries[i].0 == w,
    ensures
        with_weight(entries, w).contains(entries[i].1),
    decreases entries.len(),
{
    if i == entries.len() - 1 {
        let r = with_weight(entries, w);
        assert(r[r.len() - 1] == entries[i].1);
    } else {
        assert(entries.drop_last()[i] == entries[i]);
        lemma_with_weight_contains(entries.drop_last(), w, i);
        let s = with_weight(entries.drop_last(), w);
        let k = choose|k: int| 0 <= k < s.len() && s[k] == entries[i].1;
        if entries.last().0 == w {
            assert(s.push(entries.last().1)[k] == entries[i].1);
        }
    }
}

proof fn lemma_with_weight_members(entries: Seq<(int, Seq<char>)>, w: int, t: Seq<char>)
    requires
        with_weight(entries, w).contains(t),
    ensures
        exists|i: int| 0 <= i < entries.len() && (#[trigger] entries[i]).0 == w && entries[i].1 == t,
    decreases entries.len(),
{
    let s = with_weight(entries.drop_last(), w);
    if entries.last().0 == w && t == entries.last().1 {
        assert(entries[entries.len() - 1] == entries.last());
    } else {
        let r = with_weight(entries, w);
        let k = choose|k: int| 0 <= k < r.len() && r[k] == t;
        if entries.last().0 == w {
            assert(k < s.len());
            assert(s[k] == t);
        }
        assert(s.contains(t));
        lemma_with_weight_members(entries.drop_last(), w, t);
        let i = choose|i: int|
            0 <= i < entries.drop_last().len() && (#[trigger] entries.drop_last()[i]).0 == w
                && entries.drop_last()[i].1 == t;
        assert(entries[i] == entries.drop_last()[i]);
    }
}

proof fn lemma_ranked_contains(entries: Seq<(int, Seq<char>)>, w: int, top: int, i: int)
    requires
        0 <= i < entries.len(),
        1 <= w <= entries[i].0 <= top,
    ensures
        ranked_from(entries, w, top).contains(entries[i].1),
    decreases top + 1 - w,
{
    let head = with_weight(entries, w);
    if entries[i].0 == w {
        lemma_with_weight_contains(entries, w, i);
        let k = choose|k: int| 0 <= k < head.len() && head[k] == entries[i].1;
        assert((head + ranked_from(entries, w + 1, top))[k] == entries[i].1);
    } else {
        lemma_ranked_contains(entries, w + 1, top, i);
        let rest = ranked_from(entries, w + 1, top);
        let k = choose|k: int| 0 <= k < rest.len() && rest[k] == entries[i].1;
        assert((head + rest)[head.len() + k] == entries[i].1);
    }
}

proof fn lemma_ranked_members(entries: Seq<(int, Seq<char>)>, w: int, top: int, t: Seq<char>)
    requires
        ranked_from(entries, w, top).contains(t),
    ensures
        exists|i: int| 0 <= i < entries.len() && w <= (#[trigger] entries[i]).0 && entries[i].1 == t,
    decreases top + 1 - w,
{
    if 1 <= w <= top {
        let head = with_weight(entries, w);
        let rest = ranked_from(entries, w + 1, top);
        let k = choose|k: int| 0 <= k < (head + rest).len() && (head + rest)[k] == t;
        if k < head.len() {
            assert(head[k] == t);
            lemma_with_weight_members(entries, w, t);
        } else {
            assert(rest[k - head.len()] == t);
            lemma_ranked_members(entries, w + 1, top, t);
        }
    }
}

/// For any typed text, a bookmark whose URL, name or one of whose tags
/// contains it, both taken in lower case, is among the suggestions.
pub proof fn lemma_matching_bookmark_is_suggested(bs: Seq<BookmarkModel>, input: Seq<char>, i: int)
    requires
        0 <= i < bs.len(),
        field_matches(bs[i], input),
    ensures
        suggestions_for(bs, input).contains(summary_text(bs[i])),
{
    let q = lowercase(input);
    if trim(q).len() == 0 {
        let all = bs.map_values(|b: BookmarkModel| summary_text(b));
        assert(all[i] == summary_text(bs[i]));
    } else {
        let e = weighted(bs, q);
        lemma_weight_positive(bs[i], input);
        lemma_max_weight_bounds(e);
        assert(e[i].0 == match_weight(bs[i], q));
        lemma_ranked_contains(e, 1, max_weight(e), i);
    }
}

/// For a typed text that is not blank, every suggestion is the short form of
/// a bookmark whose URL, name or one of whose tags contains it, both taken
/// in lower case.
pub proof fn lemma_suggestion_is_matching_bookmark(
    bs: Seq<BookmarkModel>,
    input: Seq<char>,
    t: Seq<char>,
)
    requires
        trim(lowercase(input)).len() > 0,
        suggestions_for(bs, input).contains(t),
    ensures
        exists|i: int| 0 <= i < bs.len() && field_matches(#[trigger] bs[i], input) && summary_text(bs[i]) == t,
{
    let q = lowercase(input);
    let e = weighted(bs, q);
    lemma_ranked_members(e, 1, max_weight(e), t);
    let i = choose|i: int| 0 <= i < e.len() && 1 <= (#[trigger] e[i]).0 && e[i].1 == t;
    lemma_weight_positive(bs[i], input);
    assert(field_matches(bs[i], input));
}

/// Choosing a bookmark's suggestion and taking the URL from it gives back
/// the bookmark's URL, trimmed, when no line of the suggestion before the URL
/// reads as a URL field and no field holds a line break.
pub proof fn lemma_suggestion_gives_back_url(b: BookmarkModel)
    requires
        !b.name.contains('\n'),
        !b.url.contains('\n'),
        !join(b.tags, ", "@).contains('\n'),
        !is_url_field(b.name),
        b.tags.len() > 0 ==> !is_url_field(join(b.tags, ", "@)),
        is_url_field(b.url),
    ensures
        first_url_line(split_on(summary_text(b), '\n')) == Some(trim(b.url)),
{
    reveal_strlit("\n");
    reveal_strlit("  ");
    let nl = seq!['\n'];
    let two = seq![' ', ' '];
    assert("\n"@ =~= nl);
    assert("  "@ =~= two);
    let j = join(b.tags, ", "@);
    assert(!two.contains('\n')) by {
        if two.contains('\n') {
            let k = choose|k: int| 0 <= k < two.len() && two[k] == '\n';
            assert(two[k] == ' ');
        }
    }
    lemma_concat_without(two, j, '\n');
    lemma_concat_without(two, b.url, '\n');
    lemma_split_without_separator(b.name, '\n');
    lemma_trim_idempotent(b.name);
    lemma_trim_idempotent(j);
    lemma_trim_idempotent(b.url);
    lemma_trim_after_two_spaces(j);
    lemma_trim_after_two_spaces(b.url);
    let head = if b.tags.len() > 0 {
        b.name + nl + (two + j)
    } else {
        b.name
    };
    let head_lines = if b.tags.len() > 0 {
        seq![b.name, two + j]
    } else {
        seq![b.name]
    };
    if b.tags.len() > 0 {
        lemma_split_append_piece(b.name, '\n', two + j);
        assert(seq![b.name].push(two + j) =~= head_lines);
    }
    assert(split_on(head, '\n') == head_lines);
    let with_url = head + nl + (two + b.url);
    lemma_split_append_piece(head, '\n', two + b.url);
    let all = with_url + nl + two;
    lemma_split_append_piece(with_url, '\n', two);
    assert(summary_text(b) =~= all);
    let lines = head_lines.push(two + b.url).push(two);
    assert(split_on(all, '\n') =~= lines);
    assert(first_url_line(seq![b.name]) is None) by {
        assert(seq![b.name].drop_last() =~= Seq::<Seq<char>>::empty());
        assert(seq![b.name].last() == b.name);
        assert(first_url_line(Seq::<Seq<char>>::empty()) is None);
        assert(!is_url_field(trim(b.name)));
    }
    if b.tags.len() > 0 {
        assert(head_lines.drop_last() =~= seq![b.name]);
    }
    assert(first_url_line(head_lines) is None);
    assert(lines.drop_last().drop_last() =~= head_lines);
    assert(first_url_line(lines.drop_last()) == Some(trim(b.url)));
}

/// Suggests bookmarks while the user types a search.
#[derive(Clone)]
pub struct BookmarkAutocompleter {
    bookmarks: Vec<Bookmark>,
}

/// Whether the lower-case form of `text` contains `q`.
fn field_hits(text: &str, q: &str) -> (r: bool)
    ensures
        r == occurs_in(q@, lowercase(text@)),
{
    let lower = to_lowercase(text);
    contains(lower.as_str(), q)
}

impl BookmarkAutocompleter {
    /// An autocompleter over these bookmarks.
    pub fn new(bookmarks: Vec<Bookmark>) -> (r: BookmarkAutocompleter)
        ensures
            r.bookmarks() == bookmarks@.map_values(|b: Bookmark| b@),
    {
        BookmarkAutocompleter { bookmarks }
    }

    /// The bookmarks it suggests from.
    pub closed spec fn bookmarks(&self) -> Seq<BookmarkModel> {
        self.bookmarks@.map_values(|b: Bookmark| b@)
    }

    /// The weight of one bookmark.
    fn weight(b: &Bookmark, q: &str) -> (r: u128)
        ensures
            r == match_weight(b@, q@),
            r < u128::MAX,
    {
        let mut w: u128 = 0;
        if field_hits(b.url.as_str(), q) {
            w = w + 1;
        }
        if field_hits(b.name.as_str(), q) {
            w = w + 1;
        }
        let ghost base = w as int;
        let ghost tags = b@.tags;
        let n = b.tags.len();
        let mut j: usize = 0;
        assert(tags.subrange(0, 0) =~= Seq::<Seq<char>>::empty());
        while j < n
            invariant
                n == b.tags@.len(),
                tags == b@.tags,
                tags == texts(b.tags@),
                base == hit(b@.url, q@) + hit(b@.name, q@),
                0 <= base <= 2,
                j <= n,
                w as int == base + tag_hits(tags.subrange(0, j as int), q@),
                w as int <= base + j,
            decreases n - j,
        {
            assert(tags.subrange(0, j + 1).drop_last() =~= tags.subrange(0, j as int));
            if field_hits(b.tags[j].as_str(), q) {
                w = w + 1;
            }
            j = j + 1;
        }
        assert(tags.subrange(0, tags.len() as int) =~= tags);
        w
    }

    /// The suggestions for what the user has typed so far.
    pub fn get_suggestions(&self, input: &str) -> (r: Vec<String>)
        ensures
            texts(r@) == suggestions_for(self.bookmarks(), input@),
    {
        let q = to_lowercase(input);
        let ghost bs = self.bookmarks();
        let n = self.bookmarks.len();
        if trim_str(q.as_str()).unicode_len() == 0 {
            let mut all: Vec<String> = Vec::new();
            let mut i: usize = 0;
            while i < n
                invariant
                    n == self.bookmarks@.len(),
                    bs == self.bookmarks(),
                    i <= n,
                    texts(all@) == bs.subrange(0, i as int).map_values(
                        |b: BookmarkModel| summary_text(b),
                    ),
                decreases n - i,
            {
                let ghost before = texts(all@);
                let s = self.bookmarks[i].to_string();
                assert(bs[i as int] == self.bookmarks@[i as int]@);
                assert(s@ == summary_text(bs[i as int]));
                all.push(s);
                assert(texts(all@) =~= before.push(summary_text(bs[i as int])));
                assert(bs.subrange(0, i + 1).map_values(|b: BookmarkModel| summary_text(b))
                    =~= bs.subrange(0, i as int).map_values(|b: BookmarkModel| summary_text(b)).push(
                    summary_text(bs[i as int]),
                ));
                i = i + 1;
                assert(texts(all@) =~= bs.subrange(0, i as int).map_values(
                    |b: BookmarkModel| summary_text(b),
                ));
            }
            assert(bs.subrange(0, n as int) =~= bs);
            return all;
        }
        let ghost entries = weighted(bs, q@);
        let mut weights: Vec<u128> = Vec::new();
        let mut values: Vec<String> = Vec::new();
        let mut top: u128 = 0;
        let mut i: usize = 0;
        assert(entries.subrange(0, 0) =~= Seq::<(int, Seq<char>)>::empty());
        while i < n
            invariant
                n == self.bookmarks@.len(),
                bs == self.bookmarks(),
                entries == weighted(bs, q@),
                i <= n,
                weights@.len() == i,
                values@.len() == i,
                forall|k: int|
                    0 <= k < i ==> #[trigger] weights@[k] as int == entries[k].0 && values@[k]@
                        == entries[k].1,
                top as int == max_weight(entries.subrange(0, i as int)),
                top < u128::MAX,
            decreases n - i,
        {
            assert(bs[i as int] == self.bookmarks@[i as int]@);
            assert(entries.subrange(0, i + 1).drop_last() =~= entries.subrange(0, i as int));
            let b = &self.bookmarks[i];
            let wb = Self::weight(b, q.as_str());
            if wb > top {
                top = wb;
            }
            weights.push(wb);
            values.push(b.to_string());
            i = i + 1;
        }
        assert(entries.subrange(0, n as int) =~= entries);
        assert(aligned(weights@, values@, entries));
        let ghost top_w = max_weight(entries);
        let mut r: Vec<String> = Vec::new();
        let mut w: u128 = 1;
        assert(texts(r@) + ranked_from(entries, 1, top_w) =~= ranked_from(entries, 1, top_w));
        while w <= top
            invariant
                n == weights@.len(),
                n == values@.len(),
                n == entries.len(),
                aligned(weights@, values@, entries),
                top as int == top_w,
                top < u128::MAX,
                1 <= w <= top + 1,
                texts(r@) + ranked_from(entries, w as int, top_w) == ranked_from(entries, 1, top_w),
            decreases top + 1 - w,
        {
            let ghost base = texts(r@);
            let mut k: usize = 0;
            assert(entries.subrange(0, 0) =~= Seq::<(int, Seq<char>)>::empty());
            assert(base + Seq::<Seq<char>>::empty() =~= base);
            while k < n
                invariant
                    n == weights@.len(),
                    n == values@.len(),
                    n == entries.len(),
                    aligned(weights@, values@, entries),
                    1 <= w <= top,
                    k <= n,
                    texts(r@) == base + with_weight(entries.subrange(0, k as int), w as int),
                decreases n - k,
            {
                let ghost prev = texts(r@);
                assert(entries.subrange(0, k + 1).drop_last() =~= entries.subrange(0, k as int));
                assert(entries.subrange(0, k + 1).last() == entries[k as int]);
                assert(weights@[k as int] as int == entries[k as int].0);
                if weights[k] == w {
                    r.push(values[k].clone());
                    assert(texts(r@) =~= prev.push(values@[k as int]@));
                }
                k = k + 1;
            }
            assert(entries.subrange(0, n as int) =~= entries);
            assert(texts(r@) + ranked_from(entries, w + 1, top_w) =~= base + ranked_from(
                entries,
                w as int,
                top_w,
            ));
            w = w + 1;
        }
        assert(texts(r@) =~= texts(r@) + ranked_from(entries, top_w + 1, top_w));
        r
    }
}

} // verus!
