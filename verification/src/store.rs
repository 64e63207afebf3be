//! The bookmark store: two tables and the operations on them.
//!
//! The store is passed explicitly to every operation. Operations that stamp
//! a time take the current time from the caller, and the one that may create
//! an association takes the identifier to give it.

use vstd::prelude::*;
use crate::error::{Error, ErrorView};
use crate::model::{
    clone_association, clone_bookmark, join_row, Bookmark, BookmarkUser, BookmarkView,
    BookmarkWithUser, TagOperation,
};
use crate::store_view::StoreView;
use crate::text::{clone_texts, is_tally, occurrences, tally, texts_contain};

verus! {

/// Name of the constraint that keeps bookmark identifiers unique.
pub const BOOKMARK_PKEY: &'static str = "bookmark_pkey";

/// Name of the constraint that keeps bookmark URLs unique.
pub const BOOKMARK_URL_KEY: &'static str = "bookmark_url_key";

/// Name of the constraint that allows one association per bookmark and user.
pub const BOOKMARK_USER_UNIQUE: &'static str = "bookmark_user_unique";

/// Message of a rejected insertion that would have duplicated a key.
pub const DUPLICATE_KEY: &'static str = "duplicate key value violates unique constraint";

/// Description of the fault raised when a statement that must yield exactly
/// one row yields none.
pub const UNEXPECTED_ROW_COUNT: &'static str = "query returned an unexpected number of rows";

/// Description of the fault raised when a count does not fit its column.
pub const BIGINT_OUT_OF_RANGE: &'static str = "bigint out of range";

/// The two tables of the schema, held in memory.
#[derive(Debug, Clone)]
pub struct BookmarkStore {
    bookmarks: Vec<Bookmark>,
    associations: Vec<BookmarkUser>,
}

impl View for BookmarkStore {
    type V = StoreView;

    closed spec fn view(&self) -> StoreView {
        StoreView {
            bookmarks: Seq::new(self.bookmarks.len() as nat, |i: int| self.bookmarks[i]@),
            associations: Seq::new(self.associations.len() as nat, |i: int| self.associations[i]@),
        }
    }
}

impl BookmarkStore {
    /// The store satisfies the constraints of the schema.
    pub open spec fn wf(&self) -> bool {
        self@.wf()
    }

    /// An empty store.
    pub fn new() -> (r: Self)
        ensures
            r.wf(),
            r@.bookmarks.len() == 0,
            r@.associations.len() == 0,
    {
        BookmarkStore { bookmarks: Vec::new(), associations: Vec::new() }
    }

    /// Builds a store from the rows of its two tables.
    ///
    /// The bookmarks keep their order; the associations are put in order of
    /// creation time. Rows that break a uniqueness constraint of the schema
    /// are refused: a shared bookmark identifier first, then a shared URL,
    /// then two associations for one bookmark and user.
    pub fn load(bookmarks: Vec<Bookmark>, associations: Vec<BookmarkUser>) -> (r: Result<
        BookmarkStore,
        Error,
    >)
        ensures
            match r {
                Ok(store) => {
                    &&& store.wf()
                    &&& store@.bookmarks == bookmarks.deep_view()
                    &&& store@.associations == StoreView::ordered(associations.deep_view())
                    &&& StoreView::pairs_unique(associations.deep_view())
                },
                Err(e) => if !StoreView::ids_unique(bookmarks.deep_view()) {
                    e@ == duplicate_key(BOOKMARK_PKEY@)
                } else if !StoreView::urls_unique(bookmarks.deep_view()) {
                    e@ == duplicate_key(BOOKMARK_URL_KEY@)
                } else {
                    !StoreView::pairs_unique(associations.deep_view()) && e@ == duplicate_key(
                        BOOKMARK_USER_UNIQUE@,
                    )
                },
            },
    {
        if !ids_are_unique(&bookmarks) {
            return Err(duplicate_key_error(BOOKMARK_PKEY));
        }
        if !urls_are_unique(&bookmarks) {
            return Err(duplicate_key_error(BOOKMARK_URL_KEY));
        }
        if !pairs_are_unique(&associations) {
            return Err(duplicate_key_error(BOOKMARK_USER_UNIQUE));
        }
        let ghost rows = associations.deep_view();
        let mut store = BookmarkStore { bookmarks, associations: Vec::new() };
        assert(store@.bookmarks =~= bookmarks.deep_view());
        let mut i: usize = 0;
        assert(store@.associations =~= StoreView::ordered(rows.take(0)));
        while i < associations.len()
            invariant
                i <= associations.len(),
                rows == associations.deep_view(),
                store@.bookmarks == bookmarks.deep_view(),
                store@.associations == StoreView::ordered(rows.take(i as int)),
            decreases associations.len() - i,
        {
            let ghost before = store@.associations;
            proof {
                assert(rows.take(i + 1).drop_last() =~= rows.take(i as int));
                assert(rows.take(i + 1).last() == rows[i as int]);
                StoreView::lemma_slot(before, rows[i as int].created_at);
            }
            let p = store.find_slot(associations[i].created_at);
            store.associations.insert(p, clone_association(&associations[i]));
            assert(store@.associations =~= StoreView::placed(before, rows[i as int]));
            assert(store@.bookmarks =~= bookmarks.deep_view());
            i += 1;
        }
        proof {
            assert(rows.take(i as int) =~= rows);
            StoreView::lemma_ordered(rows);
        }
        Ok(store)
    }

    /// The rows of the bookmark table, in the order in which they were saved.
    pub fn bookmarks(&self) -> (r: Vec<Bookmark>)
        ensures
            r.deep_view() == self@.bookmarks,
    {
        let mut out: Vec<Bookmark> = Vec::new();
        let mut i: usize = 0;
        while i < self.bookmarks.len()
            invariant
                i <= self.bookmarks.len(),
                out.len() == i,
                forall|k: int| 0 <= k < i ==> (#[trigger] out[k])@ == self.bookmarks[k]@,
            decreases self.bookmarks.len() - i,
        {
            out.push(clone_bookmark(&self.bookmarks[i]));
            i += 1;
        }
        assert(out.deep_view() =~= self@.bookmarks);
        out
    }

    /// What `user_id` attached to `bookmark_id`, if anything.
    pub fn association(&self, bookmark_id: &str, user_id: u128) -> (r: Option<BookmarkUser>)
        requires
            self.wf(),
        ensures
            match r {
                Some(a) => self@.association(bookmark_id@, user_id) == Some(a@),
                None => self@.association(bookmark_id@, user_id) is None,
            },
    {
        let key = bookmark_id.to_owned();
        match self.find_association(&key, user_id) {
            Some(i) => {
                proof {
                    self@.lemma_association_row(i as int);
                }
                Some(clone_association(&self.associations[i]))
            },
            None => None,
        }
    }

    /// The rows of the association table, oldest first.
    pub fn associations(&self) -> (r: Vec<BookmarkUser>)
        ensures
            r.deep_view() == self@.associations,
    {
        let mut out: Vec<BookmarkUser> = Vec::new();
        let mut i: usize = 0;
        while i < self.associations.len()
            invariant
                i <= self.associations.len(),
                out.len() == i,
                forall|k: int| 0 <= k < i ==> (#[trigger] out[k])@ == self.associations[k]@,
            decreases self.associations.len() - i,
        {
            out.push(clone_association(&self.associations[i]));
            i += 1;
        }
        assert(out.deep_view() =~= self@.associations);
        out
    }
}

/// How often `user_id` used each tag, over all the bookmarks the user saved.
///
/// Each tag the user ever gave is listed once, with the number of its uses;
/// a tag given twice to one bookmark counts twice. The order of the list
/// carries no meaning. A count that does not fit the counter is a database
/// error.
pub fn get_tag_count_by_user(store: &BookmarkStore, user_id: u128) -> (r: Result<
    Vec<(String, i64)>,
    Error,
>)
    requires
        store.wf(),
    ensures
        match r {
            Ok(counts) => is_tally(counts.deep_view(), store@.tags_of_user(user_id)),
            Err(e) => {
                &&& exists|t: Seq<char>| occurrences(store@.tags_of_user(user_id), t) > i64::MAX
                &&& e@ == ErrorView::DatabaseError(BIGINT_OUT_OF_RANGE@)
            },
        },
{
    let tags = store.user_tags(user_id);
    match tally(tags.as_slice()) {
        Some(counts) => Ok(counts),
        None => Err(Error::DatabaseError(BIGINT_OUT_OF_RANGE.to_owned())),
    }
}

/// All bookmarks that `user_id` saved, each with the user's tags and
/// timestamps, in the order in which the user saved them (oldest first).
pub fn get_by_user(store: &BookmarkStore, user_id: u128) -> (r: Vec<BookmarkWithUser>)
    requires
        store.wf(),
    ensures
        r.deep_view() == store@.rows_by_user(user_id),
{
    let ghost f = store@.row_of_user(user_id);
    let mut out: Vec<BookmarkWithUser> = Vec::new();
    let mut i: usize = 0;
    assert(store@.associations.take(0).filter_map(f) =~= Seq::empty());
    while i < store.associations.len()
        invariant
            store.wf(),
            i <= store.associations.len(),
            f == store@.row_of_user(user_id),
            out.deep_view() == store@.associations.take(i as int).filter_map(f),
        decreases store.associations.len() - i,
    {
        let ghost before = out.deep_view();
        proof {
            store@.associations.lemma_filter_map_take_succ(f, i as int);
        }
        if store.associations[i].user_id == user_id {
            if let Some(row) = store.join_at(i) {
                out.push(row);
                assert(out.deep_view() =~= before + seq![row@]);
            }
        }
        i += 1;
    }
    assert(store@.associations.take(i as int) =~= store@.associations);
    out
}

/// The bookmarks that `user_id` saved and whose tag list holds exactly the
/// text `tag` (compared case-sensitively), oldest association first.
pub fn get_by_tag(store: &BookmarkStore, user_id: u128, tag: &str) -> (r: Vec<BookmarkWithUser>)
    requires
        store.wf(),
    ensures
        r.deep_view() == store@.rows_by_tag(user_id, tag@),
{
    let key = tag.to_owned();
    let ghost f = store@.row_of_tag(user_id, tag@);
    let mut out: Vec<BookmarkWithUser> = Vec::new();
    let mut i: usize = 0;
    assert(store@.associations.take(0).filter_map(f) =~= Seq::empty());
    while i < store.associations.len()
        invariant
            store.wf(),
            i <= store.associations.len(),
            key@ == tag@,
            f == store@.row_of_tag(user_id, tag@),
            out.deep_view() == store@.associations.take(i as int).filter_map(f),
        decreases store.associations.len() - i,
    {
        let ghost before = out.deep_view();
        proof {
            store@.associations.lemma_filter_map_take_succ(f, i as int);
        }
        if store.associations[i].user_id == user_id && texts_contain(
            &store.associations[i].tags,
            &key,
        ) {
            if let Some(row) = store.join_at(i) {
                out.push(row);
                assert(out.deep_view() =~= before + seq![row@]);
            }
        }
        i += 1;
    }
    assert(store@.associations.take(i as int) =~= store@.associations);
    out
}

/// Looks a bookmark up by its URL. That there is none is not an error.
pub fn get_by_url(store: &BookmarkStore, url: &str) -> (r: Option<Bookmark>)
    requires
        store.wf(),
    ensures
        match r {
            Some(b) => store@.bookmark_by_url(url@) == Some(b@),
            None => store@.bookmark_by_url(url@) is None,
        },
{
    let key = url.to_owned();
    match store.find_bookmark_by_url(&key) {
        Some(i) => {
            proof {
                store@.lemma_bookmark_row(i as int);
            }
            Some(clone_bookmark(&store.bookmarks[i]))
        },
        None => None,
    }
}

/// The bookmark `bookmark_id` as `user_id` saved it. There is none when the
/// user has no association with it, or when no such bookmark exists; neither
/// is an error.
pub fn get_with_user_data(store: &BookmarkStore, user_id: u128, bookmark_id: &str) -> (r: Option<
    BookmarkWithUser,
>)
    requires
        store.wf(),
    ensures
        match r {
            Some(row) => store@.with_user_data(user_id, bookmark_id@) == Some(row@),
            None => store@.with_user_data(user_id, bookmark_id@) is None,
        },
{
    let key = bookmark_id.to_owned();
    match store.find_association(&key, user_id) {
        Some(i) => {
            proof {
                store@.lemma_association_row(i as int);
            }
            store.join_at(i)
        },
        None => None,
    }
}

/// Applies `operation` to the tags that `user_id` gave to `bookmark_id`,
/// stamps the association as updated at `now`, and returns the refreshed
/// joined row.
///
/// Exactly one row has to match: when the user has no association with the
/// bookmark, or the bookmark does not exist, the store is left as it was and
/// the fault is reported as a database error.
pub fn update_tags(
    store: &mut BookmarkStore,
    user_id: u128,
    bookmark_id: &str,
    operation: &TagOperation,
    now: i64,
) -> (r: Result<BookmarkWithUser, Error>)
    requires
        old(store).wf(),
    ensures
        final(store).wf(),
        final(store)@ == old(store)@.update_tags(user_id, bookmark_id@, operation@, now),
        match r {
            Ok(row) => {
                &&& old(store)@.with_user_data(user_id, bookmark_id@) is Some
                &&& final(store)@.with_user_data(user_id, bookmark_id@) == Some(row@)
            },
            Err(e) => {
                &&& old(store)@.with_user_data(user_id, bookmark_id@) is None
                &&& e@ == ErrorView::DatabaseError(UNEXPECTED_ROW_COUNT@)
            },
        },
{
    let key = bookmark_id.to_owned();
    let found = match store.find_association(&key, user_id) {
        Some(i) => match store.find_bookmark_by_id(&key) {
            Some(j) => Some((i, j)),
            None => None,
        },
        None => None,
    };
    match found {
        Some((i, j)) => {
            proof {
                store@.lemma_association_row(i as int);
                store@.lemma_bookmark_row(j as int);
            }
            let tags = operation.apply(&store.associations[i].tags);
            store.associations[i].tags = tags;
            store.associations[i].updated_at = now;
            let refreshed = join_row(&store.bookmarks[j], &store.associations[i]);
            assert(store@.associations =~= old(store)@.update_tags(
                user_id,
                bookmark_id@,
                operation@,
                now,
            ).associations);
            assert(store@.bookmarks =~= old(store)@.bookmarks);
            proof {
                store@.lemma_association_row(i as int);
                store@.lemma_bookmark_row(j as int);
            }
            Ok(refreshed)
        },
        None => Err(Error::DatabaseError(UNEXPECTED_ROW_COUNT.to_owned())),
    }
}

/// Records that `user_id` saved `bookmark_id` with `tags`, at time `now`.
///
/// If the user has no association with the bookmark yet, one is created
/// under the identifier `fresh_id`. If there is one, its tags are replaced
/// by `tags` (not merged with them) and its update time becomes `now`; its
/// identifier and creation time stay. Either way there is exactly one
/// association for the pair afterwards, and its identifier is returned.
pub fn upsert_user_bookmark(
    store: &mut BookmarkStore,
    bookmark_id: &str,
    user_id: u128,
    tags: &[String],
    fresh_id: u128,
    now: i64,
) -> (r: u128)
    requires
        old(store).wf(),
    ensures
        final(store).wf(),
        final(store)@ == old(store)@.upsert(
            bookmark_id@,
            user_id,
            tags.deep_view(),
            fresh_id,
            now,
        ),
        r == match old(store)@.association(bookmark_id@, user_id) {
            Some(a) => a.bookmark_user_id,
            None => fresh_id,
        },
{
    let key = bookmark_id.to_owned();
    match store.find_association(&key, user_id) {
        Some(i) => {
            proof {
                store@.lemma_association_row(i as int);
            }
            let id = store.associations[i].bookmark_user_id;
            store.associations[i].tags = clone_texts(tags);
            store.associations[i].updated_at = now;
            assert(store@.associations =~= old(store)@.upsert(
                bookmark_id@,
                user_id,
                tags.deep_view(),
                fresh_id,
                now,
            ).associations);
            assert(store@.bookmarks =~= old(store)@.bookmarks);
            id
        },
        None => {
            let p = store.find_slot(now);
            proof {
                StoreView::lemma_slot(store@.associations, now);
            }
            let row = BookmarkUser {
                bookmark_user_id: fresh_id,
                bookmark_id: key,
                user_id,
                tags: clone_texts(tags),
                created_at: now,
                updated_at: now,
            };
            store.associations.insert(p, row);
            assert(store@.associations =~= old(store)@.upsert(
                bookmark_id@,
                user_id,
                tags.deep_view(),
                fresh_id,
                now,
            ).associations);
            assert(store@.bookmarks =~= old(store)@.bookmarks);
            fresh_id
        },
    }
}

/// Inserts `bookmark` as a new row, created at `now`; the creation time that
/// `bookmark` carries is ignored.
///
/// Nothing is looked up beforehand: the store's own constraints reject a
/// bookmark whose identifier is taken, and otherwise one whose URL is taken,
/// and leave the store as it was.
pub fn save(store: &mut BookmarkStore, bookmark: &Bookmark, now: i64) -> (r: Result<(), Error>)
    requires
        old(store).wf(),
    ensures
        final(store).wf(),
        final(store)@.associations == old(store)@.associations,
        match r {
            Ok(_) => {
                &&& old(store)@.bookmark_by_id(bookmark@.bookmark_id) is None
                &&& old(store)@.bookmark_by_url(bookmark@.url) is None
                &&& final(store)@.bookmarks == old(store)@.bookmarks.push(
                    (BookmarkView { created_at: now, ..bookmark@ }),
                )
            },
            Err(e) => {
                &&& final(store)@ == old(store)@
                &&& if old(store)@.bookmark_by_id(bookmark@.bookmark_id) is Some {
                    e@ == duplicate_key(BOOKMARK_PKEY@)
                } else {
                    old(store)@.bookmark_by_url(bookmark@.url) is Some && e@ == duplicate_key(
                        BOOKMARK_URL_KEY@,
                    )
                }
            },
        },
{
    if store.find_bookmark_by_id(&bookmark.bookmark_id).is_some() {
        return Err(duplicate_key_error(BOOKMARK_PKEY));
    }
    if store.find_bookmark_by_url(&bookmark.url).is_some() {
        return Err(duplicate_key_error(BOOKMARK_URL_KEY));
    }
    let mut row = clone_bookmark(bookmark);
    row.created_at = now;
    store.bookmarks.push(row);
    assert(store@.bookmarks =~= old(store)@.bookmarks.push(
        (BookmarkView { created_at: now, ..bookmark@ }),
    ));
    assert(store@.associations =~= old(store)@.associations);
    Ok(())
}

impl BookmarkStore {
    /// Row of the bookmark stored under `id`.
    fn find_bookmark_by_id(&self, id: &String) -> (r: Option<usize>)
        ensures
            match r {
                Some(i) => i < self@.bookmarks.len() && self@.bookmarks[i as int].bookmark_id
                    == id@,
                None => forall|k: int|
                    0 <= k < self@.bookmarks.len() ==> (#[trigger] self@.bookmarks[k]).bookmark_id
                        != id@,
            },
    {
        let mut i: usize = 0;
        while i < self.bookmarks.len()
            invariant
                i <= self.bookmarks.len(),
                forall|k: int| 0 <= k < i ==> (#[trigger] self@.bookmarks[k]).bookmark_id != id@,
            decreases self.bookmarks.len() - i,
        {
            if self.bookmarks[i].bookmark_id == *id {
                return Some(i);
            }
            i += 1;
        }
        None
    }

    /// Row of the bookmark stored for `url`.
    fn find_bookmark_by_url(&self, url: &String) -> (r: Option<usize>)
        ensures
            match r {
                Some(i) => i < self@.bookmarks.len() && self@.bookmarks[i as int].url == url@,
                None => forall|k: int|
                    0 <= k < self@.bookmarks.len() ==> (#[trigger] self@.bookmarks[k]).url != url@,
            },
    {
        let mut i: usize = 0;
        while i < self.bookmarks.len()
            invariant
                i <= self.bookmarks.len(),
                forall|k: int| 0 <= k < i ==> (#[trigger] self@.bookmarks[k]).url != url@,
            decreases self.bookmarks.len() - i,
        {
            if self.bookmarks[i].url == *url {
                return Some(i);
            }
            i += 1;
        }
        None
    }

    /// Row of the association of `user` with `bookmark_id`.
    fn find_association(&self, bookmark_id: &String, user: u128) -> (r: Option<usize>)
        ensures
            match r {
                Some(i) => i < self@.associations.len() && self@.associations[i as int].bookmark_id
                    == bookmark_id@ && self@.associations[i as int].user_id == user,
                None => forall|k: int|
                    0 <= k < self@.associations.len() ==> !((
                    #[trigger] self@.associations[k]).bookmark_id == bookmark_id@
                        && self@.associations[k].user_id == user),
            },
    {
        let mut i: usize = 0;
        while i < self.associations.len()
            invariant
                i <= self.associations.len(),
                forall|k: int|
                    0 <= k < i ==> !((#[trigger] self@.associations[k]).bookmark_id == bookmark_id@
                        && self@.associations[k].user_id == user),
            decreases self.associations.len() - i,
        {
            if self.associations[i].user_id == user && self.associations[i].bookmark_id
                == *bookmark_id {
                return Some(i);
            }
            i += 1;
        }
        None
    }

    /// Where a row created at `now` is to be inserted.
    fn find_slot(&self, now: i64) -> (p: usize)
        ensures
            p == StoreView::slot(self@.associations, now),
    {
        let mut p: usize = self.associations.len();
        assert(self@.associations.take(p as int) =~= self@.associations);
        while p > 0 && self.associations[p - 1].created_at > now
            invariant
                p <= self.associations.len(),
                StoreView::slot(self@.associations, now) == StoreView::slot(
                    self@.associations.take(p as int),
                    now,
                ),
            decreases p,
        {
            assert(self@.associations.take(p as int).drop_last() =~= self@.associations.take(
                p - 1,
            ));
            p -= 1;
        }
        p
    }

    /// The joined row of the association at row `i`, if its bookmark exists.
    fn join_at(&self, i: usize) -> (r: Option<BookmarkWithUser>)
        requires
            self.wf(),
            i < self@.associations.len(),
        ensures
            match r {
                Some(row) => self@.row(self@.associations[i as int]) == Some(row@),
                None => self@.row(self@.associations[i as int]) is None,
            },
    {
        match self.find_bookmark_by_id(&self.associations[i].bookmark_id) {
            Some(j) => {
                proof {
                    self@.lemma_bookmark_row(j as int);
                }
                Some(join_row(&self.bookmarks[j], &self.associations[i]))
            },
            None => None,
        }
    }

    /// Every tag that `user` gave to any bookmark, one entry per use.
    fn user_tags(&self, user: u128) -> (r: Vec<String>)
        ensures
            r.deep_view() == self@.tags_of_user(user),
    {
        let ghost f = StoreView::tags_of(user);
        let mut out: Vec<String> = Vec::new();
        let mut i: usize = 0;
        assert(self@.associations.take(0).flat_map(f) =~= Seq::empty());
        while i < self.associations.len()
            invariant
                i <= self.associations.len(),
                f == StoreView::tags_of(user),
                out.deep_view() == self@.associations.take(i as int).flat_map(f),
            decreases self.associations.len() - i,
        {
            proof {
                self@.associations.lemma_flat_map_take_append(f, i as int);
            }
            if self.associations[i].user_id == user {
                let ghost before = out.deep_view();
                let mut tags = clone_texts(self.associations[i].tags.as_slice());
                out.append(&mut tags);
                assert(out.deep_view() =~= before + self.associations[i as int].tags.deep_view());
            }
            i += 1;
        }
        assert(self@.associations.take(i as int) =~= self@.associations);
        out
    }
}

/// The error reported when an insertion would duplicate a key of `constraint`.
pub open spec fn duplicate_key(constraint: Seq<char>) -> ErrorView {
    ErrorView::ConstraintViolation { constraint, message: DUPLICATE_KEY@ }
}

/// Builds the error for a duplicated key of `constraint`.
fn duplicate_key_error(constraint: &str) -> (e: Error)
    ensures
        e@ == duplicate_key(constraint@),
{
    Error::ConstraintViolation {
        constraint: constraint.to_owned(),
        message: DUPLICATE_KEY.to_owned(),
    }
}

/// Tells whether no two of `bookmarks` share an identifier.
fn ids_are_unique(bookmarks: &Vec<Bookmark>) -> (r: bool)
    ensures
        r == StoreView::ids_unique(bookmarks.deep_view()),
{
    let ghost rows = bookmarks.deep_view();
    let mut j: usize = 0;
    while j < bookmarks.len()
        invariant
            j <= bookmarks.len(),
            rows == bookmarks.deep_view(),
            forall|a: int, b: int|
                0 <= a < b < j ==> (#[trigger] rows[a]).bookmark_id != (
                #[trigger] rows[b]).bookmark_id,
        decreases bookmarks.len() - j,
    {
        let mut i: usize = 0;
        while i < j
            invariant
                i <= j < bookmarks.len(),
                rows == bookmarks.deep_view(),
                forall|a: int|
                    0 <= a < i ==> (#[trigger] rows[a]).bookmark_id != rows[j as int].bookmark_id,
            decreases j - i,
        {
            if bookmarks[i].bookmark_id == bookmarks[j].bookmark_id {
                assert(rows[i as int].bookmark_id == rows[j as int].bookmark_id);
                return false;
            }
            i += 1;
        }
        j += 1;
    }
    true
}

/// Tells whether no two of `bookmarks` share a URL.
fn urls_are_unique(bookmarks: &Vec<Bookmark>) -> (r: bool)
    ensures
        r == StoreView::urls_unique(bookmarks.deep_view()),
{
    let ghost rows = bookmarks.deep_view();
    let mut j: usize = 0;
    while j < bookmarks.len()
        invariant
            j <= bookmarks.len(),
            rows == bookmarks.deep_view(),
            forall|a: int, b: int|
                0 <= a < b < j ==> (#[trigger] rows[a]).url != (#[trigger] rows[b]).url,
        decreases bookmarks.len() - j,
    {
        let mut i: usize = 0;
        while i < j
            invariant
                i <= j < bookmarks.len(),
                rows == bookmarks.deep_view(),
                forall|a: int| 0 <= a < i ==> (#[trigger] rows[a]).url != rows[j as int].url,
            decreases j - i,
        {
            if bookmarks[i].url == bookmarks[j].url {
                assert(rows[i as int].url == rows[j as int].url);
                return false;
            }
            i += 1;
        }
        j += 1;
    }
    true
}

/// Tells whether no two of `associations` are for the same bookmark and user.
fn pairs_are_unique(associations: &Vec<BookmarkUser>) -> (r: bool)
    ensures
        r == StoreView::pairs_unique(associations.deep_view()),
{
    let ghost rows = associations.deep_view();
    let mut j: usize = 0;
    while j < associations.len()
        invariant
            j <= associations.len(),
            rows == associations.deep_view(),
            forall|a: int, b: int|
                0 <= a < b < j ==> !((#[trigger] rows[a]).bookmark_id == (
                #[trigger] rows[b]).bookmark_id && rows[a].user_id == rows[b].user_id),
        decreases associations.len() - j,
    {
        let mut i: usize = 0;
        while i < j
            invariant
                i <= j < associations.len(),
                rows == associations.deep_view(),
                forall|a: int|
                    0 <= a < i ==> !((#[trigger] rows[a]).bookmark_id == rows[j as int].bookmark_id
                        && rows[a].user_id == rows[j as int].user_id),
            decreases j - i,
        {
            if associations[i].user_id == associations[j].user_id && associations[i].bookmark_id
                == associations[j].bookmark_id {
                assert(rows[i as int].bookmark_id == rows[j as int].bookmark_id);
                assert(rows[i as int].user_id == rows[j as int].user_id);
                return false;
            }
            i += 1;
        }
        j += 1;
    }
    true
}

} // verus!
