//! The mathematical value of the bookmark store, and what its operations
//! do to it.

use vstd::prelude::*;
use crate::model::{
    joined, BookmarkUserView, BookmarkView, BookmarkWithUserView, TagOperationView,
};
use crate::text::Texts;

verus! {

/// The rows of the two tables of the schema.
pub struct StoreView {
    /// The bookmarks, in the order in which they were saved.
    pub bookmarks: Seq<BookmarkView>,
    /// The associations, oldest first.
    pub associations: Seq<BookmarkUserView>,
}

impl StoreView {
    /// No two bookmarks share an identifier.
    pub open spec fn ids_unique(bookmarks: Seq<BookmarkView>) -> bool {
        forall|i: int, j: int|
            0 <= i < j < bookmarks.len() ==> (#[trigger] bookmarks[i]).bookmark_id != (
            #[trigger] bookmarks[j]).bookmark_id
    }

    /// No two bookmarks share a URL.
    pub open spec fn urls_unique(bookmarks: Seq<BookmarkView>) -> bool {
        forall|i: int, j: int|
            0 <= i < j < bookmarks.len() ==> (#[trigger] bookmarks[i]).url != (
            #[trigger] bookmarks[j]).url
    }

    /// No two associations are for the same bookmark and user.
    pub open spec fn pairs_unique(associations: Seq<BookmarkUserView>) -> bool {
        forall|i: int, j: int|
            0 <= i < j < associations.len() ==> !((#[trigger] associations[i]).bookmark_id == (
            #[trigger] associations[j]).bookmark_id && associations[i].user_id
                == associations[j].user_id)
    }

    /// Creation times never decrease along the associations.
    pub open spec fn in_creation_order(associations: Seq<BookmarkUserView>) -> bool {
        forall|i: int, j: int|
            0 <= i < j < associations.len() ==> (#[trigger] associations[i]).created_at <= (
            #[trigger] associations[j]).created_at
    }

    /// The constraints of the schema: bookmark identifiers and URLs are
    /// unique, there is at most one association per (bookmark, user) pair,
    /// and associations are kept in order of creation time.
    pub open spec fn wf(self) -> bool {
        &&& Self::ids_unique(self.bookmarks)
        &&& Self::urls_unique(self.bookmarks)
        &&& Self::pairs_unique(self.associations)
        &&& Self::in_creation_order(self.associations)
    }

    /// The associations with `row` put in its place by creation time.
    pub open spec fn placed(rows: Seq<BookmarkUserView>, row: BookmarkUserView) -> Seq<
        BookmarkUserView,
    > {
        rows.insert(Self::slot(rows, row.created_at), row)
    }

    /// `rows` put in order of creation time, one after the other; rows of
    /// the same time keep their order.
    pub open spec fn ordered(rows: Seq<BookmarkUserView>) -> Seq<BookmarkUserView>
        decreases rows.len(),
    {
        if rows.len() == 0 {
            rows
        } else {
            Self::placed(Self::ordered(rows.drop_last()), rows.last())
        }
    }

    /// The bookmark stored under identifier `id`, if there is one.
    pub open spec fn bookmark_by_id(self, id: Seq<char>) -> Option<BookmarkView> {
        if exists|i: int|
            0 <= i < self.bookmarks.len() && (#[trigger] self.bookmarks[i]).bookmark_id == id {
            Some(
                self.bookmarks[choose|i: int|
                    0 <= i < self.bookmarks.len() && (#[trigger] self.bookmarks[i]).bookmark_id
                        == id],
            )
        } else {
            None
        }
    }

    /// The bookmark stored for `url`, if there is one.
    pub open spec fn bookmark_by_url(self, url: Seq<char>) -> Option<BookmarkView> {
        if exists|i: int|
            0 <= i < self.bookmarks.len() && (#[trigger] self.bookmarks[i]).url == url {
            Some(
                self.bookmarks[choose|i: int|
                    0 <= i < self.bookmarks.len() && (#[trigger] self.bookmarks[i]).url == url],
            )
        } else {
            None
        }
    }

    /// The row of the association of `user` with the bookmark `bookmark_id`,
    /// if there is one.
    pub open spec fn association_index(self, bookmark_id: Seq<char>, user: u128) -> Option<int> {
        if exists|i: int|
            0 <= i < self.associations.len() && (#[trigger] self.associations[i]).bookmark_id
                == bookmark_id && self.associations[i].user_id == user {
            Some(
                choose|i: int|
                    0 <= i < self.associations.len() && (
                    #[trigger] self.associations[i]).bookmark_id == bookmark_id
                        && self.associations[i].user_id == user,
            )
        } else {
            None
        }
    }

    /// The association of `user` with the bookmark `bookmark_id`, if any.
    pub open spec fn association(self, bookmark_id: Seq<char>, user: u128) -> Option<
        BookmarkUserView,
    > {
        match self.association_index(bookmark_id, user) {
            Some(i) => Some(self.associations[i]),
            None => None,
        }
    }

    /// Where an association created at `now` goes: behind the last row that
    /// is not younger.
    pub open spec fn slot(rows: Seq<BookmarkUserView>, now: i64) -> int
        decreases rows.len(),
    {
        if rows.len() == 0 || rows.last().created_at <= now {
            rows.len() as int
        } else {
            Self::slot(rows.drop_last(), now)
        }
    }

    /// The store after `user` saved `bookmark_id` with `tags` at time `now`:
    /// an existing association gets the new tags and update time, otherwise
    /// one is created under the identifier `fresh_id`.
    pub open spec fn upsert(
        self,
        bookmark_id: Seq<char>,
        user: u128,
        tags: Texts,
        fresh_id: u128,
        now: i64,
    ) -> StoreView {
        match self.association_index(bookmark_id, user) {
            Some(i) => StoreView {
                associations: self.associations.update(
                    i,
                    BookmarkUserView { tags, updated_at: now, ..self.associations[i] },
                ),
                ..self
            },
            None => StoreView {
                associations: self.associations.insert(
                    Self::slot(self.associations, now),
                    BookmarkUserView {
                        bookmark_user_id: fresh_id,
                        bookmark_id,
                        user_id: user,
                        tags,
                        created_at: now,
                        updated_at: now,
                    },
                ),
                ..self
            },
        }
    }

    /// The store after `operation` was applied at time `now` to the tags
    /// that `user` gave to `bookmark_id`. Nothing changes unless both the
    /// association and the bookmark exist.
    pub open spec fn update_tags(
        self,
        user: u128,
        bookmark_id: Seq<char>,
        operation: TagOperationView,
        now: i64,
    ) -> StoreView {
        match self.association_index(bookmark_id, user) {
            Some(i) => if self.bookmark_by_id(bookmark_id) is Some {
                StoreView {
                    associations: self.associations.update(
                        i,
                        BookmarkUserView {
                            tags: operation.apply(self.associations[i].tags),
                            updated_at: now,
                            ..self.associations[i]
                        },
                    ),
                    ..self
                }
            } else {
                self
            },
            None => self,
        }
    }

    /// The joined row of association `a`: absent when its bookmark is.
    pub open spec fn row(self, a: BookmarkUserView) -> Option<BookmarkWithUserView> {
        match self.bookmark_by_id(a.bookmark_id) {
            Some(b) => Some(joined(b, a)),
            None => None,
        }
    }

    /// The joined row of `user` for `bookmark_id`: absent when the
    /// association or the bookmark is.
    pub open spec fn with_user_data(self, user: u128, bookmark_id: Seq<char>) -> Option<
        BookmarkWithUserView,
    > {
        match self.association(bookmark_id, user) {
            Some(a) => self.row(a),
            None => None,
        }
    }

    /// Selects the joined rows of `user`.
    pub open spec fn row_of_user(self, user: u128) -> spec_fn(BookmarkUserView) -> Option<
        BookmarkWithUserView,
    > {
        |a: BookmarkUserView|
            if a.user_id == user {
                self.row(a)
            } else {
                None
            }
    }

    /// Selects the joined rows of `user` whose tag list holds `tag`.
    pub open spec fn row_of_tag(self, user: u128, tag: Seq<char>) -> spec_fn(
        BookmarkUserView,
    ) -> Option<BookmarkWithUserView> {
        |a: BookmarkUserView|
            if a.user_id == user && a.tags.contains(tag) {
                self.row(a)
            } else {
                None
            }
    }

    /// All joined rows of `user`, oldest association first.
    pub open spec fn rows_by_user(self, user: u128) -> Seq<BookmarkWithUserView> {
        self.associations.filter_map(self.row_of_user(user))
    }

    /// The joined rows of `user` tagged with `tag`, oldest association first.
    pub open spec fn rows_by_tag(self, user: u128, tag: Seq<char>) -> Seq<BookmarkWithUserView> {
        self.associations.filter_map(self.row_of_tag(user, tag))
    }

    /// Selects the tags of the associations of `user`.
    pub open spec fn tags_of(user: u128) -> spec_fn(BookmarkUserView) -> Texts {
        |a: BookmarkUserView|
            if a.user_id == user {
                a.tags
            } else {
                Seq::empty()
            }
    }

    /// Every tag that `user` gave to any bookmark, one entry per use.
    pub open spec fn tags_of_user(self, user: u128) -> Texts {
        self.associations.flat_map(Self::tags_of(user))
    }

    /// In a well-formed store the bookmark at row `i` is the one found under
    /// its identifier and under its URL.
    pub proof fn lemma_bookmark_row(self, i: int)
        requires
            self.wf(),
            0 <= i < self.bookmarks.len(),
        ensures
            self.bookmark_by_id(self.bookmarks[i].bookmark_id) == Some(self.bookmarks[i]),
            self.bookmark_by_url(self.bookmarks[i].url) == Some(self.bookmarks[i]),
    {
        let b = self.bookmarks[i];
        let j = choose|j: int|
            0 <= j < self.bookmarks.len() && (#[trigger] self.bookmarks[j]).bookmark_id
                == b.bookmark_id;
        assert(j == i);
        let k = choose|k: int|
            0 <= k < self.bookmarks.len() && (#[trigger] self.bookmarks[k]).url == b.url;
        assert(k == i);
    }

    /// In a well-formed store the association at row `i` is the one found
    /// under its (bookmark, user) pair.
    pub proof fn lemma_association_row(self, i: int)
        requires
            self.wf(),
            0 <= i < self.associations.len(),
        ensures
            self.association_index(self.associations[i].bookmark_id, self.associations[i].user_id)
                == Some(i),
            self.association(self.associations[i].bookmark_id, self.associations[i].user_id)
                == Some(self.associations[i]),
    {
        let a = self.associations[i];
        let j = choose|j: int|
            0 <= j < self.associations.len() && (#[trigger] self.associations[j]).bookmark_id
                == a.bookmark_id && self.associations[j].user_id == a.user_id;
        assert(j == i);
    }

    /// The slot lies within the table, every row from it on is younger than
    /// `now`, and the row before it, if any, is not.
    pub proof fn lemma_slot(rows: Seq<BookmarkUserView>, now: i64)
        ensures
            0 <= Self::slot(rows, now) <= rows.len(),
            forall|k: int|
                Self::slot(rows, now) <= k < rows.len() ==> (#[trigger] rows[k]).created_at > now,
            Self::slot(rows, now) > 0 ==> rows[Self::slot(rows, now) - 1].created_at <= now,
        decreases rows.len(),
    {
        if !(rows.len() == 0 || rows.last().created_at <= now) {
            let front = rows.drop_last();
            Self::lemma_slot(front, now);
            assert forall|k: int| Self::slot(rows, now) <= k < rows.len() implies (
            #[trigger] rows[k]).created_at > now by {
                if k < front.len() {
                    assert(front[k] == rows[k]);
                }
            }
        }
    }
}

impl StoreView {
    /// Putting a row in its place keeps the order of creation times.
    pub proof fn lemma_placed_in_order(rows: Seq<BookmarkUserView>, row: BookmarkUserView)
        requires
            Self::in_creation_order(rows),
        ensures
            Self::in_creation_order(Self::placed(rows, row)),
    {
        Self::lemma_slot(rows, row.created_at);
    }

    /// `ordered` rearranges: every row of the result is a row of the input.
    pub proof fn lemma_ordered(rows: Seq<BookmarkUserView>)
        ensures
            Self::ordered(rows).len() == rows.len(),
            Self::in_creation_order(Self::ordered(rows)),
            forall|k: int|
                0 <= k < rows.len() ==> rows.contains(#[trigger] Self::ordered(rows)[k]),
            Self::pairs_unique(rows) ==> Self::pairs_unique(Self::ordered(rows)),
        decreases rows.len(),
    {
        if rows.len() > 0 {
            let front = rows.drop_last();
            let last = rows.last();
            Self::lemma_ordered(front);
            let sorted = Self::ordered(front);
            Self::lemma_slot(sorted, last.created_at);
            Self::lemma_placed_in_order(sorted, last);
            let p = Self::slot(sorted, last.created_at);
            let out = Self::ordered(rows);
            assert(out == sorted.insert(p, last));
            assert forall|k: int| 0 <= k < rows.len() implies rows.contains(#[trigger] out[k]) by {
                if k == p {
                    assert(rows[rows.len() - 1] == out[k]);
                } else {
                    let m = if k < p {
                        k
                    } else {
                        k - 1
                    };
                    assert(out[k] == sorted[m]);
                    assert(front.contains(sorted[m]));
                    let i = choose|i: int| 0 <= i < front.len() && front[i] == sorted[m];
                    assert(rows[i] == out[k]);
                }
            }
            if Self::pairs_unique(rows) {
                assert(Self::pairs_unique(front)) by {
                    assert forall|i: int, j: int| 0 <= i < j < front.len() implies !((
                    #[trigger] front[i]).bookmark_id == (#[trigger] front[j]).bookmark_id
                        && front[i].user_id == front[j].user_id) by {
                        assert(front[i] == rows[i]);
                        assert(front[j] == rows[j]);
                    }
                }
                assert forall|m: int| 0 <= m < sorted.len() implies !((
                #[trigger] sorted[m]).bookmark_id == last.bookmark_id && sorted[m].user_id
                    == last.user_id) by {
                    assert(front.contains(sorted[m]));
                    let i = choose|i: int| 0 <= i < front.len() && front[i] == sorted[m];
                    assert(rows[i] == sorted[m]);
                    assert(rows[rows.len() - 1] == last);
                }
                assert forall|i: int, j: int| 0 <= i < j < out.len() implies !((
                #[trigger] out[i]).bookmark_id == (#[trigger] out[j]).bookmark_id
                    && out[i].user_id == out[j].user_id) by {
                    let a = if i < p {
                        i
                    } else {
                        i - 1
                    };
                    let b = if j < p {
                        j
                    } else {
                        j - 1
                    };
                    if i != p {
                        assert(out[i] == sorted[a]);
                    }
                    if j != p {
                        assert(out[j] == sorted[b]);
                    }
                }
            }
        }
    }
}

} // verus!
