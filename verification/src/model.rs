//! The records of the bookmark schema and their mathematical views.
//!
//! A bookmark is shared by everybody who saved its URL; what one user
//! attached to it (tags, timestamps) lives in a separate association.
//! User identifiers are 128-bit values and timestamps are microseconds
//! since the Unix epoch.

use vstd::prelude::*;
use crate::text::{clone_texts, lemma_texts_agree, Texts};

verus! {

/// The page saved under one URL, shared by all users.
#[derive(Debug, Clone, PartialEq, Eq)]
pub struct Bookmark {
    pub bookmark_id: String,
    pub url: String,
    pub domain: String,
    pub title: String,
    pub text_content: String,
    pub created_at: i64,
}

/// Mathematical value of a [`Bookmark`].
pub struct BookmarkView {
    pub bookmark_id: Seq<char>,
    pub url: Seq<char>,
    pub domain: Seq<char>,
    pub title: Seq<char>,
    pub text_content: Seq<char>,
    pub created_at: i64,
}

impl View for Bookmark {
    type V = BookmarkView;

    open spec fn view(&self) -> BookmarkView {
        BookmarkView {
            bookmark_id: self.bookmark_id@,
            url: self.url@,
            domain: self.domain@,
            title: self.title@,
            text_content: self.text_content@,
            created_at: self.created_at,
        }
    }
}

impl DeepView for Bookmark {
    type V = BookmarkView;

    open spec fn deep_view(&self) -> BookmarkView {
        self@
    }
}

/// What one user attached to one bookmark.
#[derive(Debug, Clone, PartialEq, Eq)]
pub struct BookmarkUser {
    pub bookmark_user_id: u128,
    pub bookmark_id: String,
    pub user_id: u128,
    pub tags: Vec<String>,
    pub created_at: i64,
    pub updated_at: i64,
}

/// Mathematical value of a [`BookmarkUser`].
pub struct BookmarkUserView {
    pub bookmark_user_id: u128,
    pub bookmark_id: Seq<char>,
    pub user_id: u128,
    pub tags: Texts,
    pub created_at: i64,
    pub updated_at: i64,
}

impl View for BookmarkUser {
    type V = BookmarkUserView;

    open spec fn view(&self) -> BookmarkUserView {
        BookmarkUserView {
            bookmark_user_id: self.bookmark_user_id,
            bookmark_id: self.bookmark_id@,
            user_id: self.user_id,
            tags: self.tags.deep_view(),
            created_at: self.created_at,
            updated_at: self.updated_at,
        }
    }
}

/// A bookmark together with what one user attached to it.
///
/// The user's part is optional as a whole: the four last fields are
/// present together or absent together in every value the store hands out.
#[derive(Debug, Clone, PartialEq, Eq)]
pub struct BookmarkWithUser {
    pub bookmark_id: String,
    pub url: String,
    pub domain: String,
    pub title: String,
    pub created_at: i64,
    pub user_id: Option<u128>,
    pub tags: Option<Vec<String>>,
    pub user_created_at: Option<i64>,
    pub user_updated_at: Option<i64>,
}

/// Mathematical value of a [`BookmarkWithUser`].
pub struct BookmarkWithUserView {
    pub bookmark_id: Seq<char>,
    pub url: Seq<char>,
    pub domain: Seq<char>,
    pub title: Seq<char>,
    pub created_at: i64,
    pub user_id: Option<u128>,
    pub tags: Option<Texts>,
    pub user_created_at: Option<i64>,
    pub user_updated_at: Option<i64>,
}

impl View for BookmarkWithUser {
    type V = BookmarkWithUserView;

    open spec fn view(&self) -> BookmarkWithUserView {
        BookmarkWithUserView {
            bookmark_id: self.bookmark_id@,
            url: self.url@,
            domain: self.domain@,
            title: self.title@,
            created_at: self.created_at,
            user_id: self.user_id,
            tags: match self.tags {
                Some(t) => Some(t.deep_view()),
                None => None,
            },
            user_created_at: self.user_created_at,
            user_updated_at: self.user_updated_at,
        }
    }
}

impl DeepView for BookmarkWithUser {
    type V = BookmarkWithUserView;

    open spec fn deep_view(&self) -> BookmarkWithUserView {
        self@
    }
}

impl DeepView for BookmarkUser {
    type V = BookmarkUserView;

    open spec fn deep_view(&self) -> BookmarkUserView {
        self@
    }
}

/// The row that joins bookmark `b` with association `a`.
pub open spec fn joined(b: BookmarkView, a: BookmarkUserView) -> BookmarkWithUserView {
    BookmarkWithUserView {
        bookmark_id: b.bookmark_id,
        url: b.url,
        domain: b.domain,
        title: b.title,
        created_at: b.created_at,
        user_id: Some(a.user_id),
        tags: Some(a.tags),
        user_created_at: Some(a.created_at),
        user_updated_at: Some(a.updated_at),
    }
}

/// A change to the tag list of one association.
#[derive(Debug, Clone, PartialEq, Eq)]
pub enum TagOperation {
    /// Replace the list.
    Replace(Vec<String>),
    /// Add to the end of the list; nothing is de-duplicated.
    Append(Vec<String>),
}

/// Mathematical value of a [`TagOperation`].
pub enum TagOperationView {
    Replace(Texts),
    Append(Texts),
}

impl TagOperationView {
    /// The tag list that results from applying the operation to `existing`.
    pub open spec fn apply(self, existing: Texts) -> Texts {
        match self {
            TagOperationView::Replace(tags) => tags,
            TagOperationView::Append(tags) => existing + tags,
        }
    }
}

impl View for TagOperation {
    type V = TagOperationView;

    open spec fn view(&self) -> TagOperationView {
        match self {
            TagOperation::Replace(tags) => TagOperationView::Replace(tags.deep_view()),
            TagOperation::Append(tags) => TagOperationView::Append(tags.deep_view()),
        }
    }
}

/// Copies a bookmark.
pub fn clone_bookmark(bookmark: &Bookmark) -> (r: Bookmark)
    ensures
        r@ == bookmark@,
{
    Bookmark {
        bookmark_id: bookmark.bookmark_id.clone(),
        url: bookmark.url.clone(),
        domain: bookmark.domain.clone(),
        title: bookmark.title.clone(),
        text_content: bookmark.text_content.clone(),
        created_at: bookmark.created_at,
    }
}

/// Copies an association.
pub fn clone_association(association: &BookmarkUser) -> (r: BookmarkUser)
    ensures
        r@ == association@,
{
    BookmarkUser {
        bookmark_user_id: association.bookmark_user_id,
        bookmark_id: association.bookmark_id.clone(),
        user_id: association.user_id,
        tags: clone_texts(association.tags.as_slice()),
        created_at: association.created_at,
        updated_at: association.updated_at,
    }
}

/// Joins a bookmark with what a user attached to it.
pub fn join_row(bookmark: &Bookmark, association: &BookmarkUser) -> (r: BookmarkWithUser)
    ensures
        r@ == joined(bookmark@, association@),
{
    BookmarkWithUser {
        bookmark_id: bookmark.bookmark_id.clone(),
        url: bookmark.url.clone(),
        domain: bookmark.domain.clone(),
        title: bookmark.title.clone(),
        created_at: bookmark.created_at,
        user_id: Some(association.user_id),
        tags: Some(clone_texts(association.tags.as_slice())),
        user_created_at: Some(association.created_at),
        user_updated_at: Some(association.updated_at),
    }
}

impl TagOperation {
    /// Applies the operation to the tag list `existing` and returns the new
    /// list: `Replace` substitutes, `Append` concatenates and keeps duplicates.
    pub fn apply(&self, existing: &Vec<String>) -> (r: Vec<String>)
        ensures
            r.deep_view() == self@.apply(existing.deep_view()),
    {
        match self {
            TagOperation::Replace(tags) => clone_texts(tags.as_slice()),
            TagOperation::Append(tags) => {
                let mut out = clone_texts(existing.as_slice());
                proof {
                    lemma_texts_agree(&out, existing);
                }
                let mut i: usize = 0;
                while i < tags.len()
                    invariant
                        i <= tags.len(),
                        out.len() == existing.len() + i,
                        forall|k: int| 0 <= k < existing.len() ==> out[k]@ == existing[k]@,
                        forall|k: int| 0 <= k < i ==> out[existing.len() + k]@ == tags[k]@,
                    decreases tags.len() - i,
                {
                    out.push(tags[i].clone());
                    i += 1;
                }
                assert(out.deep_view() =~= existing.deep_view() + tags.deep_view());
                out
            },
        }
    }
}

} // verus!
