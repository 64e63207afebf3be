//! The request handlers, as functions from the caller's identity and input
//! to the answer.
//!
//! The caller's identity arrives already verified; it is trusted here.
//! A handler that writes either takes full effect or leaves the store as it
//! was.

use vstd::prelude::*;
use crate::error::{Error, ErrorView};
use crate::field_errors::grouped;
use crate::model::{BookmarkWithUser, TagOperation, TagOperationView};
use crate::store::{
    get_by_tag, get_by_user, get_tag_count_by_user, get_with_user_data, update_tags, BookmarkStore,
    BIGINT_OUT_OF_RANGE, UNEXPECTED_ROW_COUNT,
};
use crate::text::{is_tally, occurrences, strip_blanks, without_blanks, Texts};

verus! {

/// HTTP status of the answer to an accepted submission.
pub const CREATED: u16 = 201;

/// Name of the payload field that holds the page's address.
pub const URL_FIELD: &'static str = "url";

/// Message about an address that cannot be read as an absolute URL.
pub const INVALID_URL: &'static str = "is not a valid absolute URL";

/// What `url::Url::parse` makes of the text `input`: the URL in its
/// normalized written form, or nothing where the text is no absolute URL.
pub uninterp spec fn parsed_url(input: Seq<char>) -> Option<Seq<char>>;

/// Reads `input` as an absolute URL with `url::Url::parse` and gives the
/// parsed URL back as text.
///
/// Nothing is proved of this function. Its contract claims only that the
/// outcome depends on the text alone, and calls that outcome [`parsed_url`].
#[verifier::external_body]
fn parse_url(input: &str) -> (r: Option<String>)
    ensures
        match r {
            Some(url) => parsed_url(input@) == Some(url@),
            None => parsed_url(input@) is None,
        },
{
    match url::Url::parse(input) {
        Ok(url) => Some(String::from(url)),
        Err(_) => None,
    }
}

/// A tag with the number of times the caller used it.
#[derive(Debug, Clone, PartialEq, Eq)]
pub struct TagCount {
    pub tag: String,
    pub count: i64,
}

impl DeepView for TagCount {
    type V = (Seq<char>, i64);

    open spec fn deep_view(&self) -> (Seq<char>, i64) {
        (self.tag@, self.count)
    }
}

/// Answer to a request for the caller's tags.
#[derive(Debug, Clone, PartialEq, Eq)]
pub struct TagsWithCounters {
    pub tags: Vec<TagCount>,
}

/// Payload of a request that sets or appends tags.
#[derive(Debug, Clone, PartialEq, Eq)]
pub struct Tags {
    pub tags: Vec<String>,
}

/// Answer to a request for a list of bookmarks.
#[derive(Debug, Clone, PartialEq, Eq)]
pub struct Bookmarks {
    pub bookmarks: Vec<BookmarkWithUser>,
}

/// Payload of a submission: the page to save and the tags to give it.
#[derive(Debug, Clone, PartialEq, Eq)]
pub struct NewBookmark {
    pub url: String,
    pub tags: Option<Vec<String>>,
}

/// What is handed to the worker that fetches a submitted page and saves it
/// for the user.
#[derive(Debug, Clone, PartialEq, Eq)]
pub struct BookmarkTaskRequest {
    pub user_id: u128,
    pub url: String,
    pub tags: Vec<String>,
}

/// The tags of a submission: none where the payload has none.
pub open spec fn submitted_tags(tags: Option<Vec<String>>) -> Texts {
    match tags {
        Some(tags) => tags.deep_view(),
        None => Seq::empty(),
    }
}

/// Lists the caller's bookmarks, in the order in which the caller saved them.
pub fn get_bookmarks(store: &BookmarkStore, user_id: u128) -> (r: Bookmarks)
    requires
        store.wf(),
    ensures
        r.bookmarks.deep_view() == store@.rows_by_user(user_id),
{
    Bookmarks { bookmarks: get_by_user(store, user_id) }
}

/// Lists the caller's tags, each with the number of its uses.
pub fn get_all_tags(store: &BookmarkStore, user_id: u128) -> (r: Result<TagsWithCounters, Error>)
    requires
        store.wf(),
    ensures
        match r {
            Ok(answer) => is_tally(answer.tags.deep_view(), store@.tags_of_user(user_id)),
            Err(e) => {
                &&& exists|t: Seq<char>| occurrences(store@.tags_of_user(user_id), t) > i64::MAX
                &&& e@ == ErrorView::DatabaseError(BIGINT_OUT_OF_RANGE@)
            },
        },
{
    match get_tag_count_by_user(store, user_id) {
        Ok(counts) => {
            let mut tags: Vec<TagCount> = Vec::new();
            let mut i: usize = 0;
            while i < counts.len()
                invariant
                    i <= counts.len(),
                    tags.len() == i,
                    forall|k: int|
                        0 <= k < i ==> (#[trigger] tags[k]).deep_view() == counts[k].deep_view(),
                decreases counts.len() - i,
            {
                tags.push(TagCount { tag: counts[i].0.clone(), count: counts[i].1 });
                i += 1;
            }
            assert(tags.deep_view() =~= counts.deep_view());
            Ok(TagsWithCounters { tags })
        },
        Err(e) => Err(e),
    }
}

/// Lists the caller's bookmarks that carry the tag `tag`.
pub fn get_bookmarks_by_tag(store: &BookmarkStore, user_id: u128, tag: &str) -> (r: Bookmarks)
    requires
        store.wf(),
    ensures
        r.bookmarks.deep_view() == store@.rows_by_tag(user_id, tag@),
{
    Bookmarks { bookmarks: get_by_tag(store, user_id, tag) }
}

/// Returns the bookmark `id` as the caller saved it, or the not-found
/// failure when the caller has not saved such a bookmark.
pub fn get_bookmark(store: &BookmarkStore, user_id: u128, id: &str) -> (r: Result<
    BookmarkWithUser,
    Error,
>)
    requires
        store.wf(),
    ensures
        match r {
            Ok(row) => store@.with_user_data(user_id, id@) == Some(row@),
            Err(e) => store@.with_user_data(user_id, id@) is None && e@ == ErrorView::NotFound,
        },
{
    match get_with_user_data(store, user_id, id) {
        Some(bookmark) => Ok(bookmark),
        None => Err(Error::NotFound),
    }
}

/// The failure that answers a submission whose address is no URL.
pub open spec fn invalid_url() -> ErrorView {
    ErrorView::UnprocessableEntity { errors: grouped(seq![(URL_FIELD@, INVALID_URL@)]) }
}

/// Decides on a submission whose address has been parsed: `url` is the
/// parsed address, or nothing where the address was no URL.
///
/// A submission with a URL is accepted: its blank tags are dropped, and the
/// work is named for the worker that fetches the page. One without is
/// refused as unprocessable, with a message about the address.
pub fn accept_submission(user_id: u128, url: Option<String>, tags: Option<Vec<String>>) -> (r:
    Result<BookmarkTaskRequest, Error>)
    ensures
        match r {
            Ok(task) => {
                &&& url matches Some(parsed)
                &&& task.url@ == parsed@
                &&& task.user_id == user_id
                &&& task.tags.deep_view() == without_blanks(submitted_tags(tags))
            },
            Err(e) => url is None && e@ == invalid_url(),
        },
{
    match url {
        Some(url) => {
            let given = match tags {
                Some(tags) => tags,
                None => Vec::new(),
            };
            assert(given.deep_view() =~= submitted_tags(tags));
            Ok(BookmarkTaskRequest { user_id, url, tags: strip_blanks(given) })
        },
        None => {
            let mut messages: Vec<(String, String)> = Vec::new();
            messages.push((URL_FIELD.to_owned(), INVALID_URL.to_owned()));
            assert(messages.deep_view() =~= seq![(URL_FIELD@, INVALID_URL@)]);
            Err(Error::unprocessable_entity(messages))
        },
    }
}

/// Accepts or refuses a submission.
///
/// The address must be an absolute URL. If it is, the blank tags are dropped
/// and the work is named for the worker that fetches the page, with the URL
/// in its normalized form; the answer to the caller is then [`CREATED`] with
/// the worker's task handle, and the bookmark itself comes later. If it is
/// not, the submission is refused as unprocessable.
pub fn new_bookmark(user_id: u128, input: NewBookmark) -> (r: Result<BookmarkTaskRequest, Error>)
    ensures
        match r {
            Ok(task) => {
                &&& parsed_url(input.url@) == Some(task.url@)
                &&& task.user_id == user_id
                &&& task.tags.deep_view() == without_blanks(submitted_tags(input.tags))
            },
            Err(e) => parsed_url(input.url@) is None && e@ == invalid_url(),
        },
{
    let url = parse_url(input.url.as_str());
    accept_submission(user_id, url, input.tags)
}

/// Replaces the tags that the caller gave to `bookmark_id` and returns the
/// refreshed bookmark. Where the caller has not saved such a bookmark the
/// store is left untouched.
pub fn set_tags(
    store: &mut BookmarkStore,
    user_id: u128,
    bookmark_id: &str,
    tags: Tags,
    now: i64,
) -> (r: Result<BookmarkWithUser, Error>)
    requires
        old(store).wf(),
    ensures
        final(store).wf(),
        match r {
            Ok(row) => {
                &&& old(store)@.with_user_data(user_id, bookmark_id@) is Some
                &&& final(store)@ == old(store)@.update_tags(
                    user_id,
                    bookmark_id@,
                    TagOperationView::Replace(tags.tags.deep_view()),
                    now,
                )
                &&& final(store)@.with_user_data(user_id, bookmark_id@) == Some(row@)
            },
            Err(e) => {
                &&& old(store)@.with_user_data(user_id, bookmark_id@) is None
                &&& final(store)@ == old(store)@
                &&& e@ == ErrorView::DatabaseError(UNEXPECTED_ROW_COUNT@)
            },
        },
{
    let operation = TagOperation::Replace(tags.tags);
    update_tags(store, user_id, bookmark_id, &operation, now)
}

/// Adds `tags` behind the tags that the caller gave to `bookmark_id` and
/// returns the refreshed bookmark. Where the caller has not saved such a
/// bookmark the store is left untouched.
pub fn append_tags(
    store: &mut BookmarkStore,
    user_id: u128,
    bookmark_id: &str,
    tags: Tags,
    now: i64,
) -> (r: Result<BookmarkWithUser, Error>)
    requires
        old(store).wf(),
    ensures
        final(store).wf(),
        match r {
            Ok(row) => {
                &&& old(store)@.with_user_data(user_id, bookmark_id@) is Some
                &&& final(store)@ == old(store)@.update_tags(
                    user_id,
                    bookmark_id@,
                    TagOperationView::Append(tags.tags.deep_view()),
                    now,
                )
                &&& final(store)@.with_user_data(user_id, bookmark_id@) == Some(row@)
            },
            Err(e) => {
                &&& old(store)@.with_user_data(user_id, bookmark_id@) is None
                &&& final(store)@ == old(store)@
                &&& e@ == ErrorView::DatabaseError(UNEXPECTED_ROW_COUNT@)
            },
        },
{
    let operation = TagOperation::Append(tags.tags);
    update_tags(store, user_id, bookmark_id, &operation, now)
}

} // verus!
