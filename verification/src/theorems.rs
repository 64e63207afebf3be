//! What holds of the store's operations taken together.

use vstd::prelude::*;
use crate::error::{ErrorView, ResponseBodyView, INTERNAL_SERVER_ERROR};
use crate::model::{BookmarkUserView, BookmarkView, TagOperationView};
use crate::sequences::{
    filter_map_alike, filter_map_keeps, filter_map_skips, filter_map_sources, flat_map_alike,
    flat_map_skips,
};
use crate::store_view::StoreView;
use crate::text::Texts;

verus! {

/// Saving a bookmark for a user keeps the constraints of the schema.
pub proof fn upsert_keeps_schema(
    s: StoreView,
    bookmark_id: Seq<char>,
    user: u128,
    tags: Texts,
    fresh_id: u128,
    now: i64,
)
    requires
        s.wf(),
    ensures
        s.upsert(bookmark_id, user, tags, fresh_id, now).wf(),
{
    StoreView::lemma_slot(s.associations, now);
}

/// Changing the tags of an association keeps the constraints of the schema.
pub proof fn update_tags_keeps_schema(
    s: StoreView,
    user: u128,
    bookmark_id: Seq<char>,
    operation: TagOperationView,
    now: i64,
)
    requires
        s.wf(),
    ensures
        s.update_tags(user, bookmark_id, operation, now).wf(),
        s.update_tags(user, bookmark_id, operation, now).bookmarks == s.bookmarks,
        s.update_tags(user, bookmark_id, operation, now).associations.len()
            == s.associations.len(),
{
}

/// After a save for a user, the user's association with the bookmark holds
/// exactly the tags of that save and is stamped with its time.
pub proof fn upsert_sets_the_tags(
    s: StoreView,
    bookmark_id: Seq<char>,
    user: u128,
    tags: Texts,
    fresh_id: u128,
    now: i64,
)
    requires
        s.wf(),
    ensures
        ({
            let after = s.upsert(bookmark_id, user, tags, fresh_id, now);
            &&& after.association(bookmark_id, user) is Some
            &&& after.association(bookmark_id, user)->0.tags == tags
            &&& after.association(bookmark_id, user)->0.updated_at == now
            &&& after.association(bookmark_id, user)->0.created_at == match s.association(
                bookmark_id,
                user,
            ) {
                Some(a) => a.created_at,
                None => now,
            }
        }),
{
    let after = s.upsert(bookmark_id, user, tags, fresh_id, now);
    upsert_keeps_schema(s, bookmark_id, user, tags, fresh_id, now);
    StoreView::lemma_slot(s.associations, now);
    let at = match s.association_index(bookmark_id, user) {
        Some(i) => i,
        None => StoreView::slot(s.associations, now),
    };
    assert(after.associations[at].bookmark_id == bookmark_id && after.associations[at].user_id
        == user);
    after.lemma_association_row(at);
}

/// Saving the same bookmark for the same user twice leaves exactly one
/// association for the pair: the second save adds no row, and the tags of
/// the second save replace those of the first.
pub proof fn upsert_twice_leaves_one_row(
    s: StoreView,
    bookmark_id: Seq<char>,
    user: u128,
    first_tags: Texts,
    first_id: u128,
    first_time: i64,
    second_tags: Texts,
    second_id: u128,
    second_time: i64,
)
    requires
        s.wf(),
    ensures
        ({
            let once = s.upsert(bookmark_id, user, first_tags, first_id, first_time);
            let twice = once.upsert(bookmark_id, user, second_tags, second_id, second_time);
            &&& twice.wf()
            &&& twice.bookmarks == s.bookmarks
            &&& twice.associations.len() == once.associations.len()
            &&& twice.association_index(bookmark_id, user) is Some
            &&& forall|i: int|
                0 <= i < twice.associations.len() && (#[trigger] twice.associations[i]).bookmark_id
                    == bookmark_id && twice.associations[i].user_id == user ==> Some(i)
                    == twice.association_index(bookmark_id, user)
            &&& twice.association(bookmark_id, user)->0.tags == second_tags
        }),
{
    let once = s.upsert(bookmark_id, user, first_tags, first_id, first_time);
    upsert_keeps_schema(s, bookmark_id, user, first_tags, first_id, first_time);
    StoreView::lemma_slot(s.associations, first_time);
    let at = match s.association_index(bookmark_id, user) {
        Some(i) => i,
        None => StoreView::slot(s.associations, first_time),
    };
    assert(once.associations[at].bookmark_id == bookmark_id && once.associations[at].user_id
        == user);
    once.lemma_association_row(at);
    let twice = once.upsert(bookmark_id, user, second_tags, second_id, second_time);
    upsert_keeps_schema(once, bookmark_id, user, second_tags, second_id, second_time);
    assert(twice.associations[at].bookmark_id == bookmark_id && twice.associations[at].user_id
        == user);
    twice.lemma_association_row(at);
    assert forall|i: int|
        0 <= i < twice.associations.len() && (#[trigger] twice.associations[i]).bookmark_id
            == bookmark_id && twice.associations[i].user_id == user implies Some(i)
        == twice.association_index(bookmark_id, user) by {
        twice.lemma_association_row(i);
    }
}

/// A bookmark whose identifier and URL are free can be added to the table,
/// and is then found under its URL and under its identifier.
pub proof fn saved_bookmark_is_found(s: StoreView, b: BookmarkView)
    requires
        s.wf(),
        s.bookmark_by_id(b.bookmark_id) is None,
        s.bookmark_by_url(b.url) is None,
    ensures
        ({
            let after = StoreView { bookmarks: s.bookmarks.push(b), associations: s.associations };
            &&& after.wf()
            &&& after.bookmark_by_url(b.url) == Some(b)
            &&& after.bookmark_by_id(b.bookmark_id) == Some(b)
        }),
{
    let after = StoreView { bookmarks: s.bookmarks.push(b), associations: s.associations };
    assert forall|i: int, j: int| 0 <= i < j < after.bookmarks.len() implies (
    #[trigger] after.bookmarks[i]).bookmark_id != (#[trigger] after.bookmarks[j]).bookmark_id
        && after.bookmarks[i].url != after.bookmarks[j].url by {
        assert(after.bookmarks[i] == s.bookmarks[i]);
        if j < s.bookmarks.len() {
            assert(after.bookmarks[j] == s.bookmarks[j]);
        }
    }
    assert(after.bookmarks[s.bookmarks.len() as int] == b);
    after.lemma_bookmark_row(s.bookmarks.len() as int);
}

/// Appending tags is concatenation: the new list is the old list followed
/// by the appended tags, duplicates included.
pub proof fn append_concatenates(
    s: StoreView,
    user: u128,
    bookmark_id: Seq<char>,
    tags: Texts,
    now: i64,
)
    requires
        s.wf(),
        s.with_user_data(user, bookmark_id) is Some,
    ensures
        ({
            let after = s.update_tags(user, bookmark_id, TagOperationView::Append(tags), now);
            &&& after.wf()
            &&& after.association(bookmark_id, user) is Some
            &&& after.association(bookmark_id, user)->0.tags == s.association(
                bookmark_id,
                user,
            )->0.tags + tags
            &&& after.with_user_data(user, bookmark_id)->0.tags == Some(
                s.association(bookmark_id, user)->0.tags + tags,
            )
        }),
{
    let operation = TagOperationView::Append(tags);
    update_tags_keeps_schema(s, user, bookmark_id, operation, now);
    let i = s.association_index(bookmark_id, user)->0;
    let after = s.update_tags(user, bookmark_id, operation, now);
    assert(0 <= i < s.associations.len() && s.associations[i].bookmark_id == bookmark_id);
    assert(after.associations[i].bookmark_id == bookmark_id);
    after.lemma_association_row(i);
}

/// Setting tags replaces the list: nothing of the old list remains.
pub proof fn replace_substitutes(
    s: StoreView,
    user: u128,
    bookmark_id: Seq<char>,
    tags: Texts,
    now: i64,
)
    requires
        s.wf(),
        s.with_user_data(user, bookmark_id) is Some,
    ensures
        ({
            let after = s.update_tags(user, bookmark_id, TagOperationView::Replace(tags), now);
            &&& after.wf()
            &&& after.association(bookmark_id, user) is Some
            &&& after.association(bookmark_id, user)->0.tags == tags
            &&& after.with_user_data(user, bookmark_id)->0.tags == Some(tags)
        }),
{
    let operation = TagOperationView::Replace(tags);
    update_tags_keeps_schema(s, user, bookmark_id, operation, now);
    let i = s.association_index(bookmark_id, user)->0;
    let after = s.update_tags(user, bookmark_id, operation, now);
    assert(0 <= i < s.associations.len() && s.associations[i].bookmark_id == bookmark_id);
    assert(after.associations[i].bookmark_id == bookmark_id);
    after.lemma_association_row(i);
}

/// A user who has no association with a bookmark gets no joined row for it.
pub proof fn no_association_no_row(s: StoreView, user: u128, bookmark_id: Seq<char>)
    requires
        forall|i: int|
            0 <= i < s.associations.len() ==> !((#[trigger] s.associations[i]).bookmark_id
                == bookmark_id && s.associations[i].user_id == user),
    ensures
        s.with_user_data(user, bookmark_id) is None,
{
}

/// Every row listed for a tag belongs to the user and carries exactly that
/// tag in its tag list.
pub proof fn rows_by_tag_carry_the_tag(s: StoreView, user: u128, tag: Seq<char>)
    ensures
        forall|k: int|
            0 <= k < s.rows_by_tag(user, tag).len() ==> {
                let row = #[trigger] s.rows_by_tag(user, tag)[k];
                &&& row.user_id == Some(user)
                &&& row.tags is Some
                &&& row.tags->0.contains(tag)
            },
{
    let f = s.row_of_tag(user, tag);
    let src = filter_map_sources(s.associations, f);
    assert forall|k: int| 0 <= k < s.rows_by_tag(user, tag).len() implies {
        let row = #[trigger] s.rows_by_tag(user, tag)[k];
        &&& row.user_id == Some(user)
        &&& row.tags is Some
        &&& row.tags->0.contains(tag)
    } by {
        let a = s.associations[src[k]];
        assert(f(a) == Some(s.rows_by_tag(user, tag)[k]));
    }
}

/// Every bookmark that the user saved with the tag is listed for the tag.
pub proof fn tagged_rows_are_listed(s: StoreView, user: u128, tag: Seq<char>, i: int)
    requires
        0 <= i < s.associations.len(),
        s.associations[i].user_id == user,
        s.associations[i].tags.contains(tag),
        s.bookmark_by_id(s.associations[i].bookmark_id) is Some,
    ensures
        s.rows_by_tag(user, tag).contains(s.row(s.associations[i])->0),
{
    filter_map_keeps(s.associations, s.row_of_tag(user, tag), i);
}

/// The rows listed for a user come in the order in which the user saved
/// them: creation times of the associations never decrease along the list.
pub proof fn rows_by_user_in_saving_order(s: StoreView, user: u128)
    requires
        s.wf(),
    ensures
        forall|k: int, m: int|
            0 <= k < m < s.rows_by_user(user).len() ==> {
                &&& (#[trigger] s.rows_by_user(user)[k]).user_created_at is Some
                &&& (#[trigger] s.rows_by_user(user)[m]).user_created_at is Some
                &&& s.rows_by_user(user)[k].user_created_at->0 <= s.rows_by_user(
                    user,
                )[m].user_created_at->0
            },
{
    let f = s.row_of_user(user);
    let rows = s.rows_by_user(user);
    let src = filter_map_sources(s.associations, f);
    assert forall|k: int, m: int| 0 <= k < m < rows.len() implies {
        &&& (#[trigger] rows[k]).user_created_at is Some
        &&& (#[trigger] rows[m]).user_created_at is Some
        &&& rows[k].user_created_at->0 <= rows[m].user_created_at->0
    } by {
        let a = s.associations[src[k]];
        let b = s.associations[src[m]];
        assert(f(a) == Some(rows[k]));
        assert(f(b) == Some(rows[m]));
        assert(src[k] < src[m]);
    }
}

/// What one user saves leaves every other user's bookmarks and tags as they
/// were.
pub proof fn upsert_leaves_others_alone(
    s: StoreView,
    bookmark_id: Seq<char>,
    user: u128,
    tags: Texts,
    fresh_id: u128,
    now: i64,
    other: u128,
)
    requires
        s.wf(),
        other != user,
    ensures
        ({
            let after = s.upsert(bookmark_id, user, tags, fresh_id, now);
            &&& after.rows_by_user(other) == s.rows_by_user(other)
            &&& after.tags_of_user(other) == s.tags_of_user(other)
            &&& forall|b: Seq<char>| after.with_user_data(other, b) == s.with_user_data(other, b)
        }),
{
    let after = s.upsert(bookmark_id, user, tags, fresh_id, now);
    upsert_keeps_schema(s, bookmark_id, user, tags, fresh_id, now);
    StoreView::lemma_slot(s.associations, now);
    let f = s.row_of_user(other);
    let g = after.row_of_user(other);
    let tf = StoreView::tags_of(other);
    assert forall|a: BookmarkUserView| #[trigger] s.row(a) == after.row(a) by {}
    match s.association_index(bookmark_id, user) {
        Some(i) => {
            filter_map_alike(after.associations, g, s.associations, f);
            flat_map_alike(after.associations, tf, s.associations, tf);
            same_rows_of(s, after, other);
        },
        None => {
            let p = StoreView::slot(s.associations, now);
            let x = after.associations[p];
            filter_map_skips(s.associations, g, p, x);
            filter_map_alike(s.associations, g, s.associations, f);
            flat_map_skips(s.associations, tf, p, x);
            assert forall|i: int|
                0 <= i < s.associations.len() && (#[trigger] s.associations[i]).user_id
                    == other implies after.associations.contains(s.associations[i]) by {
                let j = if i < p {
                    i
                } else {
                    i + 1
                };
                assert(after.associations[j] == s.associations[i]);
            }
            assert forall|j: int|
                0 <= j < after.associations.len() && (#[trigger] after.associations[j]).user_id
                    == other implies s.associations.contains(after.associations[j]) by {
                let i = if j < p {
                    j
                } else {
                    j - 1
                };
                assert(s.associations[i] == after.associations[j]);
            }
        },
    }
    assert forall|b: Seq<char>| after.with_user_data(other, b) == s.with_user_data(other, b) by {
        others_rows_stay(s, after, other, b);
    }
}

/// A change of one user's tags leaves every other user's bookmarks and tags
/// as they were.
pub proof fn update_tags_leaves_others_alone(
    s: StoreView,
    user: u128,
    bookmark_id: Seq<char>,
    operation: TagOperationView,
    now: i64,
    other: u128,
)
    requires
        s.wf(),
        other != user,
    ensures
        ({
            let after = s.update_tags(user, bookmark_id, operation, now);
            &&& after.rows_by_user(other) == s.rows_by_user(other)
            &&& after.tags_of_user(other) == s.tags_of_user(other)
            &&& forall|b: Seq<char>| after.with_user_data(other, b) == s.with_user_data(other, b)
        }),
{
    let after = s.update_tags(user, bookmark_id, operation, now);
    update_tags_keeps_schema(s, user, bookmark_id, operation, now);
    let f = s.row_of_user(other);
    let g = after.row_of_user(other);
    let tf = StoreView::tags_of(other);
    assert forall|a: BookmarkUserView| #[trigger] s.row(a) == after.row(a) by {}
    filter_map_alike(after.associations, g, s.associations, f);
    flat_map_alike(after.associations, tf, s.associations, tf);
    same_rows_of(s, after, other);
    assert forall|b: Seq<char>| after.with_user_data(other, b) == s.with_user_data(other, b) by {
        others_rows_stay(s, after, other, b);
    }
}

/// Where two tables agree row by row on the associations of `other`, each
/// holds every association of `other` that the other one holds.
proof fn same_rows_of(s: StoreView, after: StoreView, other: u128)
    requires
        s.associations.len() == after.associations.len(),
        forall|i: int|
            0 <= i < s.associations.len() && ((#[trigger] s.associations[i]).user_id == other
                || after.associations[i].user_id == other) ==> after.associations[i]
                == s.associations[i],
    ensures
        forall|i: int|
            0 <= i < s.associations.len() && (#[trigger] s.associations[i]).user_id == other
                ==> after.associations.contains(s.associations[i]),
        forall|i: int|
            0 <= i < after.associations.len() && (#[trigger] after.associations[i]).user_id
                == other ==> s.associations.contains(after.associations[i]),
{
    assert forall|i: int|
        0 <= i < s.associations.len() && (#[trigger] s.associations[i]).user_id
            == other implies after.associations.contains(s.associations[i]) by {
        assert(after.associations[i] == s.associations[i]);
    }
    assert forall|i: int|
        0 <= i < after.associations.len() && (#[trigger] after.associations[i]).user_id
            == other implies s.associations.contains(after.associations[i]) by {
        assert(s.associations[i] == after.associations[i]);
    }
}

/// Where two stores hold the same bookmarks and the same associations of
/// `other`, they hold the same joined row of `other` for any bookmark.
proof fn others_rows_stay(s: StoreView, after: StoreView, other: u128, b: Seq<char>)
    requires
        s.wf(),
        after.wf(),
        after.bookmarks == s.bookmarks,
        forall|i: int|
            0 <= i < s.associations.len() && (#[trigger] s.associations[i]).user_id == other
                ==> after.associations.contains(s.associations[i]),
        forall|i: int|
            0 <= i < after.associations.len() && (#[trigger] after.associations[i]).user_id
                == other ==> s.associations.contains(after.associations[i]),
    ensures
        after.with_user_data(other, b) == s.with_user_data(other, b),
{
    match s.association_index(b, other) {
        Some(i) => {
            assert(0 <= i < s.associations.len() && s.associations[i].bookmark_id == b
                && s.associations[i].user_id == other);
            let j = choose|j: int|
                0 <= j < after.associations.len() && after.associations[j] == s.associations[i];
            after.lemma_association_row(j);
        },
        None => {
            if after.association_index(b, other) is Some {
                let j = after.association_index(b, other)->0;
                assert(0 <= j < after.associations.len() && after.associations[j].bookmark_id == b
                    && after.associations[j].user_id == other);
                let i = choose|i: int|
                    0 <= i < s.associations.len() && s.associations[i] == after.associations[j];
                s.lemma_association_row(i);
            }
        },
    }
}

/// The answer to a fault of a collaborator is the same whatever the
/// collaborator reported: status 500 and the category word. The report
/// itself appears in the log line only.
pub proof fn internal_details_stay_inside(e: ErrorView)
    requires
        e is DatabaseError || e is DatabasePool || e is Anyhow || e is Jwt || e is Argon2,
    ensures
        e.response().status == INTERNAL_SERVER_ERROR,
        e.response().www_authenticate is None,
        e.response().body == ResponseBodyView::Text(e.message()),
        e.response().log is Some,
        e is DatabaseError ==> e.message() == "database_error"@,
        e is DatabasePool ==> e.message() == "database_error"@,
        e is Anyhow ==> e.message() == "internal_server_error"@,
        e is Jwt ==> e.message() == "internal_error"@,
        e is Argon2 ==> e.message() == "internal_error"@,
{
}

} // verus!
