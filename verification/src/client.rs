//! What a client of the HTTP interface sends and reads.

use vstd::prelude::*;
use vstd::string::StringExecFns;
use crate::endpoints::TagsWithCounters;

verus! {

/// Path of the sign-in endpoint.
pub const SIGN_IN_ENDPOINT: &'static str = "/api/v1/auth/sign-in";

/// Path of the endpoint that describes the signed-in user.
pub const USER_PROFILE_ENDPOINT: &'static str = "/api/v1/auth/user-profile";

/// Path of the endpoint that lists the caller's tags.
pub const TAGS_ENDPOINT: &'static str = "/api/v1/tags";

/// Answer to a successful sign-in.
#[derive(Debug, Clone, PartialEq, Eq)]
pub struct LoginResponse {
    pub user_id: u128,
    pub email: String,
    pub access_token: String,
    pub token_type: String,
}

/// Answer to a request for the signed-in user's profile.
#[derive(Debug, Clone, PartialEq, Eq)]
pub struct UserProfileResponse {
    pub user_id: u128,
    pub email: String,
}

/// A tag and the number of its uses, as the client reads them.
#[derive(Debug, Clone, PartialEq, Eq)]
pub struct Tag {
    pub tag: String,
    pub count: u32,
}

impl DeepView for Tag {
    type V = (Seq<char>, u32);

    open spec fn deep_view(&self) -> (Seq<char>, u32) {
        (self.tag@, self.count)
    }
}

/// The caller's tags, as the client reads them.
#[derive(Debug, Clone, PartialEq, Eq)]
pub struct TagsResponse {
    pub tags: Vec<Tag>,
}

/// How a request is made.
#[derive(Debug, Clone, Copy, PartialEq, Eq)]
pub enum Method {
    Get,
    Post,
}

/// A request to the HTTP interface, ready to be sent.
#[derive(Debug, Clone, PartialEq, Eq)]
pub struct Request {
    pub method: Method,
    pub url: String,
    /// Header names with their values, in the order in which they are set.
    pub headers: Vec<(String, String)>,
    pub body: Option<String>,
}

/// Name of the header that says what the body holds.
pub const CONTENT_TYPE: &'static str = "Content-Type";

/// Content type of a JSON body.
pub const APPLICATION_JSON: &'static str = "application/json";

/// Name of the header that presents the caller's token.
pub const AUTHORIZATION: &'static str = "Authorization";

/// What `serde_json::to_string` writes for the JSON object whose members are
/// `fields`, each a name with a text as its value; nothing where it fails.
pub uninterp spec fn json_object(fields: Seq<(Seq<char>, Seq<char>)>) -> Option<Seq<char>>;

/// Writes `fields` as a JSON object of strings with `serde_json::to_string`.
///
/// Nothing is proved of this function. Its contract claims only that the
/// outcome depends on the fields alone, and calls that outcome
/// [`json_object`].
#[verifier::external_body]
fn to_json_object(fields: &Vec<(String, String)>) -> (r: Option<String>)
    ensures
        match r {
            Some(text) => json_object(fields.deep_view()) == Some(text@),
            None => json_object(fields.deep_view()) is None,
        },
{
    let object: serde_json::Map<String, serde_json::Value> = fields
        .iter()
        .map(|(name, value)| (name.clone(), serde_json::Value::String(value.clone())))
        .collect();
    serde_json::to_string(&serde_json::Value::Object(object)).ok()
}

/// The members of the body of a sign-in request.
pub open spec fn credentials(email: Seq<char>, password: Seq<char>) -> Seq<(Seq<char>, Seq<char>)> {
    seq![("email"@, email), ("password"@, password)]
}

/// The request that signs a user in: a POST to [`SIGN_IN_ENDPOINT`] with the
/// credentials as a JSON object. There is none where the object cannot be
/// written.
pub fn login_request(email: &str, password: &str) -> (r: Option<Request>)
    ensures
        match r {
            Some(request) => {
                &&& request.method == Method::Post
                &&& request.url@ == SIGN_IN_ENDPOINT@
                &&& request.headers.deep_view() == seq![(CONTENT_TYPE@, APPLICATION_JSON@)]
                &&& request.body matches Some(body)
                &&& json_object(credentials(email@, password@)) == Some(body@)
            },
            None => json_object(credentials(email@, password@)) is None,
        },
{
    let mut fields: Vec<(String, String)> = Vec::new();
    fields.push(("email".to_owned(), email.to_owned()));
    fields.push(("password".to_owned(), password.to_owned()));
    assert(fields.deep_view() =~= credentials(email@, password@));
    match to_json_object(&fields) {
        Some(body) => {
            let mut headers: Vec<(String, String)> = Vec::new();
            headers.push((CONTENT_TYPE.to_owned(), APPLICATION_JSON.to_owned()));
            assert(headers.deep_view() =~= seq![(CONTENT_TYPE@, APPLICATION_JSON@)]);
            Some(
                Request {
                    method: Method::Post,
                    url: SIGN_IN_ENDPOINT.to_owned(),
                    headers,
                    body: Some(body),
                },
            )
        },
        None => None,
    }
}

/// A GET of `url` that presents `token`.
fn authorized_get(url: String, token: &str) -> (r: Request)
    ensures
        r.method == Method::Get,
        r.url@ == url@,
        r.headers.deep_view() == seq![(AUTHORIZATION@, "Bearer "@ + token@)],
        r.body is None,
{
    let mut headers: Vec<(String, String)> = Vec::new();
    headers.push((AUTHORIZATION.to_owned(), bearer(token)));
    assert(headers.deep_view() =~= seq![(AUTHORIZATION@, "Bearer "@ + token@)]);
    Request { method: Method::Get, url, headers, body: None }
}

/// The request for the profile of the user that `token` belongs to.
pub fn user_profile_request(token: &str) -> (r: Request)
    ensures
        r.method == Method::Get,
        r.url@ == USER_PROFILE_ENDPOINT@,
        r.headers.deep_view() == seq![(AUTHORIZATION@, "Bearer "@ + token@)],
        r.body is None,
{
    authorized_get(USER_PROFILE_ENDPOINT.to_owned(), token)
}

/// The request for the tags of the user that `token` belongs to, on the
/// server at `base`.
pub fn tags_request(base: &str, token: &str) -> (r: Request)
    ensures
        r.method == Method::Get,
        r.url@ == base@ + TAGS_ENDPOINT@,
        r.headers.deep_view() == seq![(AUTHORIZATION@, "Bearer "@ + token@)],
        r.body is None,
{
    authorized_get(tags_url(base), token)
}

/// Value of the `Authorization` header that presents `token`.
pub fn bearer(token: &str) -> (r: String)
    ensures
        r@ == "Bearer "@ + token@,
{
    let mut value = "Bearer ".to_owned();
    value.append(token);
    value
}

/// Address of the tag listing on the server at `base`.
pub fn tags_url(base: &str) -> (r: String)
    ensures
        r@ == base@ + TAGS_ENDPOINT@,
{
    let mut url = base.to_owned();
    url.append(TAGS_ENDPOINT);
    url
}

/// Every count of `served` fits the client's counter.
pub open spec fn counts_fit(served: Seq<(Seq<char>, i64)>) -> bool {
    forall|i: int| 0 <= i < served.len() ==> 0 <= (#[trigger] served[i]).1 <= u32::MAX
}

impl TagsResponse {
    /// Reads the tag listing that the server answered with.
    ///
    /// The client counts in 32 bits without sign: a listing with a count
    /// outside that range cannot be read, and there is no result.
    pub fn from_served(served: &TagsWithCounters) -> (r: Option<TagsResponse>)
        ensures
            match r {
                Some(read) => {
                    &&& counts_fit(served.tags.deep_view())
                    &&& read.tags.len() == served.tags.len()
                    &&& forall|i: int|
                        0 <= i < read.tags.len() ==> (#[trigger] read.tags[i]).tag@
                            == served.tags[i].tag@ && read.tags[i].count == served.tags[i].count
                },
                None => !counts_fit(served.tags.deep_view()),
            },
    {
        let mut tags: Vec<Tag> = Vec::new();
        let mut i: usize = 0;
        while i < served.tags.len()
            invariant
                i <= served.tags.len(),
                tags.len() == i,
                forall|k: int|
                    0 <= k < i ==> (#[trigger] tags[k]).tag@ == served.tags[k].tag@ && tags[k].count
                        == served.tags[k].count,
            decreases served.tags.len() - i,
        {
            let count = served.tags[i].count;
            if count < 0 || count > 0xFFFF_FFFF {
                assert(served.tags.deep_view()[i as int].1 == count);
                return None;
            }
            tags.push(Tag { tag: served.tags[i].tag.clone(), count: count as u32 });
            i += 1;
        }
        assert forall|k: int| 0 <= k < served.tags.deep_view().len() implies 0 <= (
        #[trigger] served.tags.deep_view()[k]).1 <= u32::MAX by {
            assert(tags[k].count == served.tags[k].count);
        }
        Some(TagsResponse { tags })
    }
}

} // verus!
