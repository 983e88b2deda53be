//! The requests that the delivery API is asked with. Nothing is sent here:
//! a request says where to go and how to authorize, and the caller performs it.

use vstd::prelude::*;
use vstd::string::StringExecFns;

verus! {

/// A `GET` request against the delivery API.
#[derive(Clone, Debug, PartialEq, Eq)]
pub struct Request {
    pub url: String,
    /// The value of the `Authorization` header.
    pub authorization: String,
}

/// The address of the list of spaces.
pub open spec fn spaces_url() -> Seq<char> {
    "https://cdn.contentful.com/spaces"@
}

/// The address of a collection of one environment of one space.
pub open spec fn collection_url(space_id: Seq<char>, env: Seq<char>, collection: Seq<char>) -> Seq<
    char,
> {
    "https://cdn.contentful.com/spaces/"@ + space_id + "/environments/"@ + env + "/"@ + collection
}

/// The authorization header that carries a token.
pub open spec fn bearer(token: Seq<char>) -> Seq<char> {
    "Bearer "@ + token
}

/// A client of the delivery API: it holds the token and plans the requests.
#[derive(Clone, Debug, PartialEq, Eq)]
pub struct ContentfulClient {
    api_token: String,
}

impl ContentfulClient {
    /// The token that the client authorizes with.
    pub closed spec fn token(&self) -> Seq<char> {
        self.api_token@
    }

    /// A client that authorizes with the given token.
    pub fn new(api_token: String) -> (client: Self)
        ensures
            client.token() == api_token@,
    {
        ContentfulClient { api_token }
    }

    fn authorization(&self) -> (header: String)
        ensures
            header@ == bearer(self.token()),
    {
        let mut header = "Bearer ".to_owned();
        header.append(self.api_token.as_str());
        header
    }

    fn collection(&self, space_id: &str, env: &str, collection: &str) -> (request: Request)
        ensures
            request.url@ == collection_url(space_id@, env@, collection@),
            request.authorization@ == bearer(self.token()),
    {
        let mut url = "https://cdn.contentful.com/spaces/".to_owned();
        url.append(space_id);
        url.append("/environments/");
        url.append(env);
        url.append("/");
        url.append(collection);
        Request { url, authorization: self.authorization() }
    }

    /// The request for the list of spaces.
    pub fn get_spaces(&self) -> (request: Request)
        ensures
            request.url@ == spaces_url(),
            request.authorization@ == bearer(self.token()),
    {
        Request {
            url: "https://cdn.contentful.com/spaces".to_owned(),
            authorization: self.authorization(),
        }
    }

    /// The request for the entries of one environment of one space.
    pub fn get_entries(&self, space_id: &str, env: &str) -> (request: Request)
        ensures
            request.url@ == collection_url(space_id@, env@, "entries"@),
            request.authorization@ == bearer(self.token()),
    {
        self.collection(space_id, env, "entries")
    }

    /// The request for the content types of one environment of one space.
    pub fn get_content_types(&self, space_id: &str, env: &str) -> (request: Request)
        ensures
            request.url@ == collection_url(space_id@, env@, "content_types"@),
            request.authorization@ == bearer(self.token()),
    {
        self.collection(space_id, env, "content_types")
    }
}

/// Where the entries of one environment are queried.
#[derive(Clone, Debug, PartialEq, Eq)]
pub struct Endpoint {
    pub base_url: String,
    pub space_id: String,
    pub environment_id: String,
}

/// The address of an entries query: the query string follows the path as it is.
pub open spec fn query_url(
    base_url: Seq<char>,
    space_id: Seq<char>,
    environment_id: Seq<char>,
    query_string: Seq<char>,
) -> Seq<char> {
    base_url + "/"@ + space_id + "/environments/"@ + environment_id + "/entries"@ + query_string
}

impl Endpoint {
    /// The address of an entries query with the given query string.
    pub fn get_query_string_url_ext(&self, query_string: &str) -> (url: String)
        ensures
            url@ == query_url(
                self.base_url@,
                self.space_id@,
                self.environment_id@,
                query_string@,
            ),
    {
        let mut url = self.base_url.clone();
        url.append("/");
        url.append(self.space_id.as_str());
        url.append("/environments/");
        url.append(self.environment_id.as_str());
        url.append("/entries");
        url.append(query_string);
        url
    }

    /// The address of an entries query; without a query string, of all entries.
    pub fn entries_url(&self, query_string: Option<&str>) -> (url: String)
        ensures
            url@ == query_url(
                self.base_url@,
                self.space_id@,
                self.environment_id@,
                match query_string {
                    Some(query) => query@,
                    None => Seq::empty(),
                },
            ),
    {
        match query_string {
            Some(query) => self.get_query_string_url_ext(query),
            None => {
                let url = self.get_query_string_url_ext("");
                proof {
                    reveal_strlit("");
                    assert(""@ =~= Seq::<char>::empty());
                }
                url
            },
        }
    }
}

} // verus!
