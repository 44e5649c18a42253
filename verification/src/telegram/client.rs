//! Requests to the Bot API: where they go and how a reply is read. Sending
//! them is left to the caller's HTTP client.
use vstd::prelude::*;

use crate::security::{https_scheme, mask_token, masked};
use crate::telegram::types::ApiResponse;
use crate::text::{decimal, i64_to_decimal, signed_decimal, starts_with, u64_to_decimal};

verus! {

/// `https://api.telegram.org/bot<token>/<method>`.
pub open spec fn api_url_text(token: Seq<char>, method: Seq<char>) -> Seq<char> {
    https_scheme() + "api.telegram.org/bot"@ + token + seq!['/'] + method
}

/// `https://api.telegram.org/file/bot<token>/<file_path>`.
pub open spec fn file_url_text(token: Seq<char>, file_path: Seq<char>) -> Seq<char> {
    https_scheme() + "api.telegram.org/file/bot"@ + token + seq!['/'] + file_path
}

/// A client of the Bot API for one bot: its token. The HTTP transport (with
/// HTTPS only and its timeouts) is the caller's.
pub struct TelegramClient {
    token: String,
}

impl View for TelegramClient {
    type V = Seq<char>;

    closed spec fn view(&self) -> Seq<char> {
        self.token@
    }
}

impl TelegramClient {
    /// The API of the bot with this token.
    pub fn new(token: String) -> (r: TelegramClient)
        ensures
            r@ == token@,
    {
        TelegramClient { token }
    }

    /// The URL of an API method.
    pub fn api_url(&self, method: &str) -> (r: String)
        ensures
            r@ == api_url_text(self@, method@),
    {
        let mut s = String::from_str("https://");
        proof {
            reveal_strlit("https://");
        }
        assert("https://"@ =~= https_scheme());
        s.append("api.telegram.org/bot");
        s.append(self.token.as_str());
        s.append("/");
        proof {
            reveal_strlit("/");
        }
        s.append(method);
        assert(s@ =~= api_url_text(self@, method@));
        s
    }

    /// The download URL of a file, from the path that `getFile` gave.
    pub fn file_url(&self, file_path: &str) -> (r: String)
        ensures
            r@ == file_url_text(self@, file_path@),
    {
        let mut s = String::from_str("https://");
        proof {
            reveal_strlit("https://");
        }
        assert("https://"@ =~= https_scheme());
        s.append("api.telegram.org/file/bot");
        s.append(self.token.as_str());
        s.append("/");
        proof {
            reveal_strlit("/");
        }
        s.append(file_path);
        assert(s@ =~= file_url_text(self@, file_path@));
        s
    }

    /// The token as it may appear in messages (`mask_token`).
    pub fn masked_token(&self) -> (r: String)
        ensures
            r@ == masked(self@),
    {
        mask_token(self.token.as_str())
    }
}

/// Every URL that `TelegramClient` builds uses HTTPS.
pub proof fn lemma_urls_are_https(token: Seq<char>, text: Seq<char>)
    ensures
        starts_with(api_url_text(token, text), https_scheme()),
        starts_with(file_url_text(token, text), https_scheme()),
{
    let a = api_url_text(token, text);
    let f = file_url_text(token, text);
    assert(a.take(8) =~= https_scheme());
    assert(f.take(8) =~= https_scheme());
}

/// A refused request: the API's own description, or nothing.
#[derive(Debug)]
pub struct ApiError {
    pub description: String,
}

/// Reads a reply: its result when the API reports success and sends one,
/// otherwise an error carrying the API's description (empty when absent).
pub fn api_result<T>(resp: ApiResponse<T>) -> (r: Result<T, ApiError>)
    ensures
        match r {
            Ok(x) => resp.ok && resp.result == Some(x),
            Err(e) => !(resp.ok && resp.result is Some) && e.description@ == match resp.description {
                Some(d) => d@,
                None => Seq::<char>::empty(),
            },
        },
{
    let ok = resp.ok;
    match resp.result {
        Some(x) if ok => Ok(x),
        _ => {
            let description = match resp.description {
                Some(d) => d,
                None => String::new(),
            };
            Err(ApiError { description })
        },
    }
}

/// The query of a `getUpdates` long poll.
pub struct UpdatesRequest {
    /// Query parameters, in order.
    pub params: Vec<(String, String)>,
    /// How long the HTTP client waits for the reply, in seconds.
    pub client_timeout_secs: u64,
}

/// `["message","channel_post"]`: the updates that polling asks for.
pub open spec fn allowed_updates_text() -> Seq<char> {
    "[\"message\",\"channel_post\"]"@
}

/// The `getUpdates` query: `timeout`, the allowed update kinds, and `offset`
/// when there is one; the client waits 10 seconds longer than the poll.
pub fn updates_request(offset: Option<i64>, timeout: u64) -> (r: UpdatesRequest)
    requires
        timeout + 10 <= u64::MAX,
    ensures
        r.client_timeout_secs == timeout + 10,
        r.params@.len() == if offset is Some { 3int } else { 2int },
        r.params@[0].0@ == "timeout"@ && r.params@[0].1@ == decimal(timeout as nat),
        r.params@[1].0@ == "allowed_updates"@ && r.params@[1].1@ == allowed_updates_text(),
        offset matches Some(o) ==> r.params@[2].0@ == "offset"@ && r.params@[2].1@
            == signed_decimal(o as int),
{
    let mut params: Vec<(String, String)> = Vec::new();
    params.push((String::from_str("timeout"), u64_to_decimal(timeout)));
    params.push(
        (String::from_str("allowed_updates"), String::from_str("[\"message\",\"channel_post\"]")),
    );
    if let Some(off) = offset {
        params.push((String::from_str("offset"), i64_to_decimal(off)));
    }
    UpdatesRequest { params, client_timeout_secs: timeout + 10 }
}

} // verus!
