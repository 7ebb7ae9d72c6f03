use vstd::prelude::*;
use vstd::string::*;
use crate::http_utils::{encode_pairs, form_pairs, form_decode_pairs, lemma_form_pairs_decode, pair_views};

verus! {

/// Where replies are asked for.
pub const API_BASE_URL: &'static str = "https://www.cleverbot.com/getreply";

/// The state of one conversation as the service returns it.
#[derive(Debug)]
pub struct CleverbotSession {
    pub cs: String,
    pub interaction_count: String,
    pub input: String,
    pub output: String,
    pub conversation_id: String,
}

impl CleverbotSession {
    /// A session that has not started: every field empty.
    pub fn new() -> (r: CleverbotSession)
        ensures
            r.cs@.len() == 0,
            r.interaction_count@.len() == 0,
            r.input@.len() == 0,
            r.output@.len() == 0,
            r.conversation_id@.len() == 0,
    {
        CleverbotSession {
            cs: String::new(),
            interaction_count: String::new(),
            input: String::new(),
            output: String::new(),
            conversation_id: String::new(),
        }
    }
}

/// A client of the chat service: the API key, the current session and the
/// conversation state sent with the last request.
#[derive(Debug)]
pub struct Cleverbot {
    pub cbsession: CleverbotSession,
    pub api_key: String,
    pub sesscs: String,
}

/// The pairs a request carries, in order: the key, the input, and the
/// conversation state when there is one.
pub open spec fn request_pairs(key: Seq<char>, input: Seq<char>, cs: Seq<char>) -> Seq<(Seq<char>, Seq<char>)> {
    let base = seq![("key"@, key), ("input"@, input)];
    if cs.len() > 0 {
        base.push(("cs"@, cs))
    } else {
        base
    }
}

/// The URL that asks the service for a reply to `input`: the base, `?`,
/// and the encoded pairs.
pub open spec fn request_url_spec(key: Seq<char>, input: Seq<char>, cs: Seq<char>) -> Seq<char> {
    "https://www.cleverbot.com/getreply?"@ + form_pairs(request_pairs(key, input, cs))
}

/// What `request_url` does: `after` is `before` with the session's state
/// recorded as the state sent, and `url` asks for a reply to `input` with
/// that state.
pub open spec fn request_made(before: Cleverbot, input: Seq<char>, after: Cleverbot, url: Seq<char>) -> bool {
    &&& after.sesscs == before.cbsession.cs
    &&& after.cbsession == before.cbsession
    &&& after.api_key == before.api_key
    &&& url == request_url_spec(before.api_key@, input, before.cbsession.cs@)
}

/// What `take_reply` does with a successful answer that held `session`:
/// the session becomes the current one and its output is the reply.
pub open spec fn reply_taken(before: Cleverbot, session: CleverbotSession, after: Cleverbot, r: Result<String, String>) -> bool {
    &&& r == Ok::<String, String>(session.output)
    &&& after.cbsession == session
    &&& after.api_key == before.api_key
    &&& after.sesscs == before.sesscs
}

/// The conversation goes on: after a successful reply, the next request
/// carries that reply's state as its `cs` pair when the state is not
/// empty, and no `cs` pair when it is; the service's query reads back as
/// exactly the key, the new input and that state.
pub proof fn lemma_request_carries_state(
    c0: Cleverbot,
    session: CleverbotSession,
    c1: Cleverbot,
    r: Result<String, String>,
    input: Seq<char>,
    c2: Cleverbot,
    url: Seq<char>,
)
    requires
        reply_taken(c0, session, c1, r),
        request_made(c1, input, c2, url),
    ensures
        c2.sesscs == session.cs,
        url == "https://www.cleverbot.com/getreply?"@ + form_pairs(request_pairs(c0.api_key@, input, session.cs@)),
        form_decode_pairs(form_pairs(request_pairs(c0.api_key@, input, session.cs@)))
            == request_pairs(c0.api_key@, input, session.cs@),
        session.cs@.len() > 0 ==> request_pairs(c0.api_key@, input, session.cs@).contains(("cs"@, session.cs@)),
        session.cs@.len() == 0 ==> forall|i: int| 0 <= i < request_pairs(c0.api_key@, input, session.cs@).len()
            ==> #[trigger] request_pairs(c0.api_key@, input, session.cs@)[i].0 != "cs"@,
{
    let ps = request_pairs(c0.api_key@, input, session.cs@);
    lemma_form_pairs_decode(ps);
    reveal_strlit("cs");
    reveal_strlit("key");
    reveal_strlit("input");
    assert("cs"@.len() == 2 && "key"@.len() == 3 && "input"@.len() == 5);
    if session.cs@.len() > 0 {
        assert(ps[2] == ("cs"@, session.cs@));
    }
}

/// Every request asks about exactly the text passed in: the URL is the
/// service's address followed by a query that reads back as the key, then
/// the input unchanged, then the conversation state exactly when there is
/// one, and nothing else.
pub proof fn lemma_request_query(c0: Cleverbot, input: Seq<char>, c1: Cleverbot, url: Seq<char>)
    requires
        request_made(c0, input, c1, url),
    ensures
        exists|q: Seq<char>|
            {
                &&& url == "https://www.cleverbot.com/getreply?"@ + q
                &&& form_decode_pairs(q).len() == if c0.cbsession.cs@.len() > 0 { 3int } else { 2int }
                &&& form_decode_pairs(q)[0] == ("key"@, c0.api_key@)
                &&& form_decode_pairs(q)[1] == ("input"@, input)
                &&& c0.cbsession.cs@.len() > 0 ==> form_decode_pairs(q)[2] == ("cs"@, c0.cbsession.cs@)
            },
{
    let q = form_pairs(request_pairs(c0.api_key@, input, c0.cbsession.cs@));
    lemma_form_pairs_decode(request_pairs(c0.api_key@, input, c0.cbsession.cs@));
    assert(url == "https://www.cleverbot.com/getreply?"@ + q);
}

/// A client that holds no conversation state, as `Cleverbot::new` makes
/// it, sends only its key and the input: no `cs` pair.
pub proof fn lemma_fresh_request_sends_no_state(c0: Cleverbot, input: Seq<char>, c1: Cleverbot, url: Seq<char>)
    requires
        c0.cbsession.cs@.len() == 0,
        request_made(c0, input, c1, url),
    ensures
        url == "https://www.cleverbot.com/getreply?"@ + form_pairs(seq![("key"@, c0.api_key@), ("input"@, input)]),
        c1.sesscs@.len() == 0,
{
}

impl Cleverbot {
    /// A client with the given key and a fresh session.
    pub fn new(api_key: String) -> (r: Cleverbot)
        ensures
            r.api_key == api_key,
            r.sesscs@.len() == 0,
            r.cbsession.cs@.len() == 0,
            r.cbsession.interaction_count@.len() == 0,
            r.cbsession.input@.len() == 0,
            r.cbsession.output@.len() == 0,
            r.cbsession.conversation_id@.len() == 0,
    {
        Cleverbot { cbsession: CleverbotSession::new(), sesscs: String::new(), api_key: api_key }
    }

    /// Prepares a request for `text`: records the session's conversation
    /// state as the state sent, and returns the URL to fetch, which carries
    /// the key, the input and, when there is one, the state.
    pub fn request_url(&mut self, text: &str) -> (url: String)
        ensures
            request_made(*old(self), text@, *final(self), url@),
    {
        self.sesscs = self.cbsession.cs.clone();
        let mut params: Vec<(&str, &str)> = Vec::new();
        params.push(("key", self.api_key.as_str()));
        params.push(("input", text));
        if self.sesscs.unicode_len() != 0 {
            params.push(("cs", self.sesscs.as_str()));
        }
        let encoded = encode_pairs(params.as_slice());
        let mut url = String::from_str(API_BASE_URL);
        url.append("?");
        url.append(encoded.as_str());
        proof {
            reveal_strlit("https://www.cleverbot.com/getreply");
            reveal_strlit("?");
            reveal_strlit("https://www.cleverbot.com/getreply?");
            assert(API_BASE_URL@ + "?"@ =~= "https://www.cleverbot.com/getreply?"@);
            assert(pair_views(params@) =~= request_pairs(self.api_key@, text@, old(self).cbsession.cs@));
        }
        url
    }

    /// Takes the service's answer: when the request failed the session stays
    /// as it is; when the body held a session it becomes the current one and
    /// its output is the reply.
    pub fn take_reply(&mut self, success: bool, session: Option<CleverbotSession>) -> (r: Result<String, String>)
        ensures
            !success ==> (match r {
                Err(e) => e@ == "The response did not return an 200"@,
                Ok(_) => false,
            }) && *final(self) == *old(self),
            success && session is None ==> (match r {
                Err(e) => e@ == "JSON PARSE ERR !"@,
                Ok(_) => false,
            }) && *final(self) == *old(self),
            success && session is Some ==> reply_taken(*old(self), session->0, *final(self), r),
    {
        if !success {
            let e = String::from_str("The response did not return an 200");
            return Err(e);
        }
        match session {
            Some(new_session) => {
                self.cbsession = new_session;
                Ok(self.cbsession.output.clone())
            },
            None => Err(String::from_str("JSON PARSE ERR !")),
        }
    }
}

} // verus!
