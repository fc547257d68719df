//! The wire envelopes: requests going out, responses and notifications
//! coming in, and the classification of one inbound frame. A response
//! carries exactly one of a result and an error; one carrying neither is an
//! invariant violation that still resolves its caller, with a logic error.

use vstd::prelude::*;
use crate::error::{ApiError, Error};
use crate::error::ErrV;
use crate::json::{json_model, json_wellformed, parse_json_tree};
use crate::model::{field, rep, Json, JsonV};
use crate::params::{ParamV, ParamValue, Params};
use crate::strutil::{dec_rep, dec_val, hex_digit, hex_str, i64_str, int_of, int_rep, u64_str};

verus! {

/// An outbound request envelope: protocol tag `2.0`, correlation id, method
/// name and parameter object.
#[derive(Debug, Clone)]
pub struct Request {
    pub id: u64,
    pub method: String,
    pub params: Params,
}

impl Request {
    /// Builds the envelope for one call.
    pub fn new(id: u64, method: &str, params: Params) -> (r: Request)
        ensures
            r.id == id,
            r.method@ == method@,
            r.params@ == params@,
    {
        Request { id, method: String::from_str(method), params }
    }
}

/// An inbound response envelope, matched to a caller by its correlation id.
#[derive(Debug)]
pub struct Response {
    pub jsonrpc: String,
    pub id: u64,
    pub result: Option<Json>,
    pub error: Option<ApiError>,
}

/// The mathematical shape of a response envelope.
#[verifier::ext_equal]
pub struct RespV {
    pub jsonrpc: Seq<char>,
    pub id: u64,
    pub result: Option<JsonV>,
    pub error: Option<ErrV>,
}

impl View for Response {
    type V = RespV;

    open spec fn view(&self) -> RespV {
        RespV {
            jsonrpc: self.jsonrpc@,
            id: self.id,
            result: match self.result {
                Some(j) => Some(rep(j)),
                None => None,
            },
            error: match self.error {
                Some(e) => Some(e@),
                None => None,
            },
        }
    }
}

/// The payload of an inbound notification: the channel it belongs to and its
/// data.
#[derive(Debug)]
pub struct NotificationParams {
    pub channel: String,
    pub data: Json,
}

/// An inbound notification envelope, matched to a sink by channel name only.
#[derive(Debug)]
pub struct Notification {
    pub jsonrpc: String,
    pub params: NotificationParams,
}

/// The mathematical shape of a notification envelope.
#[verifier::ext_equal]
pub struct NotifV {
    pub jsonrpc: Seq<char>,
    pub channel: Seq<char>,
    pub data: JsonV,
}

impl View for Notification {
    type V = NotifV;

    open spec fn view(&self) -> NotifV {
        NotifV { jsonrpc: self.jsonrpc@, channel: self.params.channel@, data: rep(self.params.data) }
    }
}

/// One classified inbound frame.
#[derive(Debug)]
pub enum Message {
    Response(Response),
    Notification(Notification),
}

/// The mathematical shape of one classified frame.
#[verifier::ext_equal]
pub enum MsgV {
    Response(RespV),
    Notification(NotifV),
}

impl View for Message {
    type V = MsgV;

    open spec fn view(&self) -> MsgV {
        match self {
            Message::Response(r) => MsgV::Response(r@),
            Message::Notification(n) => MsgV::Notification(n@),
        }
    }
}

/// What a server error object means: an integer code and a string message,
/// with optional data; anything else is no error object.
pub open spec fn error_model(m: JsonV) -> Option<ErrV> {
    match field(m, "code"@) {
        Some(JsonV::Num(ct)) => match int_of(ct) {
            Some(code) => match field(m, "message"@) {
                Some(JsonV::Str(msg)) => Some(
                    ErrV { code, message: msg, data: field(m, "data"@) },
                ),
                _ => None,
            },
            None => None,
        },
        _ => None,
    }
}

/// What a frame means as a response: protocol tag, unsigned integer id, the
/// result if any, and a well-shaped error object if any. A frame missing a
/// piece, or carrying it in the wrong shape, is no response.
pub open spec fn response_model(m: JsonV) -> Option<RespV> {
    match field(m, "jsonrpc"@) {
        Some(JsonV::Str(tag)) => match field(m, "id"@) {
            Some(JsonV::Num(t)) => match dec_val(t) {
                Some(id) => match field(m, "error"@) {
                    Some(e) => match error_model(e) {
                        Some(ev) => Some(
                            RespV { jsonrpc: tag, id, result: field(m, "result"@), error: Some(ev) },
                        ),
                        None => None,
                    },
                    None => Some(
                        RespV { jsonrpc: tag, id, result: field(m, "result"@), error: None },
                    ),
                },
                None => None,
            },
            _ => None,
        },
        _ => None,
    }
}

/// What a frame means as a notification: protocol tag and a params object
/// carrying the channel name and the payload.
pub open spec fn notification_model(m: JsonV) -> Option<NotifV> {
    match field(m, "jsonrpc"@) {
        Some(JsonV::Str(tag)) => match field(m, "params"@) {
            Some(p) => match field(p, "channel"@) {
                Some(JsonV::Str(ch)) => match field(p, "data"@) {
                    Some(d) => Some(NotifV { jsonrpc: tag, channel: ch, data: d }),
                    None => None,
                },
                _ => None,
            },
            None => None,
        },
        _ => None,
    }
}

/// What a frame means: a response when it reads as one, else a notification
/// when it reads as one, else nothing.
pub open spec fn frame_model(m: JsonV) -> Option<MsgV> {
    match response_model(m) {
        Some(r) => Some(MsgV::Response(r)),
        None => match notification_model(m) {
            Some(n) => Some(MsgV::Notification(n)),
            None => None,
        },
    }
}

impl Response {
    /// The outcome a response hands its caller: the result when there is
    /// one, the server's error when there is one, and a logic error when the
    /// envelope carries neither.
    pub fn value(&self) -> (r: Result<Json, Error>)
        ensures
            self.result matches Some(x) ==> (r matches Ok(v) && rep(v) == rep(x)),
            self.result is None ==> (self.error matches Some(e) ==> (r matches Err(er) && (
            er matches Error::Api(ae) && ae@ == e@))),
            self.result is None && self.error is None ==> (r matches Err(e) && e is Logic),
    {
        match &self.result {
            Some(v) => Ok(v.duplicate()),
            None => match &self.error {
                Some(e) => Err(Error::Api(clone_api_error(e))),
                None => Err(
                    Error::Logic(String::from_str("response carried neither result nor error")),
                ),
            },
        }
    }
}

/// A field-by-field copy of a server error, of the same shape.
pub fn clone_api_error(e: &ApiError) -> (r: ApiError)
    ensures
        r@ == e@,
{
    let data = match &e.data {
        Some(v) => Some(v.duplicate()),
        None => None,
    };
    let r = ApiError { code: e.code, message: e.message.clone(), data };
    proof {
        assert(r@ =~= e@);
    }
    r
}

/// Reads a response envelope out of a parsed frame, exactly as
/// `response_model` has it.
fn response_of(j: &Json) -> (r: Option<Response>)
    ensures
        r matches Some(resp) ==> response_model(rep(*j)) == Some(resp@),
        r is None ==> response_model(rep(*j)) is None,
{
    let tag = match j.get("jsonrpc") {
        Some(t) => match t {
            Json::Str(s) => s.clone(),
            _ => {
                return None;
            },
        },
        None => {
            return None;
        },
    };
    let id = match j.get("id") {
        Some(t) => match t {
            Json::Num(nt) => match crate::strutil::parse_u64(nt.as_str()) {
                Some(n) => n,
                None => {
                    return None;
                },
            },
            _ => {
                return None;
            },
        },
        None => {
            return None;
        },
    };
    let error = match j.get("error") {
        Some(t) => match api_error_of(t) {
            Some(e) => Some(e),
            None => {
                return None;
            },
        },
        None => None,
    };
    let result = match j.get("result") {
        Some(t) => Some(t.duplicate()),
        None => None,
    };
    let resp = Response { jsonrpc: tag, id, result, error };
    proof {
        assert(response_model(rep(*j)) matches Some(rv) && rv =~= resp@);
    }
    Some(resp)
}

/// Reads a server error object, exactly as `error_model` has it.
fn api_error_of(j: &Json) -> (r: Option<ApiError>)
    ensures
        r matches Some(e) ==> error_model(rep(*j)) == Some(e@),
        r is None ==> error_model(rep(*j)) is None,
{
    let code = match j.get("code") {
        Some(t) => match t {
            Json::Num(ct) => match crate::strutil::parse_i64(ct.as_str()) {
                Some(n) => n,
                None => {
                    return None;
                },
            },
            _ => {
                return None;
            },
        },
        None => {
            return None;
        },
    };
    let message = match j.get("message") {
        Some(t) => match t {
            Json::Str(s) => s.clone(),
            _ => {
                return None;
            },
        },
        None => {
            return None;
        },
    };
    let data = match j.get("data") {
        Some(t) => Some(t.duplicate()),
        None => None,
    };
    let e = ApiError { code, message, data };
    proof {
        assert(error_model(rep(*j)) matches Some(ev) && ev =~= e@);
    }
    Some(e)
}

/// Reads a notification envelope out of a parsed frame, exactly as
/// `notification_model` has it.
fn notification_of(j: &Json) -> (r: Option<Notification>)
    ensures
        r matches Some(n) ==> notification_model(rep(*j)) == Some(n@),
        r is None ==> notification_model(rep(*j)) is None,
{
    let tag = match j.get("jsonrpc") {
        Some(t) => match t {
            Json::Str(s) => s.clone(),
            _ => {
                return None;
            },
        },
        None => {
            return None;
        },
    };
    let params = match j.get("params") {
        Some(p) => p,
        None => {
            return None;
        },
    };
    let channel = match params.get("channel") {
        Some(t) => match t {
            Json::Str(s) => s.clone(),
            _ => {
                return None;
            },
        },
        None => {
            return None;
        },
    };
    let data = match params.get("data") {
        Some(t) => t.duplicate(),
        None => {
            return None;
        },
    };
    let n = Notification { jsonrpc: tag, params: NotificationParams { channel, data } };
    proof {
        assert(notification_model(rep(*j)) matches Some(nv) && nv =~= n@);
    }
    Some(n)
}

/// Classifies one inbound frame: first as a response, then as a
/// notification; a frame that is neither, or is not JSON at all, is a
/// protocol error the reader recovers from, never a reason to stop reading.
pub fn decode_frame(text: &str) -> (r: Result<Message, Error>)
    ensures
        !json_wellformed(text@) ==> (r matches Err(e) && e is Protocol),
        json_wellformed(text@) ==> (match frame_model(json_model(text@)) {
            Some(mv) => r matches Ok(m) && m@ == mv,
            None => r matches Err(e) && e is Protocol,
        }),
{
    let j = match parse_json_tree(text) {
        Some(j) => j,
        None => {
            return Err(Error::Protocol(String::from_str("frame is not well-formed JSON")));
        },
    };
    match response_of(&j) {
        Some(resp) => Ok(Message::Response(resp)),
        None => match notification_of(&j) {
            Some(n) => Ok(Message::Notification(n)),
            None => Err(
                Error::Protocol(String::from_str("frame is neither a response nor a notification")),
            ),
        },
    }
}

/// A character the JSON string form carries as itself.
pub open spec fn plain_char(c: char) -> bool {
    c != '"' && c != '\\' && c as u32 >= 32
}

/// The escaped form of one character inside a JSON string.
pub open spec fn esc_char(c: char) -> Seq<char> {
    if c == '"' {
        seq!['\\', '"']
    } else if c == '\\' {
        seq!['\\', '\\']
    } else if (c as u32) < 32 {
        seq!['\\', 'u', '0', '0', hex_digit(((c as u32) / 16) as int), hex_digit(
            ((c as u32) % 16) as int,
        )]
    } else {
        seq![c]
    }
}

/// The escaped body of a JSON string.
pub open spec fn esc_text(s: Seq<char>) -> Seq<char>
    decreases s.len(),
{
    if s.len() == 0 {
        Seq::empty()
    } else {
        esc_text(s.drop_last()) + esc_char(s.last())
    }
}

/// A JSON string: the escaped body between double quotes.
pub open spec fn quoted(s: Seq<char>) -> Seq<char> {
    seq!['"'] + esc_text(s) + seq!['"']
}

/// The JSON text of one parameter value.
pub open spec fn atom_text(v: ParamV) -> Seq<char> {
    match v {
        ParamV::Str(s) => quoted(s),
        ParamV::Int(n) => int_rep(n),
        ParamV::UInt(n) => dec_rep(n as nat),
        ParamV::Bool(b) => if b {
            "true"@
        } else {
            "false"@
        },
    }
}

/// The body of the params object: `key:value` pairs joined with commas.
pub open spec fn entries_text(s: Seq<(Seq<char>, ParamV)>) -> Seq<char>
    decreases s.len(),
{
    if s.len() == 0 {
        Seq::empty()
    } else if s.len() == 1 {
        quoted(s[0].0) + seq![':'] + atom_text(s[0].1)
    } else {
        entries_text(s.drop_last()) + seq![','] + quoted(s.last().0) + seq![':'] + atom_text(
            s.last().1,
        )
    }
}

/// The whole frame a request is sent as: the literal envelope with the id,
/// the method and the parameter object in place.
pub open spec fn request_text(id: u64, method: Seq<char>, params: Seq<(Seq<char>, ParamV)>) -> Seq<
    char,
> {
    "{\"jsonrpc\":\"2.0\",\"id\":"@ + dec_rep(id as nat) + ",\"method\":"@ + quoted(method)
        + ",\"params\":{"@ + entries_text(params) + "}}"@
}

proof fn lemma_esc_plain(s: Seq<char>)
    requires
        forall|i: int| 0 <= i < s.len() ==> plain_char(s[i]),
    ensures
        esc_text(s) == s,
    decreases s.len(),
{
    if s.len() > 0 {
        assert forall|i: int| 0 <= i < s.drop_last().len() implies plain_char(
            s.drop_last()[i],
        ) by {
            assert(s.drop_last()[i] == s[i]);
        }
        lemma_esc_plain(s.drop_last());
        assert(plain_char(s.last()));
        assert(esc_char(s.last()) =~= seq![s.last()]);
        assert(esc_text(s) =~= s);
    }
}

proof fn lemma_esc_concat(a: Seq<char>, b: Seq<char>)
    ensures
        esc_text(a + b) == esc_text(a) + esc_text(b),
    decreases b.len(),
{
    if b.len() == 0 {
        assert(a + b =~= a);
        assert(esc_text(a) + esc_text(b) =~= esc_text(a));
    } else {
        assert((a + b).drop_last() =~= a + b.drop_last());
        assert((a + b).last() == b.last());
        lemma_esc_concat(a, b.drop_last());
        assert(esc_text(a) + esc_text(b) =~= esc_text(a) + esc_text(b.drop_last()) + esc_char(
            b.last(),
        ));
    }
}

/// Appends the escaped body of a string: runs of plain characters are taken
/// whole from the source, the rest escape one at a time.
fn escape_into(out: &mut String, s: &str)
    ensures
        final(out)@ == old(out)@ + esc_text(s@),
{
    proof {
        reveal_strlit("\\\"");
        reveal_strlit("\\\\");
        reveal_strlit("\\u00");
    }
    let n = s.unicode_len();
    let mut i: usize = 0;
    let mut run_start: usize = 0;
    proof {
        assert(s@.take(0) =~= Seq::<char>::empty());
    }
    while i < n
        invariant
            n == s@.len(),
            run_start <= i <= n,
            out@ == old(out)@ + esc_text(s@.take(run_start as int)),
            forall|j: int| run_start <= j < i ==> plain_char(s@[j]),
        decreases n - i,
    {
        let c = s.get_char(i);
        let cv = c as u32;
        if c == '"' || c == '\\' || cv < 32 {
            let run = s.substring_char(run_start, i);
            proof {
                assert(run@ =~= s@.subrange(run_start as int, i as int));
                lemma_esc_plain(run@);
                assert(s@.take(i as int) =~= s@.take(run_start as int) + run@);
                lemma_esc_concat(s@.take(run_start as int), run@);
            }
            out.append(run);
            proof {
                assert(s@.take(i + 1).drop_last() =~= s@.take(i as int));
                assert(s@.take(i + 1).last() == c);
                assert(esc_text(s@.take(i + 1)) == esc_text(s@.take(i as int)) + esc_char(c));
            }
            if c == '"' {
                out.append("\\\"");
                proof {
                    reveal_strlit("\\\"");
                    assert("\\\""@.len() == 2);
                    assert("\\\""@ =~= esc_char(c));
                }
            } else if c == '\\' {
                out.append("\\\\");
                proof {
                    reveal_strlit("\\\\");
                    assert("\\\\"@ =~= esc_char(c));
                }
            } else {
                out.append("\\u00");
                let hi = hex_str(((cv / 16) as u64));
                out.append(hi);
                let lo = hex_str(((cv % 16) as u64));
                out.append(lo);
                proof {
                    reveal_strlit("\\u00");
                    assert("\\u00"@ + hi@ + lo@ =~= esc_char(c));
                }
            }
            proof {
                assert(out@ =~= old(out)@ + esc_text(s@.take(i + 1)));
            }
            run_start = i + 1;
        }
        i += 1;
    }
    let run = s.substring_char(run_start, n);
    proof {
        assert(run@ =~= s@.subrange(run_start as int, n as int));
        lemma_esc_plain(run@);
        assert(s@.take(n as int) =~= s@.take(run_start as int) + run@);
        lemma_esc_concat(s@.take(run_start as int), run@);
        assert(s@.take(n as int) =~= s@);
    }
    out.append(run);
}

/// Appends one parameter value in its JSON form.
fn append_atom(out: &mut String, v: &ParamValue)
    ensures
        final(out)@ == old(out)@ + atom_text(v@),
{
    proof {
        reveal_strlit("\"");
        reveal_strlit("true");
        reveal_strlit("false");
    }
    match v {
        ParamValue::Str(s) => {
            out.append("\"");
            escape_into(out, s.as_str());
            out.append("\"");
            proof {
                assert(out@ =~= old(out)@ + quoted(s@));
            }
        },
        ParamValue::Int(n) => {
            let t = i64_str(*n);
            out.append(t.as_str());
        },
        ParamValue::UInt(n) => {
            let t = u64_str(*n);
            out.append(t.as_str());
        },
        ParamValue::Bool(b) => {
            if *b {
                out.append("true");
            } else {
                out.append("false");
            }
        },
    }
}

/// Serializes a request envelope to its frame text: the literal JSON-RPC
/// envelope carrying exactly the given id, method and parameters. This
/// never fails, so a caller that writes the returned text has sent the
/// envelope and nothing else.
pub fn encode_request(req: &Request) -> (r: String)
    ensures
        r@ == request_text(req.id, req.method@, req.params@),
{
    proof {
        reveal_strlit("\"");
        reveal_strlit("\":");
        reveal_strlit(",");
        reveal_strlit("}}");
    }
    let mut out = String::from_str("{\"jsonrpc\":\"2.0\",\"id\":");
    let idt = u64_str(req.id);
    out.append(idt.as_str());
    out.append(",\"method\":");
    out.append("\"");
    escape_into(&mut out, req.method.as_str());
    out.append("\"");
    out.append(",\"params\":{");
    let ghost head = "{\"jsonrpc\":\"2.0\",\"id\":"@ + dec_rep(req.id as nat)
        + ",\"method\":"@ + quoted(req.method@) + ",\"params\":{"@;
    proof {
        assert(out@ =~= head);
    }
    let entries = req.params.entries();
    let ghost eview = req.params@;
    let mut i: usize = 0;
    proof {
        assert(eview.take(0) =~= Seq::<(Seq<char>, ParamV)>::empty());
    }
    while i < entries.len()
        invariant
            entries@.map_values(
                |e: (String, ParamValue)| (e.0@, e.1@),
            ) == eview,
            i <= eview.len(),
            entries@.len() == eview.len(),
            out@ == head + entries_text(eview.take(i as int)),
            head == "{\"jsonrpc\":\"2.0\",\"id\":"@ + dec_rep(req.id as nat)
                + ",\"method\":"@ + quoted(req.method@) + ",\"params\":{"@,
        decreases entries@.len() - i,
    {
        proof {
            reveal_strlit("\"");
            reveal_strlit("\":");
            reveal_strlit(",");
        }
        if i > 0 {
            out.append(",");
        }
        out.append("\"");
        escape_into(&mut out, entries[i].0.as_str());
        out.append("\":");
        append_atom(&mut out, &entries[i].1);
        proof {
            assert(eview[i as int] == (entries@[i as int].0@, entries@[i as int].1@));
            assert(eview.take(i + 1).drop_last() =~= eview.take(i as int));
            assert(eview.take(i + 1).last() == eview[i as int]);
            if i == 0 {
                assert(entries_text(eview.take(1)) == quoted(eview[0].0) + seq![':'] + atom_text(
                    eview[0].1,
                ));
                assert(out@ =~= head + entries_text(eview.take(i + 1)));
            } else {
                assert(out@ =~= head + entries_text(eview.take(i + 1)));
            }
        }
        i += 1;
    }
    proof {
        assert(eview.take(eview.len() as int) =~= eview);
    }
    out.append("}}");
    proof {
        assert(out@ =~= request_text(req.id, req.method@, req.params@));
    }
    out
}

} // verus!
