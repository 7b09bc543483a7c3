//! Frame classification, event extraction, subscribe requests, and the
//! session and supervisor state machines.

use vstd::prelude::*;
use crate::backoff::{backoff_secs, next_attempt, calculate_backoff, advance_attempt};
use crate::clock::now_rfc3339;
use crate::config::{
    Mode, Commitment, Config, ConfigError, is_space, spec_accounts, commitment_text,
};
use crate::event::{
    LogEvent, AccountEvent, log_record_model, account_record_model, opt_str, opt_u64,
    opt_str_arr, key_slot, key_signature, key_logs, key_lamports, key_data,
};
use crate::json::{
    JsonValue, JsonModel, model, jget, spec_parse, spec_ser, parse_json_text, to_json_text,
    as_string_items, obj_model_from, arr_model_from,
};
use crate::metrics::{Metrics, bumped};
use crate::storage::record_line;
use vstd::string::*;

verus! {

pub open spec fn key_jsonrpc() -> Seq<char> {
    seq!['j', 's', 'o', 'n', 'r', 'p', 'c']
}

pub open spec fn key_id() -> Seq<char> {
    seq!['i', 'd']
}

pub open spec fn key_error() -> Seq<char> {
    seq!['e', 'r', 'r', 'o', 'r']
}

pub open spec fn key_result() -> Seq<char> {
    seq!['r', 'e', 's', 'u', 'l', 't']
}

pub open spec fn key_code() -> Seq<char> {
    seq!['c', 'o', 'd', 'e']
}

pub open spec fn key_message() -> Seq<char> {
    seq!['m', 'e', 's', 's', 'a', 'g', 'e']
}

pub open spec fn key_context() -> Seq<char> {
    seq!['c', 'o', 'n', 't', 'e', 'x', 't']
}

pub open spec fn key_value() -> Seq<char> {
    seq!['v', 'a', 'l', 'u', 'e']
}

pub open spec fn key_account() -> Seq<char> {
    seq!['a', 'c', 'c', 'o', 'u', 'n', 't']
}

/// A classified inbound text frame.
#[derive(Debug)]
pub enum Classified {
    /// A response envelope with a result: a subscription acknowledgment.
    Ack,
    /// A response envelope carrying an error: fatal for the session.
    RpcFault { code: i32, message: String },
    /// A logs notification, with its slot, signature and log lines.
    LogsNote { slot: u64, signature: String, logs: Vec<String> },
    /// An account notification, with its slot, balance and joined payload.
    AccountNote { slot: u64, lamports: u64, data: String },
    /// Any other shape: dropped without affecting the session.
    Unrecognized,
}

/// The mathematical shape of a classified frame.
pub enum ClassifiedModel {
    Ack,
    RpcFault { code: int, message: Seq<char> },
    LogsNote { slot: u64, signature: Seq<char>, logs: Seq<Seq<char>> },
    AccountNote { slot: u64, lamports: u64, data: Seq<char> },
    Unrecognized,
}

/// The shape of a classified frame.
pub open spec fn classified_view(c: Classified) -> ClassifiedModel {
    match c {
        Classified::Ack => ClassifiedModel::Ack,
        Classified::RpcFault { code, message } => ClassifiedModel::RpcFault {
            code: code as int,
            message: message@,
        },
        Classified::LogsNote { slot, signature, logs } => ClassifiedModel::LogsNote {
            slot,
            signature: signature@,
            logs: logs.deep_view(),
        },
        Classified::AccountNote { slot, lamports, data } => ClassifiedModel::AccountNote {
            slot,
            lamports,
            data: data@,
        },
        Classified::Unrecognized => ClassifiedModel::Unrecognized,
    }
}

/// A member of a value that may be absent.
pub open spec fn jget_opt(m: Option<JsonModel>, key: Seq<char>) -> Option<JsonModel> {
    match m {
        Some(x) => jget(x, key),
        None => None,
    }
}

/// The signed value of a number shape.
pub open spec fn opt_int(m: Option<JsonModel>) -> Option<int> {
    match m {
        Some(JsonModel::Num { neg, mag }) => Some(
            if neg {
                -(mag as int)
            } else {
                mag as int
            },
        ),
        _ => None,
    }
}

/// Whether the value has the response envelope's required fields: a
/// string protocol version and an unsigned numeric id.
pub open spec fn env_shape(m: JsonModel) -> bool {
    opt_str(jget(m, key_jsonrpc())) is Some && opt_u64(jget(m, key_id())) is Some
}

/// The error member of an envelope.
pub enum ErrField {
    /// No error member, or a null one.
    Absent,
    /// A well-formed error object: its code and message.
    Fault(int, Seq<char>),
    /// An error member of some other shape: the envelope does not decode.
    Malformed,
}

/// The error member of the envelope, classified.
pub open spec fn err_field(m: JsonModel) -> ErrField {
    match jget(m, key_error()) {
        None => ErrField::Absent,
        Some(e) => match e {
            JsonModel::Null => ErrField::Absent,
            JsonModel::Obj(_) => {
                let c = opt_int(jget(e, key_code()));
                let msg = opt_str(jget(e, key_message()));
                if c is Some && -0x8000_0000 <= c.unwrap() <= 0x7fff_ffff && msg is Some {
                    ErrField::Fault(c.unwrap(), msg.unwrap())
                } else {
                    ErrField::Malformed
                }
            },
            _ => ErrField::Malformed,
        },
    }
}

/// Whether the envelope carries a non-null result.
pub open spec fn result_present(m: JsonModel) -> bool {
    match jget(m, key_result()) {
        Some(r) => !(r is Null),
        None => false,
    }
}

/// The fields of a logs notification, when the value has its shape.
pub open spec fn logs_note_of(m: JsonModel) -> Option<(u64, Seq<char>, Seq<Seq<char>>)> {
    let r = jget(m, key_result());
    let slot = opt_u64(jget_opt(jget_opt(r, key_context()), key_slot()));
    let v = jget_opt(r, key_value());
    let sig = opt_str(jget_opt(v, key_signature()));
    let lg = opt_str_arr(jget_opt(v, key_logs()));
    if slot is Some && sig is Some && lg is Some {
        Some((slot.unwrap(), sig.unwrap(), lg.unwrap()))
    } else {
        None
    }
}

/// The concatenation of `ss` from `i`, after `acc`.
pub open spec fn join_from(ss: Seq<Seq<char>>, i: int, acc: Seq<char>) -> Seq<char>
    decreases ss.len() - i,
{
    if i >= ss.len() {
        acc
    } else {
        join_from(ss, i + 1, acc + ss[i])
    }
}

/// The concatenation of `ss`, without separators.
pub open spec fn join_all(ss: Seq<Seq<char>>) -> Seq<char> {
    join_from(ss, 0, Seq::empty())
}

/// The fields of an account notification, when the value has its shape;
/// the payload segments come back joined.
pub open spec fn account_note_of(m: JsonModel) -> Option<(u64, u64, Seq<char>)> {
    let r = jget(m, key_result());
    let slot = opt_u64(jget_opt(jget_opt(r, key_context()), key_slot()));
    let acct = jget_opt(jget_opt(r, key_value()), key_account());
    let lam = opt_u64(jget_opt(acct, key_lamports()));
    let da = opt_str_arr(jget_opt(acct, key_data()));
    if slot is Some && lam is Some && da is Some {
        Some((slot.unwrap(), lam.unwrap(), join_all(da.unwrap())))
    } else {
        None
    }
}

/// How a decoded frame is classified: the envelope first — a fault if it
/// carries a well-formed error, an acknowledgment if it carries a result —
/// then the mode's notification shape, else unrecognized.
pub open spec fn classify_model(mode: Mode, m: JsonModel) -> ClassifiedModel {
    if env_shape(m) && err_field(m) is Fault {
        ClassifiedModel::RpcFault {
            code: err_field(m)->Fault_0,
            message: err_field(m)->Fault_1,
        }
    } else if env_shape(m) && err_field(m) is Absent && result_present(m) {
        ClassifiedModel::Ack
    } else {
        match mode {
            Mode::Logs => match logs_note_of(m) {
                Some((slot, sig, lg)) => ClassifiedModel::LogsNote {
                    slot,
                    signature: sig,
                    logs: lg,
                },
                None => ClassifiedModel::Unrecognized,
            },
            Mode::Account => match account_note_of(m) {
                Some((slot, lam, da)) => ClassifiedModel::AccountNote {
                    slot,
                    lamports: lam,
                    data: da,
                },
                None => ClassifiedModel::Unrecognized,
            },
        }
    }
}

/// The classification of a raw text frame: a text that is not of the
/// shapes the protocol uses is unrecognized.
pub open spec fn spec_classify(mode: Mode, text: Seq<char>) -> ClassifiedModel {
    match spec_parse(text) {
        None => ClassifiedModel::Unrecognized,
        Some(m) => classify_model(mode, m),
    }
}

/// The envelope's outcome: a fault, an acknowledgment, or nothing.
fn classify_envelope(v: &JsonValue) -> (r: Option<Classified>)
    ensures
        match r {
            Some(c) => (env_shape(model(*v)) && err_field(model(*v)) is Fault
                && classified_view(c) == (ClassifiedModel::RpcFault {
                code: err_field(model(*v))->Fault_0,
                message: err_field(model(*v))->Fault_1,
            })) || (env_shape(model(*v)) && err_field(model(*v)) is Absent && result_present(
                model(*v),
            ) && c is Ack),
            None => !(env_shape(model(*v)) && err_field(model(*v)) is Fault) && !(env_shape(
                model(*v),
            ) && err_field(model(*v)) is Absent && result_present(model(*v))),
        },
{
    proof {
        reveal_strlit("jsonrpc");
        reveal_strlit("id");
        reveal_strlit("error");
        reveal_strlit("result");
        reveal_strlit("code");
        reveal_strlit("message");
        assert("jsonrpc"@ =~= key_jsonrpc());
        assert("id"@ =~= key_id());
        assert("error"@ =~= key_error());
        assert("result"@ =~= key_result());
        assert("code"@ =~= key_code());
        assert("message"@ =~= key_message());
    }
    let has_version = match v.get("jsonrpc") {
        Some(JsonValue::Str(_)) => true,
        _ => false,
    };
    let has_id = match v.get("id") {
        Some(JsonValue::Num { neg, mag: _ }) => !*neg,
        _ => false,
    };
    if !(has_version && has_id) {
        return None;
    }
    match v.get("error") {
        None => {},
        Some(JsonValue::Null) => {},
        Some(e) => {
            match e {
                JsonValue::Obj(_) => {
                    let code: Option<i32> = match e.get("code") {
                        Some(JsonValue::Num { neg, mag }) => {
                            if !*neg && *mag <= 0x7fff_ffff {
                                Some(*mag as i32)
                            } else if *neg && *mag <= 0x8000_0000 {
                                Some((-(*mag as i64)) as i32)
                            } else {
                                None
                            }
                        },
                        _ => None,
                    };
                    let msg: Option<String> = match e.get("message") {
                        Some(JsonValue::Str(s)) => Some(s.clone()),
                        _ => None,
                    };
                    match (code, msg) {
                        (Some(c), Some(m)) => {
                            return Some(Classified::RpcFault { code: c, message: m });
                        },
                        _ => {
                            return None;
                        },
                    }
                },
                _ => {
                    return None;
                },
            }
        },
    }
    // No error member: an acknowledgment when a result is present.
    match v.get("result") {
        Some(JsonValue::Null) => None,
        Some(_) => Some(Classified::Ack),
        None => None,
    }
}

/// The logs notification's fields, when the value has its shape.
fn extract_logs_note(v: &JsonValue) -> (r: Option<(u64, String, Vec<String>)>)
    ensures
        match r {
            Some((slot, sig, lg)) => logs_note_of(model(*v)) == Some(
                (slot, sig@, lg.deep_view()),
            ),
            None => logs_note_of(model(*v)) is None,
        },
{
    proof {
        reveal_strlit("result");
        reveal_strlit("context");
        reveal_strlit("slot");
        reveal_strlit("value");
        reveal_strlit("signature");
        reveal_strlit("logs");
        assert("result"@ =~= key_result());
        assert("context"@ =~= key_context());
        assert("slot"@ =~= key_slot());
        assert("value"@ =~= key_value());
        assert("signature"@ =~= key_signature());
        assert("logs"@ =~= key_logs());
    }
    let rv = match v.get("result") {
        Some(r) => r,
        None => {
            return None;
        },
    };
    let ctx = match rv.get("context") {
        Some(c) => c,
        None => {
            return None;
        },
    };
    let slot = match ctx.get("slot") {
        Some(JsonValue::Num { neg, mag }) => {
            if *neg {
                return None;
            }
            *mag
        },
        _ => {
            return None;
        },
    };
    let val = match rv.get("value") {
        Some(c) => c,
        None => {
            return None;
        },
    };
    let sig = match val.get("signature") {
        Some(JsonValue::Str(s)) => s.clone(),
        _ => {
            return None;
        },
    };
    let lg = match val.get("logs") {
        Some(JsonValue::Arr(a)) => match as_string_items(a) {
            Some(x) => x,
            None => {
                return None;
            },
        },
        _ => {
            return None;
        },
    };
    Some((slot, sig, lg))
}

/// The concatenation of `parts` without separators.
fn join_strings(parts: &Vec<String>) -> (r: String)
    ensures
        r@ == join_all(parts.deep_view()),
{
    let ghost dv = parts.deep_view();
    let mut out = String::new();
    let mut i: usize = 0;
    proof {
        assert(out@ =~= Seq::<char>::empty());
    }
    while i < parts.len()
        invariant
            i <= parts.len(),
            dv == parts.deep_view(),
            dv.len() == parts@.len(),
            join_all(dv) == join_from(dv, i as int, out@),
        decreases parts.len() - i,
    {
        proof {
            assert(dv[i as int] =~= parts@[i as int]@);
        }
        out.append(parts[i].as_str());
        i = i + 1;
    }
    out
}

/// The account notification's fields, when the value has its shape.
fn extract_account_note(v: &JsonValue) -> (r: Option<(u64, u64, String)>)
    ensures
        match r {
            Some((slot, lam, da)) => account_note_of(model(*v)) == Some((slot, lam, da@)),
            None => account_note_of(model(*v)) is None,
        },
{
    proof {
        reveal_strlit("result");
        reveal_strlit("context");
        reveal_strlit("slot");
        reveal_strlit("value");
        reveal_strlit("account");
        reveal_strlit("lamports");
        reveal_strlit("data");
        assert("result"@ =~= key_result());
        assert("context"@ =~= key_context());
        assert("slot"@ =~= key_slot());
        assert("value"@ =~= key_value());
        assert("account"@ =~= key_account());
        assert("lamports"@ =~= key_lamports());
        assert("data"@ =~= key_data());
    }
    let rv = match v.get("result") {
        Some(r) => r,
        None => {
            return None;
        },
    };
    let ctx = match rv.get("context") {
        Some(c) => c,
        None => {
            return None;
        },
    };
    let slot = match ctx.get("slot") {
        Some(JsonValue::Num { neg, mag }) => {
            if *neg {
                return None;
            }
            *mag
        },
        _ => {
            return None;
        },
    };
    let val = match rv.get("value") {
        Some(c) => c,
        None => {
            return None;
        },
    };
    let acct = match val.get("account") {
        Some(c) => c,
        None => {
            return None;
        },
    };
    let lamports = match acct.get("lamports") {
        Some(JsonValue::Num { neg, mag }) => {
            if *neg {
                return None;
            }
            *mag
        },
        _ => {
            return None;
        },
    };
    let parts = match acct.get("data") {
        Some(JsonValue::Arr(a)) => match as_string_items(a) {
            Some(x) => x,
            None => {
                return None;
            },
        },
        _ => {
            return None;
        },
    };
    let data = join_strings(&parts);
    Some((slot, lamports, data))
}

// ------------------------------------------------------------------
// Program id inference from the first log line.
// ------------------------------------------------------------------

/// The literal token a program log line opens with.
pub open spec fn program_prefix() -> Seq<char> {
    seq!['P', 'r', 'o', 'g', 'r', 'a', 'm', ' ']
}

/// Whether the line begins with the literal token "Program ".
pub open spec fn starts_with_program(s: Seq<char>) -> bool {
    s.len() >= 8 && s.subrange(0, 8) == program_prefix()
}

/// The whitespace-separated tokens of `s`, reading from `i` with the
/// token built so far and the tokens already complete.
pub open spec fn ws_tokens_from(
    s: Seq<char>,
    i: int,
    cur: Seq<char>,
    acc: Seq<Seq<char>>,
) -> Seq<Seq<char>>
    decreases s.len() - i,
{
    if i >= s.len() {
        if cur.len() > 0 {
            acc.push(cur)
        } else {
            acc
        }
    } else if is_space(s[i]) {
        if cur.len() > 0 {
            ws_tokens_from(s, i + 1, Seq::empty(), acc.push(cur))
        } else {
            ws_tokens_from(s, i + 1, Seq::empty(), acc)
        }
    } else {
        ws_tokens_from(s, i + 1, cur.push(s[i]), acc)
    }
}

/// The whitespace-separated tokens of `s`.
pub open spec fn ws_tokens(s: Seq<char>) -> Seq<Seq<char>> {
    ws_tokens_from(s, 0, Seq::empty(), Seq::empty())
}

/// The sentinel for a program id the frame does not carry.
pub open spec fn unknown_text() -> Seq<char> {
    seq!['u', 'n', 'k', 'n', 'o', 'w', 'n']
}

/// The program id a logs notification implies: when the first log line
/// begins with "Program " and has at least three whitespace-separated
/// tokens, the third token; otherwise the sentinel "unknown". A design
/// compromise kept exactly, failure mode included.
pub open spec fn program_id_of(logs: Seq<Seq<char>>) -> Seq<char> {
    if logs.len() > 0 && starts_with_program(logs[0]) && ws_tokens(logs[0]).len() >= 3 {
        ws_tokens(logs[0])[2]
    } else {
        unknown_text()
    }
}

/// Infer the program id from the log lines.
#[verifier::loop_isolation(false)]
pub fn extract_program_id(logs: &Vec<String>) -> (r: String)
    ensures
        r@ == program_id_of(logs.deep_view()),
{
    proof {
        reveal_strlit("unknown");
        assert("unknown"@ =~= unknown_text());
    }
    if logs.len() == 0 {
        return String::from_str("unknown");
    }
    proof {
        assert(logs.deep_view()[0] =~= logs@[0]@);
    }
    let cs = crate::text::str_chars(logs[0].as_str());
    let pref_ok: bool = cs.len() >= 8 && cs[0] == 'P' && cs[1] == 'r' && cs[2] == 'o' && cs[3]
        == 'g' && cs[4] == 'r' && cs[5] == 'a' && cs[6] == 'm' && cs[7] == ' ';
    proof {
        if cs@.len() >= 8 {
            assert(cs@.subrange(0, 8)[0] == cs@[0]);
            assert(cs@.subrange(0, 8)[1] == cs@[1]);
            assert(cs@.subrange(0, 8)[2] == cs@[2]);
            assert(cs@.subrange(0, 8)[3] == cs@[3]);
            assert(cs@.subrange(0, 8)[4] == cs@[4]);
            assert(cs@.subrange(0, 8)[5] == cs@[5]);
            assert(cs@.subrange(0, 8)[6] == cs@[6]);
            assert(cs@.subrange(0, 8)[7] == cs@[7]);
            if pref_ok {
                assert(cs@.subrange(0, 8) =~= program_prefix());
            }
        }
        assert(pref_ok == starts_with_program(cs@));
    }
    let mut toks: Vec<Vec<char>> = Vec::new();
    let mut cur: Vec<char> = Vec::new();
    let mut i: usize = 0;
    proof {
        assert(toks.deep_view() =~~= Seq::<Seq<char>>::empty());
        assert(cur@ =~= Seq::<char>::empty());
    }
    while i < cs.len()
        invariant
            i <= cs.len(),
            ws_tokens(cs@) == ws_tokens_from(cs@, i as int, cur@, toks.deep_view()),
        decreases cs.len() - i,
    {
        if crate::config::is_space_char(cs[i]) {
            if cur.len() > 0 {
                let ghost t0 = toks.deep_view();
                let ghost c0 = cur@;
                toks.push(cur);
                cur = Vec::new();
                proof {
                    assert(toks.deep_view() =~~= t0.push(c0));
                }
            } else {
                proof {
                    assert(cur@ =~= Seq::<char>::empty());
                }
            }
        } else {
            cur.push(cs[i]);
        }
        i = i + 1;
    }
    if cur.len() > 0 {
        let ghost t0 = toks.deep_view();
        let ghost c0 = cur@;
        toks.push(cur);
        proof {
            assert(toks.deep_view() =~~= t0.push(c0));
        }
    }
    proof {
        assert(ws_tokens(cs@) == toks.deep_view());
    }
    if pref_ok && toks.len() >= 3 {
        proof {
            assert(toks.deep_view()[2] =~= toks@[2]@);
        }
        crate::text::chars_string(&toks[2])
    } else {
        String::from_str("unknown")
    }
}

/// Classify one raw text frame for the given mode.
pub fn classify_frame(mode: Mode, text: &str) -> (r: Classified)
    ensures
        classified_view(r) == spec_classify(mode, text@),
{
    let v = match parse_json_text(text) {
        None => {
            return Classified::Unrecognized;
        },
        Some(v) => v,
    };
    match classify_envelope(&v) {
        Some(c) => c,
        None => {
            match mode {
                Mode::Logs => {
                    match extract_logs_note(&v) {
                        Some((slot, signature, logs)) => Classified::LogsNote {
                            slot,
                            signature,
                            logs,
                        },
                        None => Classified::Unrecognized,
                    }
                },
                Mode::Account => {
                    match extract_account_note(&v) {
                        Some((slot, lamports, data)) => Classified::AccountNote {
                            slot,
                            lamports,
                            data,
                        },
                        None => Classified::Unrecognized,
                    }
                },
            }
        },
    }
}

// ------------------------------------------------------------------
// Outbound subscribe requests.
// ------------------------------------------------------------------

pub open spec fn key_method() -> Seq<char> {
    seq!['m', 'e', 't', 'h', 'o', 'd']
}

pub open spec fn key_params() -> Seq<char> {
    seq!['p', 'a', 'r', 'a', 'm', 's']
}

pub open spec fn key_mentions() -> Seq<char> {
    seq!['m', 'e', 'n', 't', 'i', 'o', 'n', 's']
}

pub open spec fn key_commitment() -> Seq<char> {
    seq!['c', 'o', 'm', 'm', 'i', 't', 'm', 'e', 'n', 't']
}

pub open spec fn key_encoding() -> Seq<char> {
    seq!['e', 'n', 'c', 'o', 'd', 'i', 'n', 'g']
}

pub open spec fn text_version() -> Seq<char> {
    seq!['2', '.', '0']
}

pub open spec fn text_base64() -> Seq<char> {
    seq!['b', 'a', 's', 'e', '6', '4']
}

pub open spec fn method_logs_subscribe() -> Seq<char> {
    seq!['l', 'o', 'g', 's', 'S', 'u', 'b', 's', 'c', 'r', 'i', 'b', 'e']
}

pub open spec fn method_account_subscribe() -> Seq<char> {
    seq!['a', 'c', 'c', 'o', 'u', 'n', 't', 'S', 'u', 'b', 's', 'c', 'r', 'i', 'b', 'e']
}

/// The logs subscribe request for one program, with the given id.
pub open spec fn logs_subscribe_model(pid: Seq<char>, c: Commitment, id: u64) -> JsonModel {
    JsonModel::Obj(
        seq![
            (key_jsonrpc(), JsonModel::Str(text_version())),
            (key_id(), JsonModel::Num { neg: false, mag: id }),
            (key_method(), JsonModel::Str(method_logs_subscribe())),
            (
                key_params(),
                JsonModel::Obj(
                    seq![
                        (key_mentions(), JsonModel::Arr(seq![JsonModel::Str(pid)])),
                        (key_commitment(), JsonModel::Str(commitment_text(c))),
                    ],
                ),
            ),
        ],
    )
}

/// The account subscribe request for one account, with the given id.
pub open spec fn account_subscribe_model(acct: Seq<char>, c: Commitment, id: u64) -> JsonModel {
    JsonModel::Obj(
        seq![
            (key_jsonrpc(), JsonModel::Str(text_version())),
            (key_id(), JsonModel::Num { neg: false, mag: id }),
            (key_method(), JsonModel::Str(method_account_subscribe())),
            (
                key_params(),
                JsonModel::Obj(
                    seq![
                        (key_account(), JsonModel::Str(acct)),
                        (key_commitment(), JsonModel::Str(commitment_text(c))),
                        (key_encoding(), JsonModel::Str(text_base64())),
                    ],
                ),
            ),
        ],
    )
}

/// The serialized logs subscribe request.
#[verifier::rlimit(100)]
pub fn build_logs_subscribe(program_id: &str, commitment: Commitment, id: u64) -> (r: String)
    ensures
        r@ == spec_ser(logs_subscribe_model(program_id@, commitment, id)),
{
    let mut mentions: Vec<JsonValue> = Vec::new();
    mentions.push(JsonValue::Str(String::from_str(program_id)));
    let ghost mv = mentions;
    let mut params: Vec<(String, JsonValue)> = Vec::new();
    params.push((String::from_str("mentions"), JsonValue::Arr(mentions)));
    params.push(
        (String::from_str("commitment"), JsonValue::Str(String::from_str(commitment.as_str()))),
    );
    let ghost pv = params;
    let mut ms: Vec<(String, JsonValue)> = Vec::new();
    ms.push((String::from_str("jsonrpc"), JsonValue::Str(String::from_str("2.0"))));
    ms.push((String::from_str("id"), JsonValue::Num { neg: false, mag: id }));
    ms.push((String::from_str("method"), JsonValue::Str(String::from_str("logsSubscribe"))));
    ms.push((String::from_str("params"), JsonValue::Obj(params)));
    let ghost msv = ms;
    let v = JsonValue::Obj(ms);
    proof {
        reveal_strlit("jsonrpc");
        reveal_strlit("id");
        reveal_strlit("method");
        reveal_strlit("params");
        reveal_strlit("mentions");
        reveal_strlit("commitment");
        reveal_strlit("2.0");
        reveal_strlit("logsSubscribe");
        assert("jsonrpc"@ =~= key_jsonrpc());
        assert("id"@ =~= key_id());
        assert("method"@ =~= key_method());
        assert("params"@ =~= key_params());
        assert("mentions"@ =~= key_mentions());
        assert("commitment"@ =~= key_commitment());
        assert("2.0"@ =~= text_version());
        assert("logsSubscribe"@ =~= method_logs_subscribe());
        reveal_with_fuel(obj_model_from, 6);
        reveal_with_fuel(arr_model_from, 3);
        assert(arr_model_from(mv, 0) =~= seq![JsonModel::Str(program_id@)]);
        assert(obj_model_from(pv, 0) =~= logs_subscribe_model(
            program_id@,
            commitment,
            id,
        )->Obj_0[3].1->Obj_0);
        assert(obj_model_from(msv, 0) =~= logs_subscribe_model(program_id@, commitment, id)->Obj_0);
        assert(model(v) == logs_subscribe_model(program_id@, commitment, id));
    }
    to_json_text(&v)
}

/// The serialized account subscribe request.
#[verifier::rlimit(100)]
pub fn build_account_subscribe(account: &str, commitment: Commitment, id: u64) -> (r: String)
    ensures
        r@ == spec_ser(account_subscribe_model(account@, commitment, id)),
{
    let mut params: Vec<(String, JsonValue)> = Vec::new();
    params.push((String::from_str("account"), JsonValue::Str(String::from_str(account))));
    params.push(
        (String::from_str("commitment"), JsonValue::Str(String::from_str(commitment.as_str()))),
    );
    params.push((String::from_str("encoding"), JsonValue::Str(String::from_str("base64"))));
    let ghost pv = params;
    let mut ms: Vec<(String, JsonValue)> = Vec::new();
    ms.push((String::from_str("jsonrpc"), JsonValue::Str(String::from_str("2.0"))));
    ms.push((String::from_str("id"), JsonValue::Num { neg: false, mag: id }));
    ms.push((String::from_str("method"), JsonValue::Str(String::from_str("accountSubscribe"))));
    ms.push((String::from_str("params"), JsonValue::Obj(params)));
    let ghost msv = ms;
    let v = JsonValue::Obj(ms);
    proof {
        reveal_strlit("jsonrpc");
        reveal_strlit("id");
        reveal_strlit("method");
        reveal_strlit("params");
        reveal_strlit("account");
        reveal_strlit("commitment");
        reveal_strlit("encoding");
        reveal_strlit("2.0");
        reveal_strlit("base64");
        reveal_strlit("accountSubscribe");
        assert("jsonrpc"@ =~= key_jsonrpc());
        assert("id"@ =~= key_id());
        assert("method"@ =~= key_method());
        assert("params"@ =~= key_params());
        assert("account"@ =~= key_account());
        assert("commitment"@ =~= key_commitment());
        assert("encoding"@ =~= key_encoding());
        assert("2.0"@ =~= text_version());
        assert("base64"@ =~= text_base64());
        assert("accountSubscribe"@ =~= method_account_subscribe());
        reveal_with_fuel(obj_model_from, 6);
        assert(obj_model_from(pv, 0) =~= account_subscribe_model(
            account@,
            commitment,
            id,
        )->Obj_0[3].1->Obj_0);
        assert(obj_model_from(msv, 0) =~= account_subscribe_model(
            account@,
            commitment,
            id,
        )->Obj_0);
        assert(model(v) == account_subscribe_model(account@, commitment, id));
    }
    to_json_text(&v)
}

/// The subscription target a session subscribes to: one program's logs,
/// or an ordered set of accounts.
#[derive(Debug)]
pub enum Targets {
    Program(String),
    Accounts(Vec<String>),
}

/// The subscribe request texts for the target, one per subscription,
/// with ids counting up from 1.
#[verifier::loop_isolation(false)]
pub fn subscribe_requests(targets: &Targets, commitment: Commitment) -> (r: Vec<String>)
    ensures
        match targets {
            Targets::Program(pid) => r.deep_view() == seq![
                spec_ser(logs_subscribe_model(pid@, commitment, 1)),
            ],
            Targets::Accounts(ax) => r.len() == ax.len() && forall|i: int|
                0 <= i < ax.len() ==> r.deep_view()[i] == spec_ser(
                    account_subscribe_model(ax.deep_view()[i], commitment, (i + 1) as u64),
                ),
        },
{
    match targets {
        Targets::Program(pid) => {
            let mut r: Vec<String> = Vec::new();
            let req = build_logs_subscribe(pid.as_str(), commitment, 1);
            let ghost rv = req@;
            r.push(req);
            proof {
                assert(r.deep_view() =~~= seq![rv]);
            }
            r
        },
        Targets::Accounts(ax) => {
            let mut r: Vec<String> = Vec::new();
            let mut i: usize = 0;
            while i < ax.len()
                invariant
                    i <= ax.len(),
                    r.len() == i,
                    forall|k: int|
                        0 <= k < i ==> r.deep_view()[k] == spec_ser(
                            account_subscribe_model(
                                ax.deep_view()[k],
                                commitment,
                                (k + 1) as u64,
                            ),
                        ),
                decreases ax.len() - i,
            {
                proof {
                    assert(ax.deep_view()[i as int] =~= ax@[i as int]@);
                }
                let id: u64 = (i as u64) + 1;
                let req = build_account_subscribe(ax[i].as_str(), commitment, id);
                let ghost r0 = r.deep_view();
                let ghost rv = req@;
                r.push(req);
                proof {
                    assert(r.deep_view() =~~= r0.push(rv));
                }
                i = i + 1;
            }
            r
        },
    }
}

// ------------------------------------------------------------------
// The session state machine.
// ------------------------------------------------------------------

/// The states one subscription session passes through; no transition
/// returns to an earlier state.
#[derive(Debug, Clone, Copy, PartialEq, Eq, Structural)]
pub enum SessionState {
    Connecting,
    Subscribed,
    Streaming,
    Terminated,
}

/// One inbound frame, as the transport hands it over.
#[derive(Debug)]
pub enum Frame {
    /// A text frame: a protocol message.
    Text(String),
    /// A protocol-level ping carrying its payload.
    Ping(Vec<u8>),
    /// A pong: a no-op.
    Pong,
    /// An unexpected binary frame: ignored.
    Binary,
    /// A graceful close from the remote peer: fatal.
    Close,
    /// A low-level framing control message: a no-op.
    Other,
}

/// Why a session ended; every end is a failure to be retried.
#[derive(Debug)]
pub enum SessionError {
    /// The remote answered with an RPC error envelope.
    RpcFault { code: i32, message: String },
    /// A pong could not be sent.
    PongSendFailed,
    /// The remote closed the connection.
    RemoteClosed,
    /// A transport-level read error.
    Transport,
    /// The inbound stream ended without a close.
    StreamEnded,
}

impl SessionError {
    /// A short description of the failure.
    pub fn message(&self) -> (r: &'static str) {
        match self {
            SessionError::RpcFault { .. } => "RPC error reported by the remote",
            SessionError::PongSendFailed => "failed to send pong",
            SessionError::RemoteClosed => "connection closed by the remote",
            SessionError::Transport => "transport read error",
            SessionError::StreamEnded => "inbound stream ended",
        }
    }
}

/// What the caller must do after one frame is handled.
#[derive(Debug)]
pub enum StepAction {
    /// Nothing: read the next frame.
    Proceed,
    /// Answer the ping with this payload.
    SendPong(Vec<u8>),
    /// Append this record to the sink, then report the outcome.
    Emit(String),
    /// The session is over; hand the error to the supervisor.
    Fatal(SessionError),
}

/// One live subscription session.
#[derive(Debug)]
pub struct Session {
    /// The mode whose notifications this session extracts.
    pub mode: Mode,
    /// Where in its lifecycle the session stands.
    pub state: SessionState,
}

/// A log event record line for these notification fields, at some
/// timestamp, with the program id the heuristic infers.
pub open spec fn is_log_record_line(
    line: Seq<char>,
    sig: Seq<char>,
    slot: u64,
    logs: Seq<Seq<char>>,
) -> bool {
    exists|ts: Seq<char>|
        line == spec_ser(log_record_model(ts, sig, slot, program_id_of(logs), logs)) + seq!['\n']
}

/// An account event record line for these notification fields, at some
/// timestamp, with the sentinel public key.
pub open spec fn is_account_record_line(
    line: Seq<char>,
    slot: u64,
    lamports: u64,
    data: Seq<char>,
) -> bool {
    exists|ts: Seq<char>|
        line == spec_ser(account_record_model(ts, unknown_text(), slot, lamports, data)) + seq![
            '\n',
        ]
}

/// What handling one text frame yields: a fault ends the session and
/// counts one error; a matching notification emits exactly one record
/// and leaves the counters alone; anything else changes nothing.
pub open spec fn text_step_ok(
    mode: Mode,
    t: Seq<char>,
    m0: Metrics,
    m1: Metrics,
    st: SessionState,
    r: StepAction,
) -> bool {
    let c = spec_classify(mode, t);
    &&& m1.events_total == m0.events_total
    &&& (c matches ClassifiedModel::RpcFault { code, message } ==> {
        &&& r matches StepAction::Fatal(SessionError::RpcFault { code: rc, message: rm }) && rc
            as int == code && rm@ == message
        &&& st is Terminated
        &&& m1.errors_total == bumped(m0.errors_total)
        &&& m1.ws_connected == m0.ws_connected
    })
    &&& (c matches ClassifiedModel::LogsNote { slot, signature, logs } ==> {
        &&& r matches StepAction::Emit(line) && is_log_record_line(line@, signature, slot, logs)
        &&& st is Streaming
        &&& m1 == m0
    })
    &&& (c matches ClassifiedModel::AccountNote { slot, lamports, data } ==> {
        &&& r matches StepAction::Emit(line) && is_account_record_line(line@, slot, lamports, data)
        &&& st is Streaming
        &&& m1 == m0
    })
    &&& (c is Ack ==> r is Proceed && st is Streaming && m1 == m0)
    &&& (c is Unrecognized ==> r is Proceed && st is Streaming && m1 == m0)
}

impl Session {
    /// A session about to connect; the liveness gauge goes down until the
    /// transport handshake succeeds.
    pub fn start(mode: Mode, metrics: &mut Metrics) -> (r: Session)
        ensures
            r.mode == mode,
            r.state is Connecting,
            !final(metrics).ws_connected,
            final(metrics).events_total == old(metrics).events_total,
            final(metrics).errors_total == old(metrics).errors_total,
    {
        metrics.set_connected(false);
        Session { mode, state: SessionState::Connecting }
    }

    /// The transport handshake succeeded: the liveness gauge goes up and
    /// the subscribe requests go out.
    pub fn on_connected(&mut self, metrics: &mut Metrics)
        requires
            old(self).state is Connecting,
        ensures
            final(self).mode == old(self).mode,
            final(self).state is Subscribed,
            final(metrics).ws_connected,
            final(metrics).events_total == old(metrics).events_total,
            final(metrics).errors_total == old(metrics).errors_total,
    {
        metrics.set_connected(true);
        self.state = SessionState::Subscribed;
    }

    /// The subscribe requests are flushed: frames are processed without
    /// waiting for acknowledgments.
    pub fn begin_streaming(&mut self)
        requires
            old(self).state is Subscribed,
        ensures
            final(self).mode == old(self).mode,
            final(self).state is Streaming,
    {
        self.state = SessionState::Streaming;
    }

    /// Handle one inbound text frame. A matching notification yields
    /// exactly one record to append; an RPC error envelope counts one
    /// error and ends the session; an acknowledgment or an unrecognized
    /// shape leaves everything unchanged.
    #[verifier::rlimit(100)]
    #[verifier::spinoff_prover]
    pub fn on_text(&mut self, t: &str, metrics: &mut Metrics) -> (r: StepAction)
        requires
            old(self).state is Streaming,
        ensures
            final(self).mode == old(self).mode,
            text_step_ok(old(self).mode, t@, *old(metrics), *final(metrics), final(self).state, r),
    {
        let ghost m0 = *old(metrics);
        let c = classify_frame(self.mode, t);
        match c {
            Classified::RpcFault { code, message } => {
                metrics.inc_errors();
                self.state = SessionState::Terminated;
                let r = StepAction::Fatal(SessionError::RpcFault { code, message });
                proof {
                    assert(text_step_ok(old(self).mode, t@, m0, *metrics, self.state, r));
                }
                r
            },
            Classified::LogsNote { slot, signature, logs } => {
                let ts = now_rfc3339();
                let pid = extract_program_id(&logs);
                let e = LogEvent::new(ts, signature, slot, pid, logs);
                let line = record_line(&e.to_json());
                proof {
                    assert(line@ == spec_ser(
                        log_record_model(
                            e.timestamp@,
                            e.signature@,
                            e.slot,
                            e.program_id@,
                            e.logs.deep_view(),
                        ),
                    ) + seq!['\n']);
                    assert(is_log_record_line(line@, e.signature@, e.slot, e.logs.deep_view()));
                }
                let r = StepAction::Emit(line);
                proof {
                    assert(text_step_ok(old(self).mode, t@, m0, *metrics, self.state, r));
                }
                r
            },
            Classified::AccountNote { slot, lamports, data } => {
                let ts = now_rfc3339();
                let pk = String::from_str("unknown");
                proof {
                    reveal_strlit("unknown");
                    assert("unknown"@ =~= unknown_text());
                }
                let e = AccountEvent::new(ts, pk, slot, lamports, data);
                let line = record_line(&e.to_json());
                proof {
                    assert(line@ == spec_ser(
                        account_record_model(e.timestamp@, e.pubkey@, e.slot, e.lamports, e.data@),
                    ) + seq!['\n']);
                    assert(is_account_record_line(line@, e.slot, e.lamports, e.data@));
                }
                let r = StepAction::Emit(line);
                proof {
                    assert(text_step_ok(old(self).mode, t@, m0, *metrics, self.state, r));
                }
                r
            },
            Classified::Ack => {
                let r = StepAction::Proceed;
                proof {
                    assert(text_step_ok(old(self).mode, t@, m0, *metrics, self.state, r));
                }
                r
            },
            Classified::Unrecognized => {
                let r = StepAction::Proceed;
                proof {
                    assert(text_step_ok(old(self).mode, t@, m0, *metrics, self.state, r));
                }
                r
            },
        }
    }

    /// Handle one inbound frame while streaming: text frames are
    /// classified; a ping is answered with a matching pong; a pong, a
    /// binary frame and low-level control frames are no-ops; a close
    /// from the remote ends the session and drops the liveness gauge.
    pub fn on_frame(&mut self, frame: Frame, metrics: &mut Metrics) -> (r: StepAction)
        requires
            old(self).state is Streaming,
        ensures
            final(self).mode == old(self).mode,
            final(metrics).events_total == old(metrics).events_total,
            match frame {
                Frame::Text(t) => text_step_ok(
                    old(self).mode,
                    t@,
                    *old(metrics),
                    *final(metrics),
                    final(self).state,
                    r,
                ),
                Frame::Ping(d) => r matches StepAction::SendPong(p) && p@ == d@ && final(self).state is Streaming && *final(metrics) == *old(metrics),
                Frame::Pong => r is Proceed && final(self).state is Streaming && *final(metrics)
                    == *old(metrics),
                Frame::Binary => r is Proceed && final(self).state is Streaming && *final(metrics) == *old(metrics),
                Frame::Other => r is Proceed && final(self).state is Streaming && *final(metrics)
                    == *old(metrics),
                Frame::Close => r matches StepAction::Fatal(SessionError::RemoteClosed) && final(self).state is Terminated && !final(metrics).ws_connected && final(metrics).errors_total == old(metrics).errors_total,
            },
    {
        match frame {
            Frame::Text(t) => self.on_text(t.as_str(), metrics),
            Frame::Ping(d) => StepAction::SendPong(d),
            Frame::Pong => StepAction::Proceed,
            Frame::Binary => StepAction::Proceed,
            Frame::Other => StepAction::Proceed,
            Frame::Close => {
                metrics.set_connected(false);
                self.state = SessionState::Terminated;
                StepAction::Fatal(SessionError::RemoteClosed)
            },
        }
    }

    /// Report how appending an emitted record went: success counts the
    /// event, failure counts an error; either way the session goes on.
    pub fn after_append(&mut self, ok: bool, metrics: &mut Metrics)
        requires
            old(self).state is Streaming,
        ensures
            *final(self) == *old(self),
            final(metrics).ws_connected == old(metrics).ws_connected,
            ok ==> final(metrics).events_total == bumped(old(metrics).events_total) && final(metrics).errors_total == old(metrics).errors_total,
            !ok ==> final(metrics).errors_total == bumped(old(metrics).errors_total) && final(metrics).events_total == old(metrics).events_total,
    {
        if ok {
            metrics.inc_events();
        } else {
            metrics.inc_errors();
        }
    }

    /// A transport-level read error: fatal; the liveness gauge goes down
    /// and one error is counted.
    pub fn on_read_error(&mut self, metrics: &mut Metrics) -> (r: SessionError)
        ensures
            final(self).mode == old(self).mode,
            final(self).state is Terminated,
            r is Transport,
            !final(metrics).ws_connected,
            final(metrics).errors_total == bumped(old(metrics).errors_total),
            final(metrics).events_total == old(metrics).events_total,
    {
        metrics.inc_errors();
        metrics.set_connected(false);
        self.state = SessionState::Terminated;
        SessionError::Transport
    }

    /// The inbound stream ended without a close: fatal.
    pub fn on_stream_end(&mut self) -> (r: SessionError)
        ensures
            final(self).mode == old(self).mode,
            final(self).state is Terminated,
            r is StreamEnded,
    {
        self.state = SessionState::Terminated;
        SessionError::StreamEnded
    }

    /// A pong could not be sent: fatal.
    pub fn on_pong_failure(&mut self) -> (r: SessionError)
        ensures
            final(self).mode == old(self).mode,
            final(self).state is Terminated,
            r is PongSendFailed,
    {
        self.state = SessionState::Terminated;
        SessionError::PongSendFailed
    }
}

// ------------------------------------------------------------------
// The reconnect supervisor.
// ------------------------------------------------------------------

/// The outer loop's state: only the backoff attempt counter survives a
/// session.
#[derive(Debug, Clone, Copy, PartialEq, Eq, Structural)]
pub struct Supervisor {
    /// Reconnect attempts since the last reset.
    pub attempt: u32,
}

impl Supervisor {
    /// A supervisor that has not yet retried.
    pub fn new() -> (r: Supervisor)
        ensures
            r.attempt == 0,
    {
        Supervisor { attempt: 0 }
    }

    /// Check the configuration and resolve the subscription target; the
    /// one unrecoverable error class, found before any connection attempt.
    pub fn prepare(config: &Config) -> (r: Result<Targets, ConfigError>)
        ensures
            (config.mode is Logs && config.program_id is None) ==> r == Err::<
                Targets,
                ConfigError,
            >(ConfigError::MissingProgramId),
            (config.mode is Account && config.accounts is None) ==> r == Err::<
                Targets,
                ConfigError,
            >(ConfigError::MissingAccounts),
            (config.mode is Account && config.accounts is Some && spec_accounts(
                config.accounts,
            ).len() == 0) ==> r == Err::<Targets, ConfigError>(ConfigError::NoAccountTargets),
            (config.mode is Logs && config.program_id is Some) ==> (r matches Ok(
                Targets::Program(p),
            ) && p@ == config.program_id.unwrap()@),
            (config.mode is Account && config.accounts is Some && spec_accounts(
                config.accounts,
            ).len() > 0) ==> (r matches Ok(Targets::Accounts(ax)) && ax.deep_view()
                == spec_accounts(config.accounts)),
    {
        match config.mode {
            Mode::Logs => match &config.program_id {
                Some(p) => Ok(Targets::Program(p.clone())),
                None => Err(ConfigError::MissingProgramId),
            },
            Mode::Account => {
                if config.accounts.is_none() {
                    return Err(ConfigError::MissingAccounts);
                }
                let accounts = match config.parse_accounts() {
                    Ok(a) => a,
                    Err(e) => {
                        return Err(e);
                    },
                };
                if accounts.len() == 0 {
                    proof {
                        assert(accounts.deep_view().len() == 0);
                    }
                    return Err(ConfigError::NoAccountTargets);
                }
                proof {
                    assert(accounts.deep_view().len() > 0);
                }
                Ok(Targets::Accounts(accounts))
            },
        }
    }

    /// A session failed: count the error, drop the liveness gauge, and
    /// say how long to wait before the next attempt. The delay follows
    /// the capped exponential backoff; the attempt counter advances and
    /// resets every ten attempts.
    pub fn on_session_failure(&mut self, metrics: &mut Metrics) -> (delay: u64)
        requires
            old(self).attempt < 10,
        ensures
            delay == backoff_secs(old(self).attempt, 30),
            final(self).attempt == next_attempt(old(self).attempt),
            final(self).attempt < 10,
            final(metrics).errors_total == bumped(old(metrics).errors_total),
            !final(metrics).ws_connected,
            final(metrics).events_total == old(metrics).events_total,
    {
        metrics.inc_errors();
        metrics.set_connected(false);
        let delay = calculate_backoff(self.attempt, 30);
        self.attempt = advance_attempt(self.attempt);
        delay
    }
}

} // verus!
