//! Normalized event records and their JSON shapes.

use vstd::prelude::*;
use crate::json::{
    JsonValue, JsonModel, model, jget, obj_model_from, arr_model_from, str_items_from,
    as_string_items, lemma_arr_model_push, lemma_arr_model_from,
};
use vstd::string::*;

verus! {

/// Log event from a program: one notification, normalized.
#[derive(Debug)]
pub struct LogEvent {
    /// RFC3339 timestamp taken at parse time.
    pub timestamp: String,
    /// Transaction signature.
    pub signature: String,
    /// Slot number.
    pub slot: u64,
    /// Program id, inferred from the first log line, or "unknown".
    pub program_id: String,
    /// The log lines, in order.
    pub logs: Vec<String>,
}

/// Account event: one account update, normalized.
#[derive(Debug)]
pub struct AccountEvent {
    /// RFC3339 timestamp taken at parse time.
    pub timestamp: String,
    /// Public key of the account, or "unknown" when the frame does not
    /// carry one.
    pub pubkey: String,
    /// Slot number.
    pub slot: u64,
    /// Account balance in lamports.
    pub lamports: u64,
    /// Base64 payload segments, concatenated.
    pub data: String,
}

pub open spec fn key_timestamp() -> Seq<char> {
    seq!['t', 'i', 'm', 'e', 's', 't', 'a', 'm', 'p']
}

pub open spec fn key_signature() -> Seq<char> {
    seq!['s', 'i', 'g', 'n', 'a', 't', 'u', 'r', 'e']
}

pub open spec fn key_slot() -> Seq<char> {
    seq!['s', 'l', 'o', 't']
}

pub open spec fn key_program_id() -> Seq<char> {
    seq!['p', 'r', 'o', 'g', 'r', 'a', 'm', '_', 'i', 'd']
}

pub open spec fn key_logs() -> Seq<char> {
    seq!['l', 'o', 'g', 's']
}

pub open spec fn key_pubkey() -> Seq<char> {
    seq!['p', 'u', 'b', 'k', 'e', 'y']
}

pub open spec fn key_lamports() -> Seq<char> {
    seq!['l', 'a', 'm', 'p', 'o', 'r', 't', 's']
}

pub open spec fn key_data() -> Seq<char> {
    seq!['d', 'a', 't', 'a']
}

/// The JSON shape of a log event record, from its fields.
pub open spec fn log_record_model(
    ts: Seq<char>,
    sig: Seq<char>,
    slot: u64,
    pid: Seq<char>,
    logs: Seq<Seq<char>>,
) -> JsonModel {
    JsonModel::Obj(
        seq![
            (key_timestamp(), JsonModel::Str(ts)),
            (key_signature(), JsonModel::Str(sig)),
            (key_slot(), JsonModel::Num { neg: false, mag: slot }),
            (key_program_id(), JsonModel::Str(pid)),
            (key_logs(), JsonModel::Arr(logs.map_values(|l: Seq<char>| JsonModel::Str(l)))),
        ],
    )
}

/// The JSON shape of a log event record.
pub open spec fn log_event_model(e: LogEvent) -> JsonModel {
    log_record_model(e.timestamp@, e.signature@, e.slot, e.program_id@, e.logs.deep_view())
}

/// The JSON shape of an account event record, from its fields.
pub open spec fn account_record_model(
    ts: Seq<char>,
    pk: Seq<char>,
    slot: u64,
    lamports: u64,
    data: Seq<char>,
) -> JsonModel {
    JsonModel::Obj(
        seq![
            (key_timestamp(), JsonModel::Str(ts)),
            (key_pubkey(), JsonModel::Str(pk)),
            (key_slot(), JsonModel::Num { neg: false, mag: slot }),
            (key_lamports(), JsonModel::Num { neg: false, mag: lamports }),
            (key_data(), JsonModel::Str(data)),
        ],
    )
}

/// The JSON shape of an account event record.
pub open spec fn account_event_model(e: AccountEvent) -> JsonModel {
    account_record_model(e.timestamp@, e.pubkey@, e.slot, e.lamports, e.data@)
}

/// The member of `key` when it is a string.
pub open spec fn opt_str(m: Option<JsonModel>) -> Option<Seq<char>> {
    match m {
        Some(JsonModel::Str(s)) => Some(s),
        _ => None,
    }
}

/// The member of `key` when it is an unsigned 64-bit number.
pub open spec fn opt_u64(m: Option<JsonModel>) -> Option<u64> {
    match m {
        Some(JsonModel::Num { neg, mag }) => if !neg {
            Some(mag)
        } else {
            None
        },
        _ => None,
    }
}

/// The member of `key` when it is an array of strings.
pub open spec fn opt_str_arr(m: Option<JsonModel>) -> Option<Seq<Seq<char>>> {
    match m {
        Some(JsonModel::Arr(a)) => str_items_from(a, 0, Seq::empty()),
        _ => None,
    }
}

/// The fields a log event record holds, read back from a JSON shape.
pub open spec fn log_event_of(m: JsonModel) -> Option<
    (Seq<char>, Seq<char>, u64, Seq<char>, Seq<Seq<char>>),
> {
    let ts = opt_str(jget(m, key_timestamp()));
    let sig = opt_str(jget(m, key_signature()));
    let slot = opt_u64(jget(m, key_slot()));
    let pid = opt_str(jget(m, key_program_id()));
    let lg = opt_str_arr(jget(m, key_logs()));
    if ts is Some && sig is Some && slot is Some && pid is Some && lg is Some {
        Some((ts.unwrap(), sig.unwrap(), slot.unwrap(), pid.unwrap(), lg.unwrap()))
    } else {
        None
    }
}

/// The fields an account event record holds, read back from a JSON shape.
pub open spec fn account_event_of(m: JsonModel) -> Option<
    (Seq<char>, Seq<char>, u64, u64, Seq<char>),
> {
    let ts = opt_str(jget(m, key_timestamp()));
    let pk = opt_str(jget(m, key_pubkey()));
    let slot = opt_u64(jget(m, key_slot()));
    let lam = opt_u64(jget(m, key_lamports()));
    let da = opt_str(jget(m, key_data()));
    if ts is Some && pk is Some && slot is Some && lam is Some && da is Some {
        Some((ts.unwrap(), pk.unwrap(), slot.unwrap(), lam.unwrap(), da.unwrap()))
    } else {
        None
    }
}

impl LogEvent {
    /// A log event from its fields.
    pub fn new(
        timestamp: String,
        signature: String,
        slot: u64,
        program_id: String,
        logs: Vec<String>,
    ) -> (r: Self)
        ensures
            r.timestamp == timestamp,
            r.signature == signature,
            r.slot == slot,
            r.program_id == program_id,
            r.logs == logs,
    {
        Self { timestamp, signature, slot, program_id, logs }
    }

    /// The record's JSON value.
    #[verifier::loop_isolation(false)]
    #[verifier::rlimit(100)]
    pub fn to_json(&self) -> (r: JsonValue)
        ensures
            model(r) == log_event_model(*self),
    {
        let ghost target = self.logs.deep_view().map_values(|l: Seq<char>| JsonModel::Str(l));
        let mut items: Vec<JsonValue> = Vec::new();
        proof {
            assert(arr_model_from(items, 0) =~= Seq::<JsonModel>::empty());
            assert(arr_model_from(items, 0) =~= target.take(0));
        }
        let mut i: usize = 0;
        while i < self.logs.len()
            invariant
                i <= self.logs.len(),
                arr_model_from(items, 0) == target.take(i as int),
            decreases self.logs.len() - i,
        {
            let ghost prev = items;
            let line = self.logs[i].clone();
            let ghost lv = line;
            items.push(JsonValue::Str(line));
            proof {
                lemma_arr_model_push(prev, items, JsonValue::Str(lv), 0);
                assert(self.logs.deep_view()[i as int] == self.logs[i as int]@);
                assert(target[i as int] == JsonModel::Str(self.logs[i as int]@));
                assert(target.take(i as int + 1) =~= target.take(i as int).push(
                    target[i as int],
                ));
            }
            i = i + 1;
        }
        proof {
            assert(target.take(self.logs.len() as int) =~= target);
        }
        let ghost itemsv = items;
        let mut ms: Vec<(String, JsonValue)> = Vec::new();
        ms.push((String::from_str("timestamp"), JsonValue::Str(self.timestamp.clone())));
        ms.push((String::from_str("signature"), JsonValue::Str(self.signature.clone())));
        ms.push((String::from_str("slot"), JsonValue::Num { neg: false, mag: self.slot }));
        ms.push((String::from_str("program_id"), JsonValue::Str(self.program_id.clone())));
        ms.push((String::from_str("logs"), JsonValue::Arr(items)));
        let ghost msv = ms;
        let v = JsonValue::Obj(ms);
        proof {
            reveal_strlit("timestamp");
            reveal_strlit("signature");
            reveal_strlit("slot");
            reveal_strlit("program_id");
            reveal_strlit("logs");
            assert("timestamp"@ =~= key_timestamp());
            assert("signature"@ =~= key_signature());
            assert("slot"@ =~= key_slot());
            assert("program_id"@ =~= key_program_id());
            assert("logs"@ =~= key_logs());
            reveal_with_fuel(obj_model_from, 7);
            assert(obj_model_from(msv, 0) =~= log_event_model(*self)->Obj_0);
        }
        v
    }

    /// The log event a JSON value holds, when it has all the record's
    /// fields in their shapes.
    pub fn from_json(v: &JsonValue) -> (r: Option<LogEvent>)
        ensures
            match r {
                Some(e) => log_event_of(model(*v)) == Some(
                    (e.timestamp@, e.signature@, e.slot, e.program_id@, e.logs.deep_view()),
                ),
                None => log_event_of(model(*v)) is None,
            },
    {
        proof {
            reveal_strlit("timestamp");
            reveal_strlit("signature");
            reveal_strlit("slot");
            reveal_strlit("program_id");
            reveal_strlit("logs");
            assert("timestamp"@ =~= key_timestamp());
            assert("signature"@ =~= key_signature());
            assert("slot"@ =~= key_slot());
            assert("program_id"@ =~= key_program_id());
            assert("logs"@ =~= key_logs());
        }
        let timestamp = match v.get("timestamp") {
            Some(JsonValue::Str(s)) => s.clone(),
            _ => {
                return None;
            },
        };
        let signature = match v.get("signature") {
            Some(JsonValue::Str(s)) => s.clone(),
            _ => {
                return None;
            },
        };
        let slot = match v.get("slot") {
            Some(JsonValue::Num { neg, mag }) => {
                if *neg {
                    return None;
                }
                *mag
            },
            _ => {
                return None;
            },
        };
        let program_id = match v.get("program_id") {
            Some(JsonValue::Str(s)) => s.clone(),
            _ => {
                return None;
            },
        };
        let logs = match v.get("logs") {
            Some(JsonValue::Arr(a)) => {
                match as_string_items(a) {
                    Some(ls) => ls,
                    None => {
                        return None;
                    },
                }
            },
            _ => {
                return None;
            },
        };
        Some(LogEvent { timestamp, signature, slot, program_id, logs })
    }
}

impl AccountEvent {
    /// An account event from its fields.
    pub fn new(timestamp: String, pubkey: String, slot: u64, lamports: u64, data: String) -> (r:
        Self)
        ensures
            r.timestamp == timestamp,
            r.pubkey == pubkey,
            r.slot == slot,
            r.lamports == lamports,
            r.data == data,
    {
        Self { timestamp, pubkey, slot, lamports, data }
    }

    /// The record's JSON value.
    #[verifier::rlimit(100)]
    pub fn to_json(&self) -> (r: JsonValue)
        ensures
            model(r) == account_event_model(*self),
    {
        let mut ms: Vec<(String, JsonValue)> = Vec::new();
        ms.push((String::from_str("timestamp"), JsonValue::Str(self.timestamp.clone())));
        ms.push((String::from_str("pubkey"), JsonValue::Str(self.pubkey.clone())));
        ms.push((String::from_str("slot"), JsonValue::Num { neg: false, mag: self.slot }));
        ms.push((String::from_str("lamports"), JsonValue::Num { neg: false, mag: self.lamports }));
        ms.push((String::from_str("data"), JsonValue::Str(self.data.clone())));
        let ghost msv = ms;
        let v = JsonValue::Obj(ms);
        proof {
            reveal_strlit("timestamp");
            reveal_strlit("pubkey");
            reveal_strlit("slot");
            reveal_strlit("lamports");
            reveal_strlit("data");
            assert("timestamp"@ =~= key_timestamp());
            assert("pubkey"@ =~= key_pubkey());
            assert("slot"@ =~= key_slot());
            assert("lamports"@ =~= key_lamports());
            assert("data"@ =~= key_data());
            reveal_with_fuel(obj_model_from, 7);
            assert(obj_model_from(msv, 0) =~= account_event_model(*self)->Obj_0);
        }
        v
    }

    /// The account event a JSON value holds, when it has all the record's
    /// fields in their shapes.
    pub fn from_json(v: &JsonValue) -> (r: Option<AccountEvent>)
        ensures
            match r {
                Some(e) => account_event_of(model(*v)) == Some(
                    (e.timestamp@, e.pubkey@, e.slot, e.lamports, e.data@),
                ),
                None => account_event_of(model(*v)) is None,
            },
    {
        proof {
            reveal_strlit("timestamp");
            reveal_strlit("pubkey");
            reveal_strlit("slot");
            reveal_strlit("lamports");
            reveal_strlit("data");
            assert("timestamp"@ =~= key_timestamp());
            assert("pubkey"@ =~= key_pubkey());
            assert("slot"@ =~= key_slot());
            assert("lamports"@ =~= key_lamports());
            assert("data"@ =~= key_data());
        }
        let timestamp = match v.get("timestamp") {
            Some(JsonValue::Str(s)) => s.clone(),
            _ => {
                return None;
            },
        };
        let pubkey = match v.get("pubkey") {
            Some(JsonValue::Str(s)) => s.clone(),
            _ => {
                return None;
            },
        };
        let slot = match v.get("slot") {
            Some(JsonValue::Num { neg, mag }) => {
                if *neg {
                    return None;
                }
                *mag
            },
            _ => {
                return None;
            },
        };
        let lamports = match v.get("lamports") {
            Some(JsonValue::Num { neg, mag }) => {
                if *neg {
                    return None;
                }
                *mag
            },
            _ => {
                return None;
            },
        };
        let data = match v.get("data") {
            Some(JsonValue::Str(s)) => s.clone(),
            _ => {
                return None;
            },
        };
        Some(AccountEvent { timestamp, pubkey, slot, lamports, data })
    }
}

/// Reading an array of string shapes back yields exactly the strings.
pub proof fn lemma_str_items_map(ls: Seq<Seq<char>>, i: int, acc: Seq<Seq<char>>)
    requires
        0 <= i <= ls.len(),
    ensures
        str_items_from(ls.map_values(|l: Seq<char>| JsonModel::Str(l)), i, acc) == Some(
            acc + ls.skip(i),
        ),
    decreases ls.len() - i,
{
    let a = ls.map_values(|l: Seq<char>| JsonModel::Str(l));
    if i == ls.len() {
        assert(acc + ls.skip(i) =~= acc);
    } else {
        lemma_str_items_map(ls, i + 1, acc.push(ls[i]));
        assert(a[i] == JsonModel::Str(ls[i]));
        assert(acc.push(ls[i]) + ls.skip(i + 1) =~= acc + ls.skip(i));
    }
}

/// Round trip: the JSON shape of a log event reads back field for field.
pub proof fn lemma_log_event_round_trip(e: LogEvent)
    ensures
        log_event_of(log_event_model(e)) == Some(
            (e.timestamp@, e.signature@, e.slot, e.program_id@, e.logs.deep_view()),
        ),
{
    let m = log_event_model(e);
    let o = m->Obj_0;
    assert(key_timestamp() != key_signature() && key_timestamp() != key_slot()
        && key_timestamp() != key_program_id() && key_timestamp() != key_logs()) by {
        assert(key_timestamp().len() == 9 && key_slot().len() == 4 && key_program_id().len() == 10
            && key_logs().len() == 4);
        assert(key_timestamp()[0] == 't' && key_signature()[0] == 's');
    }
    assert(key_signature() != key_slot() && key_signature() != key_program_id()
        && key_signature() != key_logs()) by {
        assert(key_signature().len() == 9);
    }
    assert(key_slot() != key_program_id() && key_slot() != key_logs()) by {
        assert(key_slot()[0] == 's' && key_logs()[0] == 'l');
        assert(key_slot().len() == 4 && key_program_id().len() == 10);
    }
    assert(key_program_id() != key_logs()) by {
        assert(key_program_id().len() == 10 && key_logs().len() == 4);
    }
    reveal_with_fuel(crate::json::obj_lookup, 7);
    assert(o.skip(1).skip(1) =~= o.skip(2));
    assert(o.skip(2).skip(1) =~= o.skip(3));
    assert(o.skip(3).skip(1) =~= o.skip(4));
    assert(o.skip(4).skip(1) =~= o.skip(5));
    assert(jget(m, key_timestamp()) == Some(JsonModel::Str(e.timestamp@)));
    assert(jget(m, key_signature()) == Some(JsonModel::Str(e.signature@)));
    assert(jget(m, key_slot()) == Some(JsonModel::Num { neg: false, mag: e.slot }));
    assert(jget(m, key_program_id()) == Some(JsonModel::Str(e.program_id@)));
    lemma_str_items_map(e.logs.deep_view(), 0, Seq::empty());
    assert(Seq::<Seq<char>>::empty() + e.logs.deep_view().skip(0) =~~= e.logs.deep_view());
}

/// Round trip: the JSON shape of an account event reads back field for
/// field.
pub proof fn lemma_account_event_round_trip(e: AccountEvent)
    ensures
        account_event_of(account_event_model(e)) == Some(
            (e.timestamp@, e.pubkey@, e.slot, e.lamports, e.data@),
        ),
{
    let m = account_event_model(e);
    let o = m->Obj_0;
    assert(key_timestamp() != key_pubkey() && key_timestamp() != key_slot() && key_timestamp()
        != key_lamports() && key_timestamp() != key_data()) by {
        assert(key_timestamp().len() == 9 && key_pubkey().len() == 6 && key_slot().len() == 4
            && key_lamports().len() == 8 && key_data().len() == 4);
    }
    assert(key_pubkey() != key_slot() && key_pubkey() != key_lamports() && key_pubkey()
        != key_data()) by {
        assert(key_pubkey().len() == 6);
    }
    assert(key_slot() != key_lamports() && key_slot() != key_data()) by {
        assert(key_slot()[0] == 's' && key_data()[0] == 'd');
        assert(key_slot().len() == 4 && key_lamports().len() == 8);
    }
    assert(key_lamports() != key_data()) by {
        assert(key_lamports().len() == 8 && key_data().len() == 4);
    }
    reveal_with_fuel(crate::json::obj_lookup, 7);
    assert(o.skip(1).skip(1) =~= o.skip(2));
    assert(o.skip(2).skip(1) =~= o.skip(3));
    assert(o.skip(3).skip(1) =~= o.skip(4));
    assert(o.skip(4).skip(1) =~= o.skip(5));
    assert(jget(m, key_timestamp()) == Some(JsonModel::Str(e.timestamp@)));
    assert(jget(m, key_pubkey()) == Some(JsonModel::Str(e.pubkey@)));
    assert(jget(m, key_slot()) == Some(JsonModel::Num { neg: false, mag: e.slot }));
    assert(jget(m, key_lamports()) == Some(JsonModel::Num { neg: false, mag: e.lamports }));
    assert(jget(m, key_data()) == Some(JsonModel::Str(e.data@)));
}

} // verus!
