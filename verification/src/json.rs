//! The JSON shapes the wire protocol uses, their serialization and their
//! parsing. Numbers are integers with a sign and a 64-bit magnitude: the
//! protocol carries slots, balances and error codes, never floating point.

use vstd::prelude::*;
use crate::text::push_char;

verus! {

broadcast use vstd::seq::axiom_seq_index_decreases, vstd::std_specs::vec::axiom_vec_index_decreases;

/// A JSON value.
pub enum JsonValue {
    Null,
    Bool(bool),
    /// An integer: `-mag` when `neg`, else `mag`; `neg` implies `mag > 0`.
    Num { neg: bool, mag: u64 },
    Str(String),
    Arr(Vec<JsonValue>),
    Obj(Vec<(String, JsonValue)>),
}

/// The mathematical shape of a JSON value.
pub enum JsonModel {
    Null,
    Bool(bool),
    Num { neg: bool, mag: u64 },
    Str(Seq<char>),
    Arr(Seq<JsonModel>),
    Obj(Seq<(Seq<char>, JsonModel)>),
}

/// The shape of a value: strings and keys by their characters.
pub open spec fn model(v: JsonValue) -> JsonModel
    decreases v, 0int, 0int,
{
    match v {
        JsonValue::Null => JsonModel::Null,
        JsonValue::Bool(b) => JsonModel::Bool(b),
        JsonValue::Num { neg, mag } => JsonModel::Num { neg, mag },
        JsonValue::Str(s) => JsonModel::Str(s@),
        JsonValue::Arr(vs) => JsonModel::Arr(arr_model_from(vs, 0)),
        JsonValue::Obj(ms) => JsonModel::Obj(obj_model_from(ms, 0)),
    }
}

/// The shapes of an array's elements from position `i` on.
pub open spec fn arr_model_from(vs: Vec<JsonValue>, i: int) -> Seq<JsonModel>
    decreases vs, 1int, vs.len() - i,
{
    if i < 0 || i >= vs.len() {
        Seq::empty()
    } else {
        seq![model(vs[i])] + arr_model_from(vs, i + 1)
    }
}

/// The shapes of an object's members from position `i` on.
pub open spec fn obj_model_from(ms: Vec<(String, JsonValue)>, i: int) -> Seq<
    (Seq<char>, JsonModel),
>
    decreases ms, 1int, ms.len() - i,
{
    if i < 0 || i >= ms.len() {
        Seq::empty()
    } else {
        seq![(ms[i].0@, model(ms[i].1))] + obj_model_from(ms, i + 1)
    }
}

/// From position `i`, an array's shape lists one element shape per element.
pub proof fn lemma_arr_model_from(vs: Vec<JsonValue>, i: int)
    requires
        0 <= i <= vs.len(),
    ensures
        arr_model_from(vs, i).len() == vs.len() - i,
        forall|j: int|
            0 <= j < vs.len() - i ==> #[trigger] arr_model_from(vs, i)[j] == model(vs[i + j]),
    decreases vs.len() - i,
{
    if i < vs.len() {
        lemma_arr_model_from(vs, i + 1);
        assert forall|j: int| 0 <= j < vs.len() - i implies #[trigger] arr_model_from(vs, i)[j]
            == model(vs[i + j]) by {
            if j > 0 {
                assert(arr_model_from(vs, i)[j] == arr_model_from(vs, i + 1)[j - 1]);
                assert(arr_model_from(vs, i + 1)[j - 1] == model(vs[i + 1 + (j - 1)]));
            }
        }
    }
}

/// From position `i`, an object's shape lists one member shape per member.
pub proof fn lemma_obj_model_from(ms: Vec<(String, JsonValue)>, i: int)
    requires
        0 <= i <= ms.len(),
    ensures
        obj_model_from(ms, i).len() == ms.len() - i,
        forall|j: int|
            0 <= j < ms.len() - i ==> #[trigger] obj_model_from(ms, i)[j] == (
            ms[i + j].0@,
            model(ms[i + j].1),
            ),
    decreases ms.len() - i,
{
    if i < ms.len() {
        lemma_obj_model_from(ms, i + 1);
        assert forall|j: int| 0 <= j < ms.len() - i implies #[trigger] obj_model_from(ms, i)[j]
            == (ms[i + j].0@, model(ms[i + j].1)) by {
            if j > 0 {
                assert(obj_model_from(ms, i)[j] == obj_model_from(ms, i + 1)[j - 1]);
                assert(obj_model_from(ms, i + 1)[j - 1] == (
                    ms[i + 1 + (j - 1)].0@,
                    model(ms[i + 1 + (j - 1)].1),
                ));
            }
        }
    }
}

/// The first binding of `key` in an object's members.
pub open spec fn obj_lookup(o: Seq<(Seq<char>, JsonModel)>, key: Seq<char>) -> Option<JsonModel>
    decreases o.len(),
{
    if o.len() == 0 {
        None
    } else if o[0].0 == key {
        Some(o[0].1)
    } else {
        obj_lookup(o.skip(1), key)
    }
}

/// The member of `key` in an object value, `None` on any other shape.
pub open spec fn jget(m: JsonModel, key: Seq<char>) -> Option<JsonModel> {
    match m {
        JsonModel::Obj(o) => obj_lookup(o, key),
        _ => None,
    }
}

impl JsonValue {
    /// The member of `key` when this is an object that has one.
    #[verifier::loop_isolation(false)]
    pub fn get<'a>(&'a self, key: &str) -> (r: Option<&'a JsonValue>)
        ensures
            match r {
                Some(v) => jget(model(*self), key@) == Some(model(*v)),
                None => jget(model(*self), key@) is None,
            },
    {
        match self {
            JsonValue::Obj(ms) => {
                let mut i: usize = 0;
                while i < ms.len()
                    invariant
                        i <= ms.len(),
                        obj_lookup(obj_model_from(*ms, 0), key@) == obj_lookup(
                            obj_model_from(*ms, i as int),
                            key@,
                        ),
                    decreases ms.len() - i,
                {
                    proof {
                        assert(obj_model_from(*ms, i as int)[0] == (ms[i as int].0@, model(
                            ms[i as int].1,
                        )));
                        assert(obj_model_from(*ms, i as int).skip(1) =~= obj_model_from(
                            *ms,
                            i as int + 1,
                        ));
                    }
                    if crate::text::str_eq(ms[i].0.as_str(), key) {
                        proof {
                            assert(obj_model_from(*ms, i as int).len() > 0);
                            assert(obj_lookup(obj_model_from(*ms, i as int), key@) == Some(
                                model(ms[i as int].1),
                            ));
                        }
                        return Some(&ms[i].1);
                    }
                    i = i + 1;
                }
                proof {
                    assert(obj_model_from(*ms, ms.len() as int) =~= Seq::<
                        (Seq<char>, JsonModel),
                    >::empty());
                }
                None
            },
            _ => None,
        }
    }
}

// ------------------------------------------------------------------
// Serialization.
// ------------------------------------------------------------------

/// The decimal digit character for `d` (`d < 10`).
pub open spec fn digit_char(d: nat) -> char {
    if d == 0 {
        '0'
    } else if d == 1 {
        '1'
    } else if d == 2 {
        '2'
    } else if d == 3 {
        '3'
    } else if d == 4 {
        '4'
    } else if d == 5 {
        '5'
    } else if d == 6 {
        '6'
    } else if d == 7 {
        '7'
    } else if d == 8 {
        '8'
    } else {
        '9'
    }
}

/// The decimal digits of `n`, most significant first.
pub open spec fn dec_digits(n: nat) -> Seq<char>
    decreases n,
{
    if n < 10 {
        seq![digit_char(n)]
    } else {
        dec_digits(n / 10).push(digit_char(n % 10))
    }
}

/// The serialization of an integer.
pub open spec fn ser_num(neg: bool, mag: u64) -> Seq<char> {
    if neg {
        seq!['-'] + dec_digits(mag as nat)
    } else {
        dec_digits(mag as nat)
    }
}

/// The escape of one string character.
pub open spec fn esc_char(c: char) -> Seq<char> {
    if c == '"' {
        seq!['\\', '"']
    } else if c == '\\' {
        seq!['\\', '\\']
    } else if c == '\n' {
        seq!['\\', 'n']
    } else if c == '\r' {
        seq!['\\', 'r']
    } else if c == '\t' {
        seq!['\\', 't']
    } else {
        seq![c]
    }
}

/// The escape of a string's characters.
pub open spec fn esc(s: Seq<char>) -> Seq<char>
    decreases s.len(),
{
    if s.len() == 0 {
        Seq::empty()
    } else {
        esc_char(s[0]) + esc(s.skip(1))
    }
}

/// The serialization of a string: quoted and escaped.
pub open spec fn ser_str(s: Seq<char>) -> Seq<char> {
    seq!['"'] + esc(s) + seq!['"']
}

/// The serialization of the elements after an array's first one.
pub open spec fn ser_tail(a: Seq<JsonModel>) -> Seq<char>
    decreases a,
{
    if a.len() == 0 {
        Seq::empty()
    } else {
        seq![','] + spec_ser(a[0]) + ser_tail(a.skip(1))
    }
}

/// The serialization of an array's elements, comma-separated.
pub open spec fn ser_items(a: Seq<JsonModel>) -> Seq<char>
    decreases a,
{
    if a.len() == 0 {
        Seq::empty()
    } else {
        spec_ser(a[0]) + ser_tail(a.skip(1))
    }
}

/// The serialization of one object member.
pub open spec fn ser_member(m: (Seq<char>, JsonModel)) -> Seq<char>
    decreases m,
{
    ser_str(m.0) + seq![':'] + spec_ser(m.1)
}

/// The serialization of the members after an object's first one.
pub open spec fn ser_mtail(o: Seq<(Seq<char>, JsonModel)>) -> Seq<char>
    decreases o,
{
    if o.len() == 0 {
        Seq::empty()
    } else {
        seq![','] + ser_member(o[0]) + ser_mtail(o.skip(1))
    }
}

/// The serialization of an object's members, comma-separated.
pub open spec fn ser_members(o: Seq<(Seq<char>, JsonModel)>) -> Seq<char>
    decreases o,
{
    if o.len() == 0 {
        Seq::empty()
    } else {
        ser_member(o[0]) + ser_mtail(o.skip(1))
    }
}

/// The canonical serialization of a value: no whitespace, members in order.
pub open spec fn spec_ser(m: JsonModel) -> Seq<char>
    decreases m,
{
    match m {
        JsonModel::Null => seq!['n', 'u', 'l', 'l'],
        JsonModel::Bool(b) => if b {
            seq!['t', 'r', 'u', 'e']
        } else {
            seq!['f', 'a', 'l', 's', 'e']
        },
        JsonModel::Num { neg, mag } => ser_num(neg, mag),
        JsonModel::Str(s) => ser_str(s),
        JsonModel::Arr(a) => seq!['['] + ser_items(a) + seq![']'],
        JsonModel::Obj(o) => seq!['{'] + ser_members(o) + seq!['}'],
    }
}

/// The digit character of `n % 10`.
fn digit_of(n: u64) -> (r: char)
    ensures
        r == digit_char((n % 10) as nat),
{
    let d: u64 = n % 10;
    if d == 0 {
        '0'
    } else if d == 1 {
        '1'
    } else if d == 2 {
        '2'
    } else if d == 3 {
        '3'
    } else if d == 4 {
        '4'
    } else if d == 5 {
        '5'
    } else if d == 6 {
        '6'
    } else if d == 7 {
        '7'
    } else if d == 8 {
        '8'
    } else {
        '9'
    }
}

/// Append the decimal digits of `n` to `out`.
fn write_u64(out: &mut String, n: u64)
    ensures
        final(out)@ == old(out)@ + dec_digits(n as nat),
{
    let mut tmp: Vec<char> = Vec::new();
    tmp.push(digit_of(n));
    let mut m: u64 = n / 10;
    proof {
        assert(tmp@.reverse() =~= seq![digit_char((n % 10) as nat)]);
    }
    while m > 0
        invariant
            dec_digits(n as nat) == if m > 0 {
                dec_digits(m as nat) + tmp@.reverse()
            } else {
                tmp@.reverse()
            },
        decreases m,
    {
        let ghost t0 = tmp@;
        tmp.push(digit_of(m));
        proof {
            assert(tmp@.reverse() =~= seq![digit_char((m % 10) as nat)] + t0.reverse());
            if m >= 10 {
                assert(dec_digits(m as nat) == dec_digits((m / 10) as nat).push(
                    digit_char((m % 10) as nat),
                ));
                assert(dec_digits((m / 10) as nat) + tmp@.reverse() =~= dec_digits(m as nat)
                    + t0.reverse());
            } else {
                assert(dec_digits(m as nat) == seq![digit_char((m % 10) as nat)]);
                assert(tmp@.reverse() =~= dec_digits(m as nat) + t0.reverse());
            }
        }
        m = m / 10;
    }
    let mut k: usize = tmp.len();
    while k > 0
        invariant
            k <= tmp.len(),
            out@ == old(out)@ + tmp@.reverse().take(tmp@.len() - k),
        decreases k,
    {
        k = k - 1;
        push_char(out, tmp[k]);
        proof {
            assert(tmp@.reverse()[tmp@.len() - 1 - k] == tmp@[k as int]);
            assert(out@ =~= old(out)@ + tmp@.reverse().take(tmp@.len() - k));
        }
    }
    proof {
        assert(tmp@.reverse().take(tmp@.len() as int) =~= tmp@.reverse());
    }
}

/// Append the quoted, escaped form of `s` to `out`.
fn write_string(out: &mut String, s: &str)
    ensures
        final(out)@ == old(out)@ + ser_str(s@),
{
    let cs = crate::text::str_chars(s);
    push_char(out, '"');
    let mut i: usize = 0;
    proof {
        assert(cs@.skip(0) =~= cs@);
    }
    while i < cs.len()
        invariant
            i <= cs.len(),
            cs@ == s@,
            out@ + esc(cs@.skip(i as int)) == old(out)@ + seq!['"'] + esc(cs@),
        decreases cs.len() - i,
    {
        let ghost rest = cs@.skip(i as int);
        proof {
            assert(rest[0] == cs@[i as int]);
            assert(rest.skip(1) =~= cs@.skip(i as int + 1));
            assert(esc(rest) == esc_char(cs@[i as int]) + esc(cs@.skip(i as int + 1)));
        }
        let c = cs[i];
        if c == '"' {
            push_char(out, '\\');
            push_char(out, '"');
        } else if c == '\\' {
            push_char(out, '\\');
            push_char(out, '\\');
        } else if c == '\n' {
            push_char(out, '\\');
            push_char(out, 'n');
        } else if c == '\r' {
            push_char(out, '\\');
            push_char(out, 'r');
        } else if c == '\t' {
            push_char(out, '\\');
            push_char(out, 't');
        } else {
            push_char(out, c);
        }
        proof {
            assert(out@ + esc(cs@.skip(i as int + 1)) =~= old(out)@ + seq!['"'] + esc(cs@));
        }
        i = i + 1;
    }
    proof {
        assert(esc(cs@.skip(cs@.len() as int)) == Seq::<char>::empty()) by {
            assert(cs@.skip(cs@.len() as int).len() == 0);
        }
        assert(out@ =~= old(out)@ + seq!['"'] + esc(cs@));
    }
    push_char(out, '"');
    proof {
        assert(out@ =~= old(out)@ + ser_str(s@));
    }
}

/// Append the canonical serialization of `v` to `out`.
#[verifier::rlimit(100)]
#[verifier::loop_isolation(false)]
pub fn write_value(out: &mut String, v: &JsonValue)
    ensures
        final(out)@ == old(out)@ + spec_ser(model(*v)),
    decreases *v,
{
    match v {
        JsonValue::Null => {
            push_char(out, 'n');
            push_char(out, 'u');
            push_char(out, 'l');
            push_char(out, 'l');
            proof {
                assert(out@ =~= old(out)@ + spec_ser(model(*v)));
            }
        },
        JsonValue::Bool(b) => {
            if *b {
                push_char(out, 't');
                push_char(out, 'r');
                push_char(out, 'u');
                push_char(out, 'e');
            } else {
                push_char(out, 'f');
                push_char(out, 'a');
                push_char(out, 'l');
                push_char(out, 's');
                push_char(out, 'e');
            }
            proof {
                assert(out@ =~= old(out)@ + spec_ser(model(*v)));
            }
        },
        JsonValue::Num { neg, mag } => {
            if *neg {
                push_char(out, '-');
            }
            write_u64(out, *mag);
            proof {
                assert(out@ =~= old(out)@ + spec_ser(model(*v)));
            }
        },
        JsonValue::Str(s) => {
            write_string(out, s.as_str());
        },
        JsonValue::Arr(vs) => {
            let ghost a = arr_model_from(*vs, 0);
            proof {
                lemma_arr_model_from(*vs, 0);
            }
            push_char(out, '[');
            if vs.len() > 0 {
                proof {
                    vstd::std_specs::vec::axiom_vec_index_decreases::<JsonValue>(*vs, 0);
                }
                write_value(out, &vs[0]);
                let mut j: usize = 1;
                proof {
                    assert(a[0] == model(vs[0]));
                    assert(out@ =~= old(out)@ + seq!['['] + spec_ser(a[0]));
                    assert(ser_items(a) == spec_ser(a[0]) + ser_tail(a.skip(1)));
                    assert(out@ + ser_tail(a.skip(1)) =~= old(out)@ + seq!['['] + ser_items(a));
                }
                while j < vs.len()
                    invariant
                        1 <= j <= vs.len(),
                        a == arr_model_from(*vs, 0),
                        a.len() == vs@.len(),
                        forall|k: int| 0 <= k < vs@.len() ==> a[k] == model(vs[k]),
                        out@ + ser_tail(a.skip(j as int)) == old(out)@ + seq!['['] + ser_items(a),
                    decreases vs.len() - j,
                {
                    let ghost rest = a.skip(j as int);
                    proof {
                        assert(rest[0] == a[j as int]);
                        assert(rest.skip(1) =~= a.skip(j as int + 1));
                        assert(ser_tail(rest) == seq![','] + spec_ser(a[j as int]) + ser_tail(
                            a.skip(j as int + 1),
                        ));
                    }
                    push_char(out, ',');
                    proof {
                        vstd::std_specs::vec::axiom_vec_index_decreases::<JsonValue>(
                            *vs,
                            j as int,
                        );
                    }
                    write_value(out, &vs[j]);
                    proof {
                        assert(out@ + ser_tail(a.skip(j as int + 1)) =~= old(out)@ + seq!['[']
                            + ser_items(a));
                    }
                    j = j + 1;
                }
                proof {
                    assert(ser_tail(a.skip(a.len() as int)) == Seq::<char>::empty()) by {
                        assert(a.skip(a.len() as int).len() == 0);
                    }
                    assert(out@ =~= old(out)@ + seq!['['] + ser_items(a));
                }
            } else {
                proof {
                    assert(ser_items(a) == Seq::<char>::empty());
                    assert(out@ =~= old(out)@ + seq!['['] + ser_items(a));
                }
            }
            push_char(out, ']');
            proof {
                assert(out@ =~= old(out)@ + spec_ser(model(*v)));
            }
        },
        JsonValue::Obj(ms) => {
            let ghost o = obj_model_from(*ms, 0);
            proof {
                lemma_obj_model_from(*ms, 0);
            }
            push_char(out, '{');
            if ms.len() > 0 {
                write_string(out, ms[0].0.as_str());
                push_char(out, ':');
                proof {
                    vstd::std_specs::vec::axiom_vec_index_decreases::<(String, JsonValue)>(
                        *ms,
                        0,
                    );
                }
                write_value(out, &ms[0].1);
                let mut j: usize = 1;
                proof {
                    assert(o[0].0 == ms[0].0@ && o[0].1 == model(ms[0].1));
                    assert(out@ =~= old(out)@ + seq!['{'] + ser_member(o[0]));
                    assert(ser_members(o) == ser_member(o[0]) + ser_mtail(o.skip(1)));
                    assert(out@ + ser_mtail(o.skip(1)) =~= old(out)@ + seq!['{'] + ser_members(o));
                }
                while j < ms.len()
                    invariant
                        1 <= j <= ms.len(),
                        o == obj_model_from(*ms, 0),
                        o.len() == ms@.len(),
                        forall|k: int| 0 <= k < ms@.len() ==> o[k] == (ms[k].0@, model(ms[k].1)),
                        out@ + ser_mtail(o.skip(j as int)) == old(out)@ + seq!['{'] + ser_members(
                            o,
                        ),
                    decreases ms.len() - j,
                {
                    let ghost rest = o.skip(j as int);
                    proof {
                        assert(rest[0] == o[j as int]);
                        assert(rest.skip(1) =~= o.skip(j as int + 1));
                        assert(ser_mtail(rest) == seq![','] + ser_member(o[j as int]) + ser_mtail(
                            o.skip(j as int + 1),
                        ));
                    }
                    push_char(out, ',');
                    write_string(out, ms[j].0.as_str());
                    push_char(out, ':');
                    proof {
                        vstd::std_specs::vec::axiom_vec_index_decreases::<(String, JsonValue)>(
                            *ms,
                            j as int,
                        );
                    }
                    write_value(out, &ms[j].1);
                    proof {
                        assert(ser_member(o[j as int]) == ser_str(ms@[j as int].0@) + seq![':']
                            + spec_ser(model(ms@[j as int].1)));
                        assert(out@ + ser_mtail(o.skip(j as int + 1)) =~= old(out)@ + seq!['{']
                            + ser_members(o));
                    }
                    j = j + 1;
                }
                proof {
                    assert(ser_mtail(o.skip(o.len() as int)) == Seq::<char>::empty()) by {
                        assert(o.skip(o.len() as int).len() == 0);
                    }
                    assert(out@ =~= old(out)@ + seq!['{'] + ser_members(o));
                }
            } else {
                proof {
                    assert(ser_members(o) == Seq::<char>::empty());
                    assert(out@ =~= old(out)@ + seq!['{'] + ser_members(o));
                }
            }
            push_char(out, '}');
            proof {
                assert(out@ =~= old(out)@ + spec_ser(model(*v)));
            }
        },
    }
}

// ------------------------------------------------------------------
// Parsing: a recursive descent over the characters of the text. The
// spec functions below are the grammar; each executable function
// returns exactly what its spec function says.
// ------------------------------------------------------------------

/// JSON whitespace between tokens.
pub open spec fn is_json_ws(c: char) -> bool {
    c == ' ' || c == '\t' || c == '\n' || c == '\r'
}

/// The position after any whitespace at `i`.
pub open spec fn p_ws(s: Seq<char>, i: int) -> int
    decreases s.len() - i,
{
    if 0 <= i < s.len() && is_json_ws(s[i]) {
        p_ws(s, i + 1)
    } else {
        i
    }
}

/// A decimal digit character.
pub open spec fn is_digit(c: char) -> bool {
    c == '0' || c == '1' || c == '2' || c == '3' || c == '4' || c == '5' || c == '6' || c == '7'
        || c == '8' || c == '9'
}

/// The value of a decimal digit character.
pub open spec fn digit_val(c: char) -> nat {
    if c == '0' {
        0
    } else if c == '1' {
        1
    } else if c == '2' {
        2
    } else if c == '3' {
        3
    } else if c == '4' {
        4
    } else if c == '5' {
        5
    } else if c == '6' {
        6
    } else if c == '7' {
        7
    } else if c == '8' {
        8
    } else {
        9
    }
}

/// Digits read from `i` into the accumulator `acc`; `None` past a 64-bit
/// magnitude.
pub open spec fn p_digits(s: Seq<char>, i: int, acc: u64) -> Option<(u64, int)>
    decreases s.len() - i,
{
    if 0 <= i < s.len() && is_digit(s[i]) {
        let d = digit_val(s[i]);
        if acc as int * 10 + d > u64::MAX as int {
            None
        } else {
            p_digits(s, i + 1, (acc as int * 10 + d) as u64)
        }
    } else {
        Some((acc, i))
    }
}

/// A number at `i`: an optional minus sign and digits; "-0" reads as zero.
pub open spec fn p_number(s: Seq<char>, i: int) -> Option<(JsonModel, int)> {
    let neg = 0 <= i < s.len() && s[i] == '-';
    let j = if neg {
        i + 1
    } else {
        i
    };
    if 0 <= j < s.len() && is_digit(s[j]) {
        match p_digits(s, j, 0) {
            None => None,
            Some((mag, k)) => Some((JsonModel::Num { neg: neg && mag > 0, mag }, k)),
        }
    } else {
        None
    }
}

/// String characters read from `i` (after the opening quote) into `acc`,
/// up to the closing quote, unescaping as it goes.
pub open spec fn p_string(s: Seq<char>, i: int, acc: Seq<char>) -> Option<(Seq<char>, int)>
    decreases s.len() - i,
{
    if i < 0 || i >= s.len() {
        None
    } else if s[i] == '"' {
        Some((acc, i + 1))
    } else if s[i] == '\\' {
        if i + 1 >= s.len() {
            None
        } else {
            let e = s[i + 1];
            if e == '"' {
                p_string(s, i + 2, acc.push('"'))
            } else if e == '\\' {
                p_string(s, i + 2, acc.push('\\'))
            } else if e == '/' {
                p_string(s, i + 2, acc.push('/'))
            } else if e == 'n' {
                p_string(s, i + 2, acc.push('\n'))
            } else if e == 'r' {
                p_string(s, i + 2, acc.push('\r'))
            } else if e == 't' {
                p_string(s, i + 2, acc.push('\t'))
            } else if e == 'b' {
                p_string(s, i + 2, acc.push('\u{8}'))
            } else if e == 'f' {
                p_string(s, i + 2, acc.push('\u{c}'))
            } else {
                None
            }
        }
    } else {
        p_string(s, i + 1, acc.push(s[i]))
    }
}

/// A value at `i`, after any whitespace.
pub open spec fn p_value(s: Seq<char>, i: int) -> Option<(JsonModel, int)>
    decreases s.len() - i, 1int,
{
    let j = p_ws(s, i);
    if j < i || j >= s.len() {
        None
    } else {
        let c = s[j];
        if c == 'n' {
            if j + 4 <= s.len() && s[j + 1] == 'u' && s[j + 2] == 'l' && s[j + 3] == 'l' {
                Some((JsonModel::Null, j + 4))
            } else {
                None
            }
        } else if c == 't' {
            if j + 4 <= s.len() && s[j + 1] == 'r' && s[j + 2] == 'u' && s[j + 3] == 'e' {
                Some((JsonModel::Bool(true), j + 4))
            } else {
                None
            }
        } else if c == 'f' {
            if j + 5 <= s.len() && s[j + 1] == 'a' && s[j + 2] == 'l' && s[j + 3] == 's' && s[j
                + 4] == 'e' {
                Some((JsonModel::Bool(false), j + 5))
            } else {
                None
            }
        } else if c == '"' {
            match p_string(s, j + 1, Seq::empty()) {
                None => None,
                Some((cs, k)) => Some((JsonModel::Str(cs), k)),
            }
        } else if c == '-' || is_digit(c) {
            p_number(s, j)
        } else if c == '[' {
            p_arr(s, j + 1)
        } else if c == '{' {
            p_obj(s, j + 1)
        } else {
            None
        }
    }
}

/// An array body at `i` (after the opening bracket).
pub open spec fn p_arr(s: Seq<char>, i: int) -> Option<(JsonModel, int)>
    decreases s.len() - i, 3int,
{
    let j = p_ws(s, i);
    if j < i || j >= s.len() {
        None
    } else if s[j] == ']' {
        Some((JsonModel::Arr(Seq::empty()), j + 1))
    } else {
        p_elems(s, i, Seq::empty())
    }
}

/// Array elements from `i`, the ones before it already in `acc`.
pub open spec fn p_elems(s: Seq<char>, i: int, acc: Seq<JsonModel>) -> Option<(JsonModel, int)>
    decreases s.len() - i, 2int,
{
    match p_value(s, i) {
        None => None,
        Some((m, j)) => {
            if j <= i || j > s.len() {
                None
            } else {
                let k = p_ws(s, j);
                if k < j || k >= s.len() {
                    None
                } else if s[k] == ']' {
                    Some((JsonModel::Arr(acc.push(m)), k + 1))
                } else if s[k] == ',' {
                    p_elems(s, k + 1, acc.push(m))
                } else {
                    None
                }
            }
        },
    }
}

/// An object body at `i` (after the opening brace).
pub open spec fn p_obj(s: Seq<char>, i: int) -> Option<(JsonModel, int)>
    decreases s.len() - i, 3int,
{
    let j = p_ws(s, i);
    if j < i || j >= s.len() {
        None
    } else if s[j] == '}' {
        Some((JsonModel::Obj(Seq::empty()), j + 1))
    } else {
        p_members(s, i, Seq::empty())
    }
}

/// Object members from `i`, the ones before it already in `acc`.
pub open spec fn p_members(
    s: Seq<char>,
    i: int,
    acc: Seq<(Seq<char>, JsonModel)>,
) -> Option<(JsonModel, int)>
    decreases s.len() - i, 2int,
{
    let j = p_ws(s, i);
    if j < i || j >= s.len() {
        None
    } else if s[j] == '"' {
        match p_string(s, j + 1, Seq::empty()) {
            None => None,
            Some((key, k)) => {
                if k <= j || k > s.len() {
                    None
                } else {
                    let l = p_ws(s, k);
                    if l < k || l >= s.len() {
                        None
                    } else if s[l] == ':' {
                        match p_value(s, l + 1) {
                            None => None,
                            Some((m, e)) => {
                                if e <= l || e > s.len() {
                                    None
                                } else {
                                    let f = p_ws(s, e);
                                    if f < e || f >= s.len() {
                                        None
                                    } else if s[f] == '}' {
                                        Some((JsonModel::Obj(acc.push((key, m))), f + 1))
                                    } else if s[f] == ',' {
                                        p_members(s, f + 1, acc.push((key, m)))
                                    } else {
                                        None
                                    }
                                }
                            },
                        }
                    } else {
                        None
                    }
                }
            },
        }
    } else {
        None
    }
}

/// The value of a complete JSON text: one value with only whitespace
/// around it.
pub open spec fn spec_parse(s: Seq<char>) -> Option<JsonModel> {
    match p_value(s, 0) {
        None => None,
        Some((m, j)) => if 0 <= j <= s.len() && p_ws(s, j) == s.len() {
            Some(m)
        } else {
            None
        },
    }
}

/// Whether `c` is JSON whitespace.
fn is_json_ws_char(c: char) -> (r: bool)
    ensures
        r == is_json_ws(c),
{
    c == ' ' || c == '\t' || c == '\n' || c == '\r'
}

/// Whether `c` is a decimal digit.
fn is_digit_char(c: char) -> (r: bool)
    ensures
        r == is_digit(c),
{
    c == '0' || c == '1' || c == '2' || c == '3' || c == '4' || c == '5' || c == '6' || c == '7'
        || c == '8' || c == '9'
}

/// The value of the digit `c`.
fn digit_val_char(c: char) -> (r: u64)
    requires
        is_digit(c),
    ensures
        r == digit_val(c),
{
    if c == '0' {
        0
    } else if c == '1' {
        1
    } else if c == '2' {
        2
    } else if c == '3' {
        3
    } else if c == '4' {
        4
    } else if c == '5' {
        5
    } else if c == '6' {
        6
    } else if c == '7' {
        7
    } else if c == '8' {
        8
    } else {
        9
    }
}

/// Skip whitespace from `i`.
fn x_ws(s: &Vec<char>, i: usize) -> (r: usize)
    requires
        i <= s.len(),
    ensures
        r as int == p_ws(s@, i as int),
        i <= r <= s.len(),
{
    let mut j: usize = i;
    while j < s.len() && is_json_ws_char(s[j])
        invariant
            i <= j <= s.len(),
            p_ws(s@, i as int) == p_ws(s@, j as int),
        decreases s.len() - j,
    {
        j = j + 1;
    }
    j
}

/// Read digits from `i` into `acc`.
fn x_digits(s: &Vec<char>, i: usize, acc: u64) -> (r: Option<(u64, usize)>)
    requires
        i <= s.len(),
    ensures
        match r {
            Some((mag, j)) => p_digits(s@, i as int, acc) == Some((mag, j as int)) && i <= j
                <= s.len(),
            None => p_digits(s@, i as int, acc) is None,
        },
{
    let mut k: usize = i;
    let mut a: u64 = acc;
    while k < s.len() && is_digit_char(s[k])
        invariant
            i <= k <= s.len(),
            p_digits(s@, i as int, acc) == p_digits(s@, k as int, a),
        decreases s.len() - k,
    {
        let d = digit_val_char(s[k]);
        let stepped = match a.checked_mul(10) {
            None => None,
            Some(p) => p.checked_add(d),
        };
        match stepped {
            None => {
                proof {
                    assert(a as int * 10 + digit_val(s@[k as int]) > u64::MAX as int);
                }
                return None;
            },
            Some(next) => {
                proof {
                    assert(next == a as int * 10 + digit_val(s@[k as int]));
                }
                a = next;
                k = k + 1;
            },
        }
    }
    Some((a, k))
}

/// Read a number at `i`.
fn x_number(s: &Vec<char>, i: usize) -> (r: Option<(JsonValue, usize)>)
    requires
        i <= s.len(),
    ensures
        match r {
            Some((v, j)) => p_number(s@, i as int) == Some((model(v), j as int)) && i <= j
                <= s.len(),
            None => p_number(s@, i as int) is None,
        },
{
    let neg = i < s.len() && s[i] == '-';
    let j: usize = if neg {
        i + 1
    } else {
        i
    };
    if j < s.len() && is_digit_char(s[j]) {
        match x_digits(s, j, 0) {
            None => None,
            Some((mag, k)) => Some((JsonValue::Num { neg: neg && mag > 0, mag }, k)),
        }
    } else {
        None
    }
}

/// Read string characters at `i` (after the opening quote).
fn x_string(s: &Vec<char>, i: usize) -> (r: Option<(String, usize)>)
    requires
        i <= s.len(),
    ensures
        match r {
            Some((st, j)) => p_string(s@, i as int, Seq::empty()) == Some((st@, j as int)) && i
                < j <= s.len(),
            None => p_string(s@, i as int, Seq::empty()) is None,
        },
{
    let mut k: usize = i;
    let mut out = String::new();
    proof {
        assert(out@ =~= Seq::<char>::empty());
    }
    loop
        invariant
            i <= k <= s.len(),
            p_string(s@, i as int, Seq::empty()) == p_string(s@, k as int, out@),
        decreases s.len() - k,
    {
        if k >= s.len() {
            return None;
        }
        let c = s[k];
        if c == '"' {
            return Some((out, k + 1));
        } else if c == '\\' {
            if k + 1 >= s.len() {
                return None;
            }
            let e = s[k + 1];
            if e == '"' {
                push_char(&mut out, '"');
            } else if e == '\\' {
                push_char(&mut out, '\\');
            } else if e == '/' {
                push_char(&mut out, '/');
            } else if e == 'n' {
                push_char(&mut out, '\n');
            } else if e == 'r' {
                push_char(&mut out, '\r');
            } else if e == 't' {
                push_char(&mut out, '\t');
            } else if e == 'b' {
                push_char(&mut out, '\u{8}');
            } else if e == 'f' {
                push_char(&mut out, '\u{c}');
            } else {
                return None;
            }
            k = k + 2;
        } else {
            push_char(&mut out, c);
            k = k + 1;
        }
    }
}

/// Read a value at `i`, after any whitespace.
#[verifier::loop_isolation(false)]
#[verifier::rlimit(100)]
fn x_value(s: &Vec<char>, i: usize) -> (r: Option<(JsonValue, usize)>)
    requires
        i <= s.len(),
    ensures
        match r {
            Some((v, j)) => p_value(s@, i as int) == Some((model(v), j as int)) && i <= j
                <= s.len(),
            None => p_value(s@, i as int) is None,
        },
    decreases s.len() - i, 1int,
{
    let j = x_ws(s, i);
    if j >= s.len() {
        return None;
    }
    let c = s[j];
    if c == 'n' {
        if s.len() - j >= 4 && s[j + 1] == 'u' && s[j + 2] == 'l' && s[j + 3] == 'l' {
            Some((JsonValue::Null, j + 4))
        } else {
            None
        }
    } else if c == 't' {
        if s.len() - j >= 4 && s[j + 1] == 'r' && s[j + 2] == 'u' && s[j + 3] == 'e' {
            Some((JsonValue::Bool(true), j + 4))
        } else {
            None
        }
    } else if c == 'f' {
        if s.len() - j >= 5 && s[j + 1] == 'a' && s[j + 2] == 'l' && s[j + 3] == 's' && s[j + 4]
            == 'e' {
            Some((JsonValue::Bool(false), j + 5))
        } else {
            None
        }
    } else if c == '"' {
        match x_string(s, j + 1) {
            None => None,
            Some((st, k)) => Some((JsonValue::Str(st), k)),
        }
    } else if c == '-' || is_digit_char(c) {
        match x_number(s, j) {
            None => None,
            Some((v, k)) => Some((v, k)),
        }
    } else if c == '[' {
        x_arr(s, j + 1)
    } else if c == '{' {
        x_obj(s, j + 1)
    } else {
        None
    }
}

/// Read an array body at `i` (after the opening bracket).
#[verifier::rlimit(100)]
fn x_arr(s: &Vec<char>, i: usize) -> (r: Option<(JsonValue, usize)>)
    requires
        i <= s.len(),
    ensures
        match r {
            Some((v, j)) => p_arr(s@, i as int) == Some((model(v), j as int)) && i <= j
                <= s.len(),
            None => p_arr(s@, i as int) is None,
        },
    decreases s.len() - i, 3int,
{
    let j = x_ws(s, i);
    if j >= s.len() {
        return None;
    }
    if s[j] == ']' {
        let out: Vec<JsonValue> = Vec::new();
        let ghost ov = out;
        let v = JsonValue::Arr(out);
        proof {
            assert(arr_model_from(ov, 0) =~= Seq::<JsonModel>::empty());
            assert(model(v) == JsonModel::Arr(Seq::<JsonModel>::empty()));
        }
        Some((v, j + 1))
    } else {
        x_elems(s, i, Vec::new())
    }
}

/// Read array elements from `i`, the ones before it already in `acc`.
#[verifier::rlimit(100)]
fn x_elems(s: &Vec<char>, i: usize, acc: Vec<JsonValue>) -> (r: Option<(JsonValue, usize)>)
    requires
        i <= s.len(),
    ensures
        match r {
            Some((v, j)) => p_elems(s@, i as int, arr_model_from(acc, 0)) == Some(
                (model(v), j as int),
            ) && i <= j <= s.len(),
            None => p_elems(s@, i as int, arr_model_from(acc, 0)) is None,
        },
    decreases s.len() - i, 2int,
{
    let ghost acc0 = arr_model_from(acc, 0);
    match x_value(s, i) {
        None => None,
        Some((m, j)) => {
            if j <= i {
                return None;
            }
            let k = x_ws(s, j);
            if k >= s.len() {
                return None;
            }
            if s[k] == ']' {
                let ghost accv = acc;
                let ghost mv = m;
                let mut a = acc;
                a.push(m);
                let ghost av = a;
                let v = JsonValue::Arr(a);
                proof {
                    lemma_arr_model_push(accv, av, mv, 0);
                    assert(model(v) == JsonModel::Arr(acc0.push(model(mv))));
                }
                Some((v, k + 1))
            } else if s[k] == ',' {
                let ghost accv = acc;
                let ghost mv = m;
                let mut a = acc;
                a.push(m);
                proof {
                    lemma_arr_model_push(accv, a, mv, 0);
                    assert(arr_model_from(a, 0) == acc0.push(model(mv)));
                }
                x_elems(s, k + 1, a)
            } else {
                None
            }
        },
    }
}

/// Read an object body at `i` (after the opening brace).
#[verifier::rlimit(100)]
fn x_obj(s: &Vec<char>, i: usize) -> (r: Option<(JsonValue, usize)>)
    requires
        i <= s.len(),
    ensures
        match r {
            Some((v, j)) => p_obj(s@, i as int) == Some((model(v), j as int)) && i <= j
                <= s.len(),
            None => p_obj(s@, i as int) is None,
        },
    decreases s.len() - i, 3int,
{
    let j = x_ws(s, i);
    if j >= s.len() {
        return None;
    }
    if s[j] == '}' {
        let out: Vec<(String, JsonValue)> = Vec::new();
        let ghost ov = out;
        let v = JsonValue::Obj(out);
        proof {
            assert(obj_model_from(ov, 0) =~= Seq::<(Seq<char>, JsonModel)>::empty());
            assert(model(v) == JsonModel::Obj(Seq::<(Seq<char>, JsonModel)>::empty()));
        }
        Some((v, j + 1))
    } else {
        x_members(s, i, Vec::new())
    }
}

/// Read object members from `i`, the ones before it already in `acc`.
#[verifier::rlimit(100)]
fn x_members(s: &Vec<char>, i: usize, acc: Vec<(String, JsonValue)>) -> (r: Option<
    (JsonValue, usize),
>)
    requires
        i <= s.len(),
    ensures
        match r {
            Some((v, j)) => p_members(s@, i as int, obj_model_from(acc, 0)) == Some(
                (model(v), j as int),
            ) && i <= j <= s.len(),
            None => p_members(s@, i as int, obj_model_from(acc, 0)) is None,
        },
    decreases s.len() - i, 2int,
{
    let ghost acc0 = obj_model_from(acc, 0);
    let j = x_ws(s, i);
    if j >= s.len() {
        return None;
    }
    if s[j] != '"' {
        return None;
    }
    match x_string(s, j + 1) {
        None => None,
        Some((key, k)) => {
            let l = x_ws(s, k);
            if l >= s.len() {
                return None;
            }
            if s[l] != ':' {
                return None;
            }
            match x_value(s, l + 1) {
                None => None,
                Some((m, e)) => {
                    if e <= l {
                        return None;
                    }
                    let f = x_ws(s, e);
                    if f >= s.len() {
                        return None;
                    }
                    if s[f] == '}' {
                        let ghost accv = acc;
                        let ghost kv = key@;
                        let ghost mv = m;
                        let mut a = acc;
                        a.push((key, m));
                        let ghost av = a;
                        let v = JsonValue::Obj(a);
                        proof {
                            lemma_obj_model_push(accv, av, av[av.len() - 1], 0);
                            assert(model(v) == JsonModel::Obj(acc0.push((kv, model(mv)))));
                        }
                        Some((v, f + 1))
                    } else if s[f] == ',' {
                        let ghost accv = acc;
                        let ghost kv = key@;
                        let ghost mv = m;
                        let mut a = acc;
                        a.push((key, m));
                        proof {
                            lemma_obj_model_push(accv, a, a[a.len() - 1], 0);
                            assert(obj_model_from(a, 0) == acc0.push((kv, model(mv))));
                        }
                        x_members(s, f + 1, a)
                    } else {
                        None
                    }
                },
            }
        },
    }
}

/// The characters of an array of strings from position `i`, the earlier
/// ones already in `acc`; `None` when some element is not a string.
pub open spec fn str_items_from(
    a: Seq<JsonModel>,
    i: int,
    acc: Seq<Seq<char>>,
) -> Option<Seq<Seq<char>>>
    decreases a.len() - i,
{
    if i >= a.len() {
        Some(acc)
    } else {
        match a[i] {
            JsonModel::Str(s) => str_items_from(a, i + 1, acc.push(s)),
            _ => None,
        }
    }
}

/// The strings of an array value, in order; `None` when some element is
/// not a string.
#[verifier::loop_isolation(false)]
pub fn as_string_items(a: &Vec<JsonValue>) -> (r: Option<Vec<String>>)
    ensures
        match r {
            Some(ls) => str_items_from(arr_model_from(*a, 0), 0, Seq::empty()) == Some(
                ls.deep_view(),
            ),
            None => str_items_from(arr_model_from(*a, 0), 0, Seq::empty()) is None,
        },
{
    let ghost am = arr_model_from(*a, 0);
    proof {
        lemma_arr_model_from(*a, 0);
    }
    let mut out: Vec<String> = Vec::new();
    proof {
        assert(out.deep_view() =~~= Seq::<Seq<char>>::empty());
    }
    let mut i: usize = 0;
    while i < a.len()
        invariant
            i <= a.len(),
            str_items_from(am, 0, Seq::empty()) == str_items_from(am, i as int, out.deep_view()),
        decreases a.len() - i,
    {
        match &a[i] {
            JsonValue::Str(s) => {
                let ghost o0 = out.deep_view();
                let cl = s.clone();
                out.push(cl);
                proof {
                    assert(am[i as int] == model(a[i as int]));
                    assert(out.deep_view() =~~= o0.push(s@));
                }
            },
            _ => {
                proof {
                    assert(am[i as int] == model(a[i as int]));
                }
                return None;
            },
        }
        i = i + 1;
    }
    Some(out)
}

/// Pushing an element extends an array's shape by the element's shape.
pub proof fn lemma_arr_model_push(v1: Vec<JsonValue>, v2: Vec<JsonValue>, x: JsonValue, i: int)
    requires
        v2@ == v1@.push(x),
        0 <= i <= v1.len(),
    ensures
        arr_model_from(v2, i) == arr_model_from(v1, i).push(model(x)),
    decreases v1.len() - i,
{
    if i == v1.len() {
        assert(v2[i] == x);
        assert(arr_model_from(v2, i + 1) =~= Seq::<JsonModel>::empty());
        assert(arr_model_from(v2, i) =~= arr_model_from(v1, i).push(model(x)));
    } else {
        lemma_arr_model_push(v1, v2, x, i + 1);
        assert(v2[i] == v1[i]);
        assert(arr_model_from(v2, i) =~= arr_model_from(v1, i).push(model(x)));
    }
}

/// Pushing a member extends an object's shape by the member's shape.
pub proof fn lemma_obj_model_push(
    m1: Vec<(String, JsonValue)>,
    m2: Vec<(String, JsonValue)>,
    x: (String, JsonValue),
    i: int,
)
    requires
        m2@ == m1@.push(x),
        0 <= i <= m1.len(),
    ensures
        obj_model_from(m2, i) == obj_model_from(m1, i).push((x.0@, model(x.1))),
    decreases m1.len() - i,
{
    if i == m1.len() {
        assert(m2[i] == x);
        assert(obj_model_from(m2, i + 1) =~= Seq::<(Seq<char>, JsonModel)>::empty());
        assert(obj_model_from(m2, i) =~= obj_model_from(m1, i).push((x.0@, model(x.1))));
    } else {
        lemma_obj_model_push(m1, m2, x, i + 1);
        assert(m2[i] == m1[i]);
        assert(obj_model_from(m2, i) =~= obj_model_from(m1, i).push((x.0@, model(x.1))));
    }
}

/// The value of a complete JSON text, or `None` when the text is not of
/// the shapes the protocol uses.
pub fn parse_json_text(s: &str) -> (r: Option<JsonValue>)
    ensures
        match r {
            Some(v) => spec_parse(s@) == Some(model(v)),
            None => spec_parse(s@) is None,
        },
{
    let cs = crate::text::str_chars(s);
    match x_value(&cs, 0) {
        None => None,
        Some((v, j)) => {
            let k = x_ws(&cs, j);
            if k == cs.len() {
                Some(v)
            } else {
                None
            }
        },
    }
}

/// The canonical serialization of `v` as a string.
pub fn to_json_text(v: &JsonValue) -> (r: String)
    ensures
        r@ == spec_ser(model(*v)),
{
    let mut out = String::new();
    write_value(&mut out, v);
    proof {
        assert(out@ =~= spec_ser(model(*v)));
    }
    out
}

} // verus!
