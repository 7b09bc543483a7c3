//! The serialization round trip: a well-formed value, serialized
//! canonically, parses back to exactly that value.

use vstd::prelude::*;
use crate::json::{
    JsonModel, spec_ser, spec_parse, ser_str, ser_items, ser_tail, ser_members, ser_mtail,
    ser_member, esc, esc_char, dec_digits, digit_char, is_digit, digit_val, is_json_ws, p_ws,
    p_digits, p_number, p_string, p_value, p_arr, p_elems, p_obj, p_members,
};

verus! {

broadcast use vstd::seq::axiom_seq_index_decreases, vstd::seq::axiom_seq_subrange_decreases;

/// Powers of ten.
pub open spec fn pow10(k: nat) -> nat
    decreases k,
{
    if k == 0 {
        1
    } else {
        10 * pow10((k - 1) as nat)
    }
}

/// A value whose serialization the parser reads back: its numbers carry
/// no negative zero.
pub open spec fn wf(m: JsonModel) -> bool
    decreases m, 0int, 0int,
{
    match m {
        JsonModel::Null => true,
        JsonModel::Bool(_) => true,
        JsonModel::Num { neg, mag } => neg ==> mag > 0,
        JsonModel::Str(_) => true,
        JsonModel::Arr(a) => wf_arr(a, 0),
        JsonModel::Obj(o) => wf_obj(o, 0),
    }
}

/// Every element from `i` on is well-formed.
pub open spec fn wf_arr(a: Seq<JsonModel>, i: int) -> bool
    decreases a, 1int, a.len() - i,
{
    if i < 0 || i >= a.len() {
        true
    } else {
        wf(a[i]) && wf_arr(a, i + 1)
    }
}

/// Every member value from `i` on is well-formed.
pub open spec fn wf_obj(o: Seq<(Seq<char>, JsonModel)>, i: int) -> bool
    decreases o, 1int, o.len() - i,
{
    if i < 0 || i >= o.len() {
        true
    } else {
        wf(o[i].1) && wf_obj(o, i + 1)
    }
}

/// From position `i`, well-formedness lists element by element.
proof fn lemma_wf_arr_index(a: Seq<JsonModel>, i: int)
    requires
        0 <= i <= a.len(),
        wf_arr(a, i),
    ensures
        forall|k: int| i <= k < a.len() ==> wf(#[trigger] a[k]),
    decreases a.len() - i,
{
    if i < a.len() {
        lemma_wf_arr_index(a, i + 1);
    }
}

/// From position `i`, well-formedness lists member by member.
proof fn lemma_wf_obj_index(o: Seq<(Seq<char>, JsonModel)>, i: int)
    requires
        0 <= i <= o.len(),
        wf_obj(o, i),
    ensures
        forall|k: int| i <= k < o.len() ==> wf(#[trigger] o[k].1),
    decreases o.len() - i,
{
    if i < o.len() {
        lemma_wf_obj_index(o, i + 1);
    }
}

/// A subrange equal to a concatenation splits at the seam.
proof fn lemma_subrange_split(s: Seq<char>, i: int, x: Seq<char>, y: Seq<char>)
    requires
        0 <= i,
        i + x.len() + y.len() <= s.len(),
        s.subrange(i, i + x.len() + y.len()) == x + y,
    ensures
        s.subrange(i, i + x.len()) == x,
        s.subrange(i + x.len(), i + x.len() + y.len()) == y,
{
    let t = s.subrange(i, i + x.len() + y.len());
    assert forall|j: int| 0 <= j < x.len() implies s.subrange(i, i + x.len())[j] == x[j] by {
        assert(t[j] == s[i + j]);
        assert((x + y)[j] == x[j]);
    }
    assert(s.subrange(i, i + x.len()) =~= x);
    assert forall|j: int| 0 <= j < y.len() implies s.subrange(
        i + x.len(),
        i + x.len() + y.len(),
    )[j] == y[j] by {
        assert(t[x.len() + j] == s[i + x.len() + j]);
        assert((x + y)[x.len() + j] == y[j]);
    }
    assert(s.subrange(i + x.len(), i + x.len() + y.len()) =~= y);
}

/// The digit characters carry their values back.
proof fn lemma_digit_char_val(d: nat)
    requires
        d < 10,
    ensures
        is_digit(digit_char(d)),
        digit_val(digit_char(d)) == d,
{
}

/// A decimal rendering is at least one character and opens with a digit.
proof fn lemma_dec_digits_shape(n: nat)
    ensures
        dec_digits(n).len() >= 1,
        is_digit(dec_digits(n)[0]),
        forall|k: int| 0 <= k < dec_digits(n).len() ==> is_digit(#[trigger] dec_digits(n)[k]),
    decreases n,
{
    if n >= 10 {
        lemma_dec_digits_shape(n / 10);
        let d = dec_digits(n);
        assert forall|k: int| 0 <= k < d.len() implies is_digit(#[trigger] d[k]) by {
            if k < d.len() - 1 {
                assert(d[k] == dec_digits(n / 10)[k]);
            } else {
                lemma_digit_char_val(n % 10);
            }
        }
    } else {
        lemma_digit_char_val(n);
    }
}

/// Reading the decimal rendering of `n` multiplies the accumulator past
/// it and adds `n`.
proof fn lemma_parse_digits(n: nat, acc: u64, s: Seq<char>, i: int)
    requires
        n <= u64::MAX,
        0 <= i,
        i + dec_digits(n).len() <= s.len(),
        s.subrange(i, i + dec_digits(n).len() as int) == dec_digits(n),
        acc * pow10(dec_digits(n).len() as nat) + n <= u64::MAX,
    ensures
        p_digits(s, i, acc) == p_digits(
            s,
            i + dec_digits(n).len(),
            (acc * pow10(dec_digits(n).len() as nat) + n) as u64,
        ),
    decreases n,
{
    let d = dec_digits(n);
    if n < 10 {
        assert(d =~= seq![digit_char(n)]);
        lemma_digit_char_val(n);
        assert(s.subrange(i, i + 1)[0] == s[i]);
        assert(s[i] == digit_char(n));
        assert(pow10(1) == 10) by {
            reveal_with_fuel(pow10, 2);
        }
        assert(acc * 10 + n <= u64::MAX);
        assert(p_digits(s, i, acc) == p_digits(s, i + 1, (acc * 10 + n) as u64));
    } else {
        let dh = dec_digits(n / 10);
        let lh = dh.len();
        assert(d == dh.push(digit_char(n % 10)));
        assert(d =~= dh + seq![digit_char(n % 10)]);
        assert(d.len() == lh + 1);
        lemma_subrange_split(s, i, dh, seq![digit_char(n % 10)]);
        assert(s.subrange(i + lh, i + lh + 1)[0] == s[i + lh]);
        assert(s[i + lh] == digit_char(n % 10));
        assert(pow10((lh + 1) as nat) == 10 * pow10(lh as nat));
        let hi = n / 10;
        let lo = n % 10;
        lemma_pow10_pos(lh as nat);
        vstd::arithmetic::div_mod::lemma_fundamental_div_mod(n as int, 10);
        assert(n == hi * 10 + lo);
        assert(acc * pow10((lh + 1) as nat) + n == (acc * pow10(lh as nat) + hi) * 10 + lo)
            by (nonlinear_arith)
            requires
                pow10((lh + 1) as nat) == 10 * pow10(lh as nat),
                n == hi * 10 + lo,
        ;
        assert(acc * pow10(lh as nat) + hi >= 0) by (nonlinear_arith)
            requires
                acc >= 0,
                pow10(lh as nat) > 0,
                hi >= 0,
        ;
        assert((acc * pow10(lh as nat) + hi) * 10 + lo <= u64::MAX);
        assert(acc * pow10(lh as nat) + hi <= u64::MAX) by (nonlinear_arith)
            requires
                (acc * pow10(lh as nat) + hi) * 10 + lo <= u64::MAX,
                acc * pow10(lh as nat) + hi >= 0,
                lo >= 0,
        ;
        lemma_parse_digits(hi, acc, s, i);
        let mid = (acc * pow10(lh as nat) + hi) as u64;
        lemma_digit_char_val(lo);
        assert(p_digits(s, i + lh, mid) == p_digits(s, i + lh + 1, (mid * 10 + lo) as u64));
        assert((mid * 10 + lo) as u64 == (acc * pow10((lh + 1) as nat) + n) as u64);
    }
}

/// Powers of ten are positive.
proof fn lemma_pow10_pos(k: nat)
    ensures
        pow10(k) >= 1,
    decreases k,
{
    if k > 0 {
        lemma_pow10_pos((k - 1) as nat);
    }
}

/// Reading an escaped string body and its closing quote yields the
/// original characters after the accumulator.
proof fn lemma_parse_string(body: Seq<char>, s: Seq<char>, i: int, acc: Seq<char>)
    requires
        0 <= i,
        i + esc(body).len() + 1 <= s.len(),
        s.subrange(i, i + esc(body).len() as int) == esc(body),
        s[i + esc(body).len()] == '"',
    ensures
        p_string(s, i, acc) == Some((acc + body, i + esc(body).len() + 1)),
    decreases body.len(),
{
    if body.len() == 0 {
        assert(esc(body).len() == 0);
        assert(s[i] == '"');
        assert(acc + body =~= acc);
    } else {
        let c = body[0];
        let rest = body.skip(1);
        assert(esc(body) == esc_char(c) + esc(rest));
        lemma_subrange_split(s, i, esc_char(c), esc(rest));
        let e = esc_char(c).len();
        assert forall|j: int| 0 <= j < e implies s[i + j] == esc_char(c)[j] by {
            assert(s.subrange(i, i + e)[j] == s[i + j]);
        }
        if c == '"' || c == '\\' || c == '\n' || c == '\r' || c == '\t' {
            assert(e == 2);
            assert(s[i + 0] == esc_char(c)[0]);
            assert(s[i + 1] == esc_char(c)[1]);
            assert(s[i] == '\\');
            lemma_parse_string(rest, s, i + 2, acc.push(c));
        } else {
            assert(e == 1);
            assert(s[i + 0] == esc_char(c)[0]);
            assert(s[i] == c);
            lemma_parse_string(rest, s, i + 1, acc.push(c));
        }
        assert(acc.push(c) + rest =~= acc + body);
    }
}

/// The opening character of a serialized value starts a value: it is
/// none of whitespace, a comma, a closing bracket or a closing brace.
pub open spec fn is_value_start(c: char) -> bool {
    c == 'n' || c == 't' || c == 'f' || c == '"' || c == '-' || is_digit(c) || c == '[' || c
        == '{'
}

/// A serialized value is nonempty and opens with a value-start character.
proof fn lemma_ser_head(m: JsonModel)
    ensures
        spec_ser(m).len() >= 1,
        is_value_start(spec_ser(m)[0]),
        !is_json_ws(spec_ser(m)[0]),
        spec_ser(m)[0] != ']',
        spec_ser(m)[0] != '}',
        spec_ser(m)[0] != ',',
        spec_ser(m)[0] != ':',
{
    match m {
        JsonModel::Num { neg, mag } => {
            lemma_dec_digits_shape(mag as nat);
            if neg {
                assert(spec_ser(m)[0] == '-');
            } else {
                assert(spec_ser(m)[0] == dec_digits(mag as nat)[0]);
            }
        },
        JsonModel::Str(_) => {
            assert(spec_ser(m)[0] == '"');
        },
        JsonModel::Arr(a) => {
            assert(spec_ser(m)[0] == '[');
        },
        JsonModel::Obj(o) => {
            assert(spec_ser(m)[0] == '{');
        },
        _ => {},
    }
}

/// After one element, the rest of an array's serialization is a comma
/// and the remaining elements.
proof fn lemma_ser_tail_unfold(a: Seq<JsonModel>)
    requires
        a.len() > 0,
    ensures
        ser_tail(a) == seq![','] + ser_items(a),
{
    assert(ser_tail(a) =~= seq![','] + ser_items(a));
}

/// After one member, the rest of an object's serialization is a comma
/// and the remaining members.
proof fn lemma_ser_mtail_unfold(o: Seq<(Seq<char>, JsonModel)>)
    requires
        o.len() > 0,
    ensures
        ser_mtail(o) == seq![','] + ser_members(o),
{
    assert(ser_mtail(o) =~= seq![','] + ser_members(o));
}

/// Parsing at the start of a serialized well-formed value reads exactly
/// that value, whatever follows, as long as a digit does not follow a
/// serialized number directly.
pub proof fn lemma_parse_of_ser(m: JsonModel, s: Seq<char>, i: int)
    requires
        wf(m),
        0 <= i,
        i + spec_ser(m).len() <= s.len(),
        s.subrange(i, i + spec_ser(m).len() as int) == spec_ser(m),
        i + spec_ser(m).len() == s.len() || !is_digit(s[i + spec_ser(m).len()]),
    ensures
        p_value(s, i) == Some((m, i + spec_ser(m).len())),
    decreases m,
{
    let t = spec_ser(m);
    let l = t.len() as int;
    lemma_ser_head(m);
    assert forall|k: int| 0 <= k < l implies s[i + k] == t[k] by {
        assert(s.subrange(i, i + l)[k] == s[i + k]);
    }
    assert(!is_json_ws(s[i + 0]));
    assert(p_ws(s, i) == i);
    match m {
        JsonModel::Null => {
            assert(s[i + 0] == 'n' && s[i + 1] == 'u' && s[i + 2] == 'l' && s[i + 3] == 'l');
        },
        JsonModel::Bool(b) => {
            if b {
                assert(s[i + 0] == 't' && s[i + 1] == 'r' && s[i + 2] == 'u' && s[i + 3] == 'e');
            } else {
                assert(s[i + 0] == 'f' && s[i + 1] == 'a' && s[i + 2] == 'l' && s[i + 3] == 's'
                    && s[i + 4] == 'e');
            }
        },
        JsonModel::Num { neg, mag } => {
            lemma_dec_digits_shape(mag as nat);
            lemma_pow10_pos(dec_digits(mag as nat).len() as nat);
            let dl = dec_digits(mag as nat).len() as int;
            if neg {
                assert(s[i + 0] == '-');
                assert(t == seq!['-'] + dec_digits(mag as nat));
                lemma_subrange_split(s, i, seq!['-'], dec_digits(mag as nat));
                assert(s[i + 1] == dec_digits(mag as nat)[0]) by {
                    assert(s.subrange(i + 1, i + 1 + dl)[0] == s[i + 1]);
                }
                assert(is_digit(s[i + 1]));
                assert(0 * pow10(dec_digits(mag as nat).len() as nat) + mag == mag)
                    by (nonlinear_arith);
                lemma_parse_digits(mag as nat, 0, s, i + 1);
                assert(p_digits(s, i + 1, 0) == p_digits(s, i + 1 + dl, mag));
                assert(p_digits(s, i + 1 + dl, mag) == Some((mag, i + 1 + dl)));
                assert(p_number(s, i) == Some((JsonModel::Num { neg: true, mag }, i + 1 + dl)));
                assert(neg && mag > 0);
            } else {
                assert(t == dec_digits(mag as nat));
                assert(s[i + 0] == dec_digits(mag as nat)[0]);
                assert(is_digit(s[i]));
                assert(s[i] != '-');
                assert(0 * pow10(dec_digits(mag as nat).len() as nat) + mag == mag)
                    by (nonlinear_arith);
                lemma_parse_digits(mag as nat, 0, s, i);
                assert(p_digits(s, i, 0) == p_digits(s, i + dl, mag));
                assert(p_digits(s, i + dl, mag) == Some((mag, i + dl)));
                assert(p_number(s, i) == Some((JsonModel::Num { neg: false, mag }, i + dl)));
            }
        },
        JsonModel::Str(body) => {
            assert(s[i + 0] == '"');
            let el = esc(body).len() as int;
            assert(t == seq!['"'] + esc(body) + seq!['"']);
            assert(t =~= seq!['"'] + (esc(body) + seq!['"']));
            lemma_subrange_split(s, i, seq!['"'], esc(body) + seq!['"']);
            lemma_subrange_split(s, i + 1, esc(body), seq!['"']);
            assert(s[i + 1 + el] == '"') by {
                assert(s.subrange(i + 1 + el, i + 1 + el + 1)[0] == s[i + 1 + el]);
            }
            lemma_parse_string(body, s, i + 1, Seq::empty());
            assert(Seq::<char>::empty() + body =~= body);
            assert(p_string(s, i + 1, Seq::empty()) == Some((body, i + l)));
        },
        JsonModel::Arr(a) => {
            assert(s[i + 0] == '[');
            let inner = ser_items(a);
            let il = inner.len() as int;
            assert(t == seq!['['] + inner + seq![']']);
            assert(t =~= seq!['['] + (inner + seq![']']));
            lemma_subrange_split(s, i, seq!['['], inner + seq![']']);
            lemma_subrange_split(s, i + 1, inner, seq![']']);
            assert(s[i + 1 + il] == ']') by {
                assert(s.subrange(i + 1 + il, i + 1 + il + 1)[0] == s[i + 1 + il]);
            }
            if a.len() == 0 {
                assert(il == 0);
                assert(s[i + 1] == ']');
                assert(p_ws(s, i + 1) == i + 1);
                assert(p_arr(s, i + 1) == Some((JsonModel::Arr(Seq::empty()), i + 2)));
                assert(a =~= Seq::<JsonModel>::empty());
            } else {
                lemma_wf_arr_index(a, 0);
                lemma_ser_head(a[0]);
                assert(inner == spec_ser(a[0]) + ser_tail(a.skip(1)));
                assert(s[i + 1] == inner[0]) by {
                    assert(s.subrange(i + 1, i + 1 + il)[0] == s[i + 1]);
                }
                assert(inner[0] == spec_ser(a[0])[0]);
                assert(p_ws(s, i + 1) == i + 1);
                assert(s[i + 1] != ']');
                lemma_parse_elems(a, s, i + 1, Seq::empty());
                assert(Seq::<JsonModel>::empty() + a =~= a);
                assert(p_arr(s, i + 1) == Some((JsonModel::Arr(a), i + l)));
            }
        },
        JsonModel::Obj(o) => {
            assert(s[i + 0] == '{');
            let inner = ser_members(o);
            let il = inner.len() as int;
            assert(t == seq!['{'] + inner + seq!['}']);
            assert(t =~= seq!['{'] + (inner + seq!['}']));
            lemma_subrange_split(s, i, seq!['{'], inner + seq!['}']);
            lemma_subrange_split(s, i + 1, inner, seq!['}']);
            assert(s[i + 1 + il] == '}') by {
                assert(s.subrange(i + 1 + il, i + 1 + il + 1)[0] == s[i + 1 + il]);
            }
            if o.len() == 0 {
                assert(il == 0);
                assert(s[i + 1] == '}');
                assert(p_ws(s, i + 1) == i + 1);
                assert(p_obj(s, i + 1) == Some(
                    (JsonModel::Obj(Seq::<(Seq<char>, JsonModel)>::empty()), i + 2),
                ));
                assert(o =~= Seq::<(Seq<char>, JsonModel)>::empty());
            } else {
                lemma_wf_obj_index(o, 0);
                assert(inner == ser_member(o[0]) + ser_mtail(o.skip(1)));
                assert(ser_member(o[0]) == ser_str(o[0].0) + seq![':'] + spec_ser(o[0].1));
                assert(s[i + 1] == inner[0]) by {
                    assert(s.subrange(i + 1, i + 1 + il)[0] == s[i + 1]);
                }
                assert(inner[0] == '"') by {
                    assert(ser_member(o[0])[0] == '"');
                }
                assert(p_ws(s, i + 1) == i + 1);
                assert(s[i + 1] != '}');
                lemma_parse_members(o, s, i + 1, Seq::empty());
                assert(Seq::<(Seq<char>, JsonModel)>::empty() + o =~= o);
                assert(p_obj(s, i + 1) == Some((JsonModel::Obj(o), i + l)));
            }
        },
    }
}

/// Parsing the serialized elements of a nonempty array, followed by the
/// closing bracket, appends exactly those elements.
proof fn lemma_parse_elems(a: Seq<JsonModel>, s: Seq<char>, i: int, acc: Seq<JsonModel>)
    requires
        a.len() > 0,
        forall|k: int| 0 <= k < a.len() ==> wf(#[trigger] a[k]),
        0 <= i,
        i + ser_items(a).len() + 1 <= s.len(),
        s.subrange(i, i + ser_items(a).len() as int) == ser_items(a),
        s[i + ser_items(a).len()] == ']',
    ensures
        p_elems(s, i, acc) == Some((JsonModel::Arr(acc + a), i + ser_items(a).len() + 1)),
    decreases a,
{
    let t = ser_items(a);
    let l = t.len() as int;
    let e0 = spec_ser(a[0]);
    let el = e0.len() as int;
    lemma_ser_head(a[0]);
    assert(t == e0 + ser_tail(a.skip(1)));
    lemma_subrange_split(s, i, e0, ser_tail(a.skip(1)));
    if a.len() == 1 {
        assert(a.skip(1).len() == 0);
        assert(ser_tail(a.skip(1)) == Seq::<char>::empty());
        assert(t =~= e0);
        assert(s[i + el] == ']');
        lemma_parse_of_ser(a[0], s, i);
        assert(p_value(s, i) == Some((a[0], i + el)));
        assert(p_ws(s, i + el) == i + el);
        assert(p_elems(s, i, acc) == Some((JsonModel::Arr(acc.push(a[0])), i + el + 1)));
        assert(acc.push(a[0]) =~= acc + a);
    } else {
        let rest = a.skip(1);
        assert(rest.len() > 0);
        lemma_ser_tail_unfold(rest);
        assert(ser_tail(rest) == seq![','] + ser_items(rest));
        assert(t =~= e0 + seq![','] + ser_items(rest));
        assert(t =~= e0 + (seq![','] + ser_items(rest)));
        lemma_subrange_split(s, i, e0, seq![','] + ser_items(rest));
        lemma_subrange_split(s, i + el, seq![','], ser_items(rest));
        assert(s[i + el] == ',') by {
            assert(s.subrange(i + el, i + el + 1)[0] == s[i + el]);
        }
        lemma_parse_of_ser(a[0], s, i);
        assert(p_value(s, i) == Some((a[0], i + el)));
        assert(p_ws(s, i + el) == i + el);
        assert(forall|k: int| 0 <= k < rest.len() ==> wf(#[trigger] rest[k]));
        assert(i + l == (i + el + 1) + ser_items(rest).len());
        lemma_parse_elems(rest, s, i + el + 1, acc.push(a[0]));
        assert(acc.push(a[0]) + rest =~= acc + a);
    }
}

/// Parsing the serialized members of a nonempty object, followed by the
/// closing brace, appends exactly those members.
proof fn lemma_parse_members(
    o: Seq<(Seq<char>, JsonModel)>,
    s: Seq<char>,
    i: int,
    acc: Seq<(Seq<char>, JsonModel)>,
)
    requires
        o.len() > 0,
        forall|k: int| 0 <= k < o.len() ==> wf(#[trigger] o[k].1),
        0 <= i,
        i + ser_members(o).len() + 1 <= s.len(),
        s.subrange(i, i + ser_members(o).len() as int) == ser_members(o),
        s[i + ser_members(o).len()] == '}',
    ensures
        p_members(s, i, acc) == Some((JsonModel::Obj(acc + o), i + ser_members(o).len() + 1)),
    decreases o,
{
    let t = ser_members(o);
    let l = t.len() as int;
    let key = o[0].0;
    let kl = esc(key).len() as int;
    let v0 = spec_ser(o[0].1);
    let vl = v0.len() as int;
    let m0 = ser_member(o[0]);
    let ml = m0.len() as int;
    assert(t == m0 + ser_mtail(o.skip(1)));
    lemma_subrange_split(s, i, m0, ser_mtail(o.skip(1)));
    assert(m0 == ser_str(key) + seq![':'] + v0);
    assert(m0 =~= seq!['"'] + (esc(key) + (seq!['"', ':'] + v0)));
    lemma_subrange_split(s, i, seq!['"'], esc(key) + (seq!['"', ':'] + v0));
    lemma_subrange_split(s, i + 1, esc(key), seq!['"', ':'] + v0);
    lemma_subrange_split(s, i + 1 + kl, seq!['"', ':'], v0);
    assert(s[i + 0] == '"') by {
        assert(s.subrange(i, i + 1)[0] == s[i]);
    }
    assert(s[i + 1 + kl] == '"' && s[i + 1 + kl + 1] == ':') by {
        assert(s.subrange(i + 1 + kl, i + 1 + kl + 2)[0] == s[i + 1 + kl]);
        assert(s.subrange(i + 1 + kl, i + 1 + kl + 2)[1] == s[i + 1 + kl + 1]);
    }
    assert(p_ws(s, i) == i);
    lemma_parse_string(key, s, i + 1, Seq::empty());
    assert(Seq::<char>::empty() + key =~= key);
    let k1 = i + 1 + kl + 1;
    assert(p_string(s, i + 1, Seq::empty()) == Some((key, k1)));
    assert(p_ws(s, k1) == k1);
    assert(s[k1] == ':');
    lemma_ser_head(o[0].1);
    let e = k1 + 1 + vl;
    assert(ml == 1 + kl + 2 + vl);
    if o.len() == 1 {
        assert(o.skip(1).len() == 0);
        assert(ser_mtail(o.skip(1)) == Seq::<char>::empty());
        assert(t =~= m0);
        assert(s[i + ml] == '}');
        lemma_parse_of_ser(o[0].1, s, k1 + 1);
        assert(p_value(s, k1 + 1) == Some((o[0].1, e)));
        assert(p_ws(s, e) == e);
        assert(p_members(s, i, acc) == Some((JsonModel::Obj(acc.push((key, o[0].1))), e + 1)));
        assert(acc.push((key, o[0].1)) =~= acc + o) by {
            assert(o[0] == (key, o[0].1));
        }
    } else {
        let rest = o.skip(1);
        assert(rest.len() > 0);
        lemma_ser_mtail_unfold(rest);
        assert(ser_mtail(rest) == seq![','] + ser_members(rest));
        assert(t =~= m0 + (seq![','] + ser_members(rest)));
        lemma_subrange_split(s, i, m0, seq![','] + ser_members(rest));
        lemma_subrange_split(s, i + ml, seq![','], ser_members(rest));
        assert(s[i + ml] == ',') by {
            assert(s.subrange(i + ml, i + ml + 1)[0] == s[i + ml]);
        }
        lemma_parse_of_ser(o[0].1, s, k1 + 1);
        assert(p_value(s, k1 + 1) == Some((o[0].1, e)));
        assert(e == i + ml);
        assert(p_ws(s, e) == e);
        assert(forall|k: int| 0 <= k < rest.len() ==> wf(#[trigger] rest[k].1));
        assert(i + l == (i + ml + 1) + ser_members(rest).len());
        lemma_parse_members(rest, s, i + ml + 1, acc.push((key, o[0].1)));
        assert(acc.push((key, o[0].1)) + rest =~= acc + o) by {
            assert(o[0] == (key, o[0].1));
        }
    }
}

/// The round trip: a well-formed value, serialized canonically, parses
/// back to exactly that value.
pub proof fn lemma_text_round_trip(m: JsonModel)
    requires
        wf(m),
    ensures
        spec_parse(spec_ser(m)) == Some(m),
{
    let s = spec_ser(m);
    assert(s.subrange(0, s.len() as int) =~= s);
    lemma_parse_of_ser(m, s, 0);
    assert(p_ws(s, s.len() as int) == s.len());
}

/// An array of string shapes is well-formed from `i` on.
proof fn lemma_wf_str_arr(ls: Seq<Seq<char>>, i: int)
    requires
        0 <= i <= ls.len(),
    ensures
        wf_arr(ls.map_values(|l: Seq<char>| JsonModel::Str(l)), i),
    decreases ls.len() - i,
{
    let a = ls.map_values(|l: Seq<char>| JsonModel::Str(l));
    assert(a.len() == ls.len());
    if i < ls.len() {
        lemma_wf_str_arr(ls, i + 1);
        assert(a[i] == JsonModel::Str(ls[i]));
        assert(wf(a[i]));
    }
}

/// Round trip for a log event record: the serialized record parses back
/// to the record's shape, and that shape reads back field for field.
pub proof fn lemma_log_event_text_round_trip(e: crate::event::LogEvent)
    ensures
        spec_parse(spec_ser(crate::event::log_event_model(e))) == Some(
            crate::event::log_event_model(e),
        ),
        crate::event::log_event_of(crate::event::log_event_model(e)) == Some(
            (e.timestamp@, e.signature@, e.slot, e.program_id@, e.logs.deep_view()),
        ),
{
    let m = crate::event::log_event_model(e);
    let o = m->Obj_0;
    assert(wf(m)) by {
        lemma_wf_str_arr(e.logs.deep_view(), 0);
        assert(wf(o[0].1) && wf(o[1].1) && wf(o[2].1) && wf(o[3].1) && wf(o[4].1));
        assert(o.len() == 5);
        assert(wf_obj(o, 5));
        assert(wf_obj(o, 4));
        assert(wf_obj(o, 3));
        assert(wf_obj(o, 2));
        assert(wf_obj(o, 1));
        assert(wf_obj(o, 0));
    }
    lemma_text_round_trip(m);
    crate::event::lemma_log_event_round_trip(e);
}

/// Round trip for an account event record: the serialized record parses
/// back to the record's shape, and that shape reads back field for field.
pub proof fn lemma_account_event_text_round_trip(e: crate::event::AccountEvent)
    ensures
        spec_parse(spec_ser(crate::event::account_event_model(e))) == Some(
            crate::event::account_event_model(e),
        ),
        crate::event::account_event_of(crate::event::account_event_model(e)) == Some(
            (e.timestamp@, e.pubkey@, e.slot, e.lamports, e.data@),
        ),
{
    let m = crate::event::account_event_model(e);
    let o = m->Obj_0;
    assert(wf(m)) by {
        assert(wf(o[0].1) && wf(o[1].1) && wf(o[2].1) && wf(o[3].1) && wf(o[4].1));
        assert(o.len() == 5);
        assert(wf_obj(o, 5));
        assert(wf_obj(o, 4));
        assert(wf_obj(o, 3));
        assert(wf_obj(o, 2));
        assert(wf_obj(o, 1));
        assert(wf_obj(o, 0));
    }
    lemma_text_round_trip(m);
    crate::event::lemma_account_event_round_trip(e);
}

} // verus!
