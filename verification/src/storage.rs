//! The newline-delimited record format of the durable event log.
//!
//! The writer here fixes the path and the line format and proves that a
//! sequence of appended records reads back line for line; the file I/O
//! itself stays outside the core.

use vstd::prelude::*;
use crate::json::{JsonValue, model, spec_ser};
use crate::text::push_char;
use vstd::string::*;

verus! {

/// Names the append-only event log file and formats its records.
#[derive(Debug, Clone)]
pub struct JsonlWriter {
    file_path: String,
}

impl JsonlWriter {
    /// The path of the backing file.
    pub closed spec fn spec_path(&self) -> Seq<char> {
        self.file_path@
    }

    /// A writer for the file at `file_path`.
    pub fn new(file_path: &str) -> (r: Self)
        ensures
            r.spec_path() == file_path@,
    {
        Self { file_path: String::from_str(file_path) }
    }

    /// The path of the backing file.
    pub fn file_path(&self) -> (r: &str)
        ensures
            r@ == self.spec_path(),
    {
        self.file_path.as_str()
    }
}

/// No newline anywhere in `s`.
pub open spec fn no_newline(s: Seq<char>) -> bool {
    forall|k: int| 0 <= k < s.len() ==> s[k] != '\n'
}

/// One record line: the canonical serialization of `v`, newline-terminated.
pub fn record_line(v: &JsonValue) -> (r: String)
    ensures
        r@ == spec_ser(model(*v)) + seq!['\n'],
{
    let mut out = crate::json::to_json_text(v);
    push_char(&mut out, '\n');
    proof {
        assert(out@ =~= spec_ser(model(*v)) + seq!['\n']);
    }
    out
}

/// Concatenation keeps freedom from newlines.
proof fn lemma_no_nl_concat(a: Seq<char>, b: Seq<char>)
    requires
        no_newline(a),
        no_newline(b),
    ensures
        no_newline(a + b),
{
    assert forall|k: int| 0 <= k < (a + b).len() implies (a + b)[k] != '\n' by {
        if k < a.len() {
            assert((a + b)[k] == a[k]);
        } else {
            assert((a + b)[k] == b[k - a.len()]);
        }
    }
}

/// Decimal digits hold no newline.
proof fn lemma_dec_digits_no_nl(n: nat)
    ensures
        no_newline(crate::json::dec_digits(n)),
    decreases n,
{
    if n >= 10 {
        lemma_dec_digits_no_nl(n / 10);
        let d = crate::json::dec_digits(n);
        assert forall|k: int| 0 <= k < d.len() implies d[k] != '\n' by {
            if k < d.len() - 1 {
                assert(d[k] == crate::json::dec_digits(n / 10)[k]);
            }
        }
    }
}

/// An escaped string holds no raw newline.
proof fn lemma_esc_no_nl(s: Seq<char>)
    ensures
        no_newline(crate::json::esc(s)),
    decreases s.len(),
{
    if s.len() > 0 {
        lemma_esc_no_nl(s.skip(1));
        assert(no_newline(crate::json::esc_char(s[0])));
        lemma_no_nl_concat(crate::json::esc_char(s[0]), crate::json::esc(s.skip(1)));
    }
}

/// A serialized value holds no newline: records are one line each.
pub proof fn lemma_ser_no_newline(m: crate::json::JsonModel)
    ensures
        no_newline(spec_ser(m)),
    decreases m,
{
    match m {
        crate::json::JsonModel::Null => {
            assert(no_newline(spec_ser(m)));
        },
        crate::json::JsonModel::Bool(_) => {
            assert(no_newline(spec_ser(m)));
        },
        crate::json::JsonModel::Num { neg, mag } => {
            lemma_dec_digits_no_nl(mag as nat);
            if neg {
                lemma_no_nl_concat(seq!['-'], crate::json::dec_digits(mag as nat));
            }
        },
        crate::json::JsonModel::Str(s) => {
            lemma_esc_no_nl(s);
            lemma_no_nl_concat(seq!['"'], crate::json::esc(s));
            lemma_no_nl_concat(seq!['"'] + crate::json::esc(s), seq!['"']);
        },
        crate::json::JsonModel::Arr(a) => {
            lemma_items_no_newline(a);
            lemma_no_nl_concat(seq!['['], crate::json::ser_items(a));
            lemma_no_nl_concat(seq!['['] + crate::json::ser_items(a), seq![']']);
        },
        crate::json::JsonModel::Obj(o) => {
            lemma_members_no_newline(o);
            lemma_no_nl_concat(seq!['{'], crate::json::ser_members(o));
            lemma_no_nl_concat(seq!['{'] + crate::json::ser_members(o), seq!['}']);
        },
    }
}

/// Serialized array elements hold no newline.
proof fn lemma_items_no_newline(a: Seq<crate::json::JsonModel>)
    ensures
        no_newline(crate::json::ser_items(a)),
        no_newline(crate::json::ser_tail(a)),
    decreases a,
{
    if a.len() > 0 {
        lemma_ser_no_newline(a[0]);
        lemma_items_no_newline(a.skip(1));
        lemma_no_nl_concat(spec_ser(a[0]), crate::json::ser_tail(a.skip(1)));
        lemma_no_nl_concat(seq![','], spec_ser(a[0]));
        lemma_no_nl_concat(seq![','] + spec_ser(a[0]), crate::json::ser_tail(a.skip(1)));
    }
}

/// Serialized object members hold no newline.
proof fn lemma_members_no_newline(o: Seq<(Seq<char>, crate::json::JsonModel)>)
    ensures
        no_newline(crate::json::ser_members(o)),
        no_newline(crate::json::ser_mtail(o)),
    decreases o,
{
    if o.len() > 0 {
        lemma_ser_no_newline(o[0].1);
        lemma_esc_no_nl(o[0].0);
        lemma_members_no_newline(o.skip(1));
        lemma_no_nl_concat(seq!['"'], crate::json::esc(o[0].0));
        lemma_no_nl_concat(seq!['"'] + crate::json::esc(o[0].0), seq!['"']);
        lemma_no_nl_concat(seq!['"'] + crate::json::esc(o[0].0) + seq!['"'], seq![':']);
        lemma_no_nl_concat(
            seq!['"'] + crate::json::esc(o[0].0) + seq!['"'] + seq![':'],
            spec_ser(o[0].1),
        );
        assert(crate::json::ser_member(o[0]) =~= seq!['"'] + crate::json::esc(o[0].0) + seq!['"']
            + seq![':'] + spec_ser(o[0].1));
        lemma_no_nl_concat(crate::json::ser_member(o[0]), crate::json::ser_mtail(o.skip(1)));
        lemma_no_nl_concat(seq![','], crate::json::ser_member(o[0]));
        lemma_no_nl_concat(
            seq![','] + crate::json::ser_member(o[0]),
            crate::json::ser_mtail(o.skip(1)),
        );
    }
}

/// The text of the backing file after appending each record, in call
/// order, each newline-terminated.
pub open spec fn sink_text(rs: Seq<Seq<char>>) -> Seq<char>
    decreases rs.len(),
{
    if rs.len() == 0 {
        Seq::empty()
    } else {
        rs[0] + seq!['\n'] + sink_text(rs.skip(1))
    }
}

/// The lines of `s`, reading from `i` with the line built so far and the
/// lines already complete; a trailing piece without a newline counts too.
pub open spec fn split_lines_from(
    s: Seq<char>,
    i: int,
    cur: Seq<char>,
    acc: Seq<Seq<char>>,
) -> Seq<Seq<char>>
    decreases s.len() - i,
{
    if i >= s.len() {
        if cur.len() > 0 {
            acc.push(cur)
        } else {
            acc
        }
    } else if s[i] == '\n' {
        split_lines_from(s, i + 1, Seq::empty(), acc.push(cur))
    } else {
        split_lines_from(s, i + 1, cur.push(s[i]), acc)
    }
}

/// The lines of `s`.
pub open spec fn split_lines(s: Seq<char>) -> Seq<Seq<char>> {
    split_lines_from(s, 0, Seq::empty(), Seq::empty())
}

/// Splitting from position `i + 1` is splitting the tail from `i`.
proof fn lemma_split_shift(s: Seq<char>, i: int, cur: Seq<char>, acc: Seq<Seq<char>>)
    requires
        0 <= i,
        1 <= s.len(),
    ensures
        split_lines_from(s, i + 1, cur, acc) == split_lines_from(s.skip(1), i, cur, acc),
    decreases s.len() - i,
{
    if i + 1 >= s.len() {
        assert(s.skip(1).len() == s.len() - 1);
        assert(i >= s.skip(1).len());
    } else {
        assert(s.skip(1)[i] == s[i + 1]);
        lemma_split_shift(s, i + 1, Seq::empty(), acc.push(cur));
        lemma_split_shift(s, i + 1, cur.push(s[i + 1]), acc);
    }
}

/// Splitting consumes one newline-terminated, newline-free record whole.
proof fn lemma_split_consume(r: Seq<char>, rest: Seq<char>, acc: Seq<Seq<char>>)
    requires
        no_newline(r),
    ensures
        split_lines_from(r + seq!['\n'] + rest, 0, Seq::empty(), acc) == split_lines_from(
            rest,
            0,
            Seq::empty(),
            acc.push(r),
        ),
    decreases r.len(),
{
    let t = r + seq!['\n'] + rest;
    if r.len() == 0 {
        assert(t[0] == '\n');
        lemma_split_shift(t, 0, Seq::empty(), acc.push(Seq::empty()));
        assert(t.skip(1) =~= rest);
        assert(acc.push(Seq::<char>::empty()) =~~= acc.push(r));
    } else {
        assert(t[0] == r[0]);
        assert(t[0] != '\n');
        lemma_split_shift(t, 0, Seq::empty().push(t[0]), acc);
        assert(t.skip(1) =~= r.skip(1) + seq!['\n'] + rest);
        assert(Seq::empty().push(r[0]) + r.skip(1) =~= r);
        lemma_split_consume_cur(r.skip(1), rest, Seq::empty().push(r[0]), acc, r);
    }
}

/// Splitting carries a part-built record through to its newline.
proof fn lemma_split_consume_cur(
    r: Seq<char>,
    rest: Seq<char>,
    cur: Seq<char>,
    acc: Seq<Seq<char>>,
    whole: Seq<char>,
)
    requires
        no_newline(r),
        whole == cur + r,
    ensures
        split_lines_from(r + seq!['\n'] + rest, 0, cur, acc) == split_lines_from(
            rest,
            0,
            Seq::empty(),
            acc.push(whole),
        ),
    decreases r.len(),
{
    let t = r + seq!['\n'] + rest;
    if r.len() == 0 {
        assert(t[0] == '\n');
        lemma_split_shift(t, 0, Seq::empty(), acc.push(cur));
        assert(t.skip(1) =~= rest);
        assert(cur =~= whole);
    } else {
        assert(t[0] == r[0]);
        assert(t[0] != '\n');
        lemma_split_shift(t, 0, cur.push(t[0]), acc);
        assert(t.skip(1) =~= r.skip(1) + seq!['\n'] + rest);
        assert(cur.push(r[0]) + r.skip(1) =~= cur + r);
        lemma_split_consume_cur(r.skip(1), rest, cur.push(r[0]), acc, whole);
    }
}

/// Appending records in order and then reading the file back line by
/// line yields the records, in call order.
pub proof fn lemma_records_read_back(rs: Seq<Seq<char>>)
    requires
        forall|i: int| 0 <= i < rs.len() ==> no_newline(#[trigger] rs[i]),
    ensures
        split_lines(sink_text(rs)) == rs,
{
    lemma_records_read_back_from(rs, Seq::empty());
    assert(Seq::<Seq<char>>::empty() + rs =~~= rs);
}

/// The generalization of the read-back law over lines already read.
proof fn lemma_records_read_back_from(rs: Seq<Seq<char>>, acc: Seq<Seq<char>>)
    requires
        forall|i: int| 0 <= i < rs.len() ==> no_newline(#[trigger] rs[i]),
    ensures
        split_lines_from(sink_text(rs), 0, Seq::empty(), acc) == acc + rs,
    decreases rs.len(),
{
    if rs.len() == 0 {
        assert(acc + rs =~~= acc);
    } else {
        lemma_split_consume(rs[0], sink_text(rs.skip(1)), acc);
        lemma_records_read_back_from(rs.skip(1), acc.push(rs[0]));
        assert(acc.push(rs[0]) + rs.skip(1) =~~= acc + rs);
    }
}

} // verus!
